use gh_review_insight::process::Output;
use gh_review_insight::terminal::{
    activate_app, ghostty_app, herdr_client_pids, open_in_terminal, open_report,
    open_shell_in_terminal, parse_process, process_tree_info, raise_terminal_window, show_terminal,
    ShowStep, TreeStep,
};

fn ran(stdout: &str) -> Output {
    Output::Ended { success: true, stdout: stdout.as_bytes().to_vec(), stderr: vec![] }
}

#[test]
fn attached_clients_are_told_from_servers_and_commands() {
    let list = "  11 ttys001 herdr\n  12 ?? herdr server\n 13 ttys002 /opt/bin/herdr --flag x\n\
                14 ttys003 herdr workspace list\n15 ttys004 vim herdr\n16 ttys005\n\
                17 ttys006 xherdr\n";
    assert_eq!(herdr_client_pids(list), ["11", "13"]);
    assert!(herdr_client_pids("").is_empty());
}

fn known(step: TreeStep) -> (Vec<String>, bool, usize) {
    match step {
        TreeStep::Known { ttys, ghostty, used } => (ttys, ghostty, used),
        TreeStep::Run(args) => panic!("asks for {args:?}"),
    }
}

#[test]
fn bogus_pids_have_no_ttys() {
    for pid in ["0", "not-a-pid", "1", "-5", ""] {
        assert_eq!(known(process_tree_info(pid, &vec![], 0)), (vec![], false, 0));
    }
}

#[test]
fn the_walk_goes_up_to_the_first_process() {
    match process_tree_info(" 300 ", &vec![], 0) {
        TreeStep::Run(args) => assert_eq!(args, ["-o", "ppid=,tty=,comm=", "-p", "300"]),
        _ => panic!(),
    }
    let outputs = vec![
        ran("200 ttys001 herdr\n"),
        ran("100 ttys002 /bin/zsh -l"),
        ran("50 ?? /Applications/Ghostty.app/Contents/MacOS/ghostty"),
        ran("1 ttys001 launchd"),
        ran("never read"),
    ];
    let ttys = vec!["/dev/ttys001".to_string(), "/dev/ttys002".to_string()];
    assert_eq!(known(process_tree_info("300", &outputs, 0)), (ttys, true, 4));
    // A process that cannot be described ends the walk.
    let gone = vec![Output::Ended { success: false, stdout: vec![], stderr: vec![] }];
    assert_eq!(known(process_tree_info("300", &gone, 0)), (vec![], false, 1));
    let lost = vec![Output::NotStarted("x".to_string())];
    assert_eq!(known(process_tree_info("300", &lost, 0)), (vec![], false, 1));
    assert_eq!(known(process_tree_info("300", &vec![ran("7")], 0)), (vec![], false, 1));
}

#[test]
fn the_walk_is_bounded() {
    let outputs: Vec<Output> = (0..30).map(|_| ran("300 ttys001 loop")).collect();
    assert_eq!(known(process_tree_info("300", &outputs, 2)).2, 18);
}

#[test]
fn process_lines_are_read() {
    let line = parse_process(" 42 ttys001  /Applications/Some App ").unwrap();
    assert_eq!((line.parent, line.tty.as_str()), (42, "ttys001"));
    assert_eq!(line.command, "/Applications/Some App");
    assert_eq!(parse_process("x ??").unwrap().parent, 0);
    assert!(parse_process("42").is_none());
}

#[test]
fn shells_are_opened_in_the_users_terminal() {
    let app = open_shell_in_terminal(&Some("/Applications/Ghostty.app".to_string()), "ls 'x'");
    assert_eq!(app.program, "open");
    assert_eq!(
        app.args,
        [
            "-na", "/Applications/Ghostty.app", "--args", "--window-save-state=never", "-e",
            "/bin/zsh", "-lc", "ls 'x'",
        ],
    );
    let plain = open_shell_in_terminal(&None, "say \"hi\"");
    assert_eq!(plain.program, "osascript");
    assert_eq!(plain.args[0], "-e");
    assert_eq!(
        plain.args[1],
        "tell application \"Terminal\"\nactivate\ndo script \"say \\\"hi\\\"\"\nend tell",
    );
    assert_eq!(open_in_terminal("x").failure, "Terminal を開けませんでした");
    assert_eq!(activate_app("Ghostty").args[1], "tell application \"Ghostty\" to activate");
    assert_eq!(open_report("/r.html").args, ["/r.html"]);
    let home = Some("/h".to_string());
    let existing = vec!["/h/Applications/Ghostty.app".to_string()];
    assert_eq!(ghostty_app(&home, &existing), Some("/h/Applications/Ghostty.app".to_string()));
    assert_eq!(ghostty_app(&None, &existing), None);
}

#[test]
fn a_raised_window_says_so() {
    assert_eq!(raise_terminal_window(&ran("found\n")), Ok(true));
    assert_eq!(raise_terminal_window(&ran("\n")), Ok(false));
    let failed = Output::Ended { success: false, stdout: vec![], stderr: b" no \n".to_vec() };
    let reason = "Terminal のウィンドウ検索に失敗しました: no".to_string();
    assert_eq!(raise_terminal_window(&failed), Err(reason));
    assert!(raise_terminal_window(&Output::NotStarted("x".to_string())).is_err());
}

fn show(keep: bool, herdr: Option<&str>, outputs: Vec<Output>) -> ShowStep {
    show_terminal(keep, &herdr.map(str::to_string), &None, &outputs)
}

#[test]
fn without_a_client_a_terminal_is_opened() {
    match show(true, Some("/bin/herdr"), vec![]) {
        ShowStep::Run { program, args } => {
            assert_eq!(program, "ps");
            assert_eq!(args, ["-axo", "pid=,tty=,args="]);
        }
        _ => panic!(),
    }
    for first in [ran("1 ?? launchd"), Output::NotStarted("x".to_string())] {
        match show(true, Some("/bin/herdr"), vec![first]) {
            ShowStep::Open(opening) => assert!(opening.args[1].contains("do script \"'/bin/herdr'\"")),
            _ => panic!(),
        }
    }
    match show(false, None, vec![ran("")]) {
        ShowStep::Failed(reason) => assert_eq!(reason, "herdr が見つかりませんでした。"),
        _ => panic!(),
    }
}

#[test]
fn an_attached_client_is_raised_or_kept() {
    let clients = || ran("300 ttys001 herdr");
    assert!(matches!(show(true, None, vec![clients()]), ShowStep::Run { .. }));
    match show(true, None, vec![clients(), ran("1 ttys001 zsh")]) {
        ShowStep::Run { program, args } => {
            assert_eq!(program, "osascript");
            assert!(args[1].starts_with(
                "tell application \"Terminal\"\n    set targetTtys to {\"/dev/ttys001\"}\n    repeat",
            ));
            assert!(args[1].ends_with("end tell\nreturn \"\""));
        }
        _ => panic!(),
    }
    let walked = |answer: &str| vec![clients(), ran("1 ttys001 zsh"), ran(answer)];
    assert!(matches!(show(false, None, walked("found")), ShowStep::Done));
    assert!(matches!(show(true, None, walked("")), ShowStep::Done));
    assert!(matches!(show(false, Some("/h"), walked("")), ShowStep::Open(_)));
    match show(true, None, vec![clients(), ran("1 ?? /A/Ghostty.app/x")]) {
        ShowStep::Open(opening) => assert_eq!(
            opening.failure,
            "Ghostty を前面に表示できませんでした",
        ),
        _ => panic!(),
    }
}
