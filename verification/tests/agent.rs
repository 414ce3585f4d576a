use gh_review_insight::agent::{
    augmented_path, claude_candidates, parse_run_output, read_run, resolve_claude_in, review_prompt,
    ClaudeClient, Finish, FocusStep, ReviewStep, Tool, NO_HOME, REVIEW_ALLOWED_TOOLS,
};
use gh_review_insight::herdr::LaunchStep;
use gh_review_insight::json::{parse_json, Json};
use gh_review_insight::process::Output;
use gh_review_insight::records::LaunchedRecord;
use gh_review_insight::terminal::ShowStep;

fn read(text: &str) -> Json {
    parse_json(text.as_bytes()).unwrap()
}

fn ran(stdout: &str) -> Output {
    Output::Ended { success: true, stdout: stdout.as_bytes().to_vec(), stderr: vec![] }
}

fn tool() -> Tool {
    Tool { name: "ai".to_string(), title: "AI CLI".to_string() }
}

fn home() -> Option<String> {
    Some("/h".to_string())
}

const WORKSPACE: &str = "/h/.config/gh-review-insight/workspace";

#[test]
fn parse_run_output_extracts_session_and_result() {
    let value = read(
        r##"{
            "type": "result",
            "subtype": "success",
            "is_error": false,
            "result": "# レビュー結果\n指摘は3件です。",
            "session_id": "abc-123"
        }"##,
    );
    let (session_id, report) = parse_run_output(&value, "ai").unwrap();
    assert_eq!(session_id, "abc-123");
    assert!(report.starts_with("# レビュー結果"));
}

#[test]
fn parse_run_output_surfaces_error_responses() {
    let value = read(
        r#"{
            "is_error": true,
            "subtype": "error_during_execution",
            "result": "boom",
            "session_id": "abc"
        }"#,
    );
    let err = parse_run_output(&value, "ai").unwrap_err();
    assert!(err.to_string().contains("boom"));

    // Error without a message falls back to the subtype.
    let value = read(r#"{"is_error": true, "subtype": "error_max_turns"}"#);
    let err = parse_run_output(&value, "ai").unwrap_err();
    assert!(err.to_string().contains("error_max_turns"));

    // A success shape without a session id is still an error.
    let value = read(r#"{"is_error": false, "result": "ok"}"#);
    assert!(parse_run_output(&value, "ai").is_err());
}

#[test]
fn error_messages_are_exact() {
    let err = |text: &str| parse_run_output(&read(text), "ai").unwrap_err();
    assert_eq!(
        err(r#"{"is_error": true, "result": "  "}"#),
        "ai の実行がエラーになりました（subtype: unknown）",
    );
    assert_eq!(err("{}"), "ai の応答から session_id を取得できませんでした。");
    assert_eq!(err(r#"{"is_error": true, "result": " x "}"#), " x ");
}

#[test]
fn review_prompt_is_the_pr_url() {
    assert_eq!(
        review_prompt("https://github.com/acme/widgets/pull/42"),
        "https://github.com/acme/widgets/pull/42"
    );
}

#[test]
fn the_binary_is_resolved_among_common_places() {
    assert_eq!(
        claude_candidates(&home(), "ai"),
        ["/h/.local/bin/ai", "/h/.ai/local/ai", "/opt/homebrew/bin/ai", "/usr/local/bin/ai"],
    );
    assert_eq!(claude_candidates(&None, "ai").len(), 2);
    let there = vec!["/x/ai".to_string()];
    let nowhere = vec!["/nonexistent/ai".to_string()];
    assert_eq!(resolve_claude_in("/x/ai", &nowhere, &there), "/x/ai");
    assert_eq!(resolve_claude_in("ai", &there, &there), "/x/ai");
    assert_eq!(resolve_claude_in("ai", &nowhere, &there), "ai");
}

#[test]
fn the_path_is_augmented() {
    assert_eq!(
        augmented_path(&home(), "ai", "/p"),
        "/h/.local/bin:/h/.ai/local:/opt/homebrew/bin:/usr/local/bin:/usr/bin:/bin:/p",
    );
    assert_eq!(
        augmented_path(&None, "ai", ""),
        "/opt/homebrew/bin:/usr/local/bin:/usr/bin:/bin:",
    );
}

#[test]
fn responses_are_read_or_give_the_reason() {
    let reason = |output: Output| read_run(&output, &tool()).err().unwrap();
    assert_eq!(
        reason(Output::NotStarted("gone".to_string())),
        "AI CLI `ai` を実行できませんでした: gone",
    );
    assert_eq!(reason(ran("")), "`ai` がJSON応答を返しませんでした。");
    let told = Output::Ended { success: false, stdout: vec![], stderr: b" no key ".to_vec() };
    assert_eq!(reason(told), "no key");
    assert!(read_run(&ran("{}"), &tool()).is_ok());
}

#[test]
fn a_headless_review_runs_saves_and_ends() {
    let client = ClaudeClient::new("ai".to_string());
    let none = vec![];
    let step = |output: Option<Output>, finish: Option<Finish>| {
        client.run_review("URL", "acme/w#1", &home(), &tool(), &none, &output, &finish)
    };
    match step(None, None) {
        ReviewStep::Run { program, args, workspace, reviews } => {
            assert_eq!(program, "ai");
            assert_eq!(
                args,
                ["-p", "URL", "--output-format", "json", "--allowedTools", REVIEW_ALLOWED_TOOLS],
            );
            assert_eq!(workspace, WORKSPACE);
            assert_eq!(reviews, format!("{WORKSPACE}/reviews"));
        }
        _ => panic!(),
    }
    let good = || Some(ran(r#"{"session_id": "s", "result": "text"}"#));
    let path = format!("{WORKSPACE}/reviews/acme-w-1.md");
    match step(good(), None) {
        ReviewStep::Save { path: at, report } => {
            assert_eq!((at, report), (Some(path.clone()), "text".to_string()));
        }
        _ => panic!(),
    }
    match step(good(), Some(Finish { failure: None, at: "now".to_string() })) {
        ReviewStep::Done(record) => {
            assert_eq!(record.session_id, "s");
            assert_eq!(record.completed_at, "now");
            assert_eq!(record.report_path, Some(path));
        }
        _ => panic!(),
    }
    match step(good(), Some(Finish { failure: Some("full".to_string()), at: String::new() })) {
        ReviewStep::Failed(reason) => {
            assert_eq!(reason, "レビュー結果を保存できませんでした: full");
        }
        _ => panic!(),
    }
    let blank = || Some(ran(r#"{"session_id": "s", "result": " \n"}"#));
    match step(blank(), Some(Finish { failure: None, at: String::new() })) {
        ReviewStep::Done(record) => assert_eq!(record.report_path, None),
        _ => panic!(),
    }
    assert!(matches!(step(Some(ran("x")), None), ReviewStep::Failed(_)));
    assert!(matches!(step(Some(ran("{}")), None), ReviewStep::Failed(_)));
}

#[test]
fn nothing_runs_without_a_home_directory() {
    let client = ClaudeClient::new("ai".to_string());
    match client.run_review("u", "k", &None, &tool(), &vec![], &None, &None) {
        ReviewStep::Failed(reason) => assert_eq!(reason, NO_HOME),
        _ => panic!(),
    }
    match client.launch_review("u", "k", &None, &tool(), &vec![], &vec![]) {
        LaunchStep::Failed(reason) => assert_eq!(reason, NO_HOME),
        _ => panic!(),
    }
    let resumed = client.open_resume_terminal("s", &None, &tool(), &vec![]);
    assert_eq!(resumed.err().unwrap(), NO_HOME);
}

#[test]
fn a_review_is_launched_with_the_resolved_binary() {
    let client = ClaudeClient::new("ai".to_string());
    let existing = vec!["/usr/local/bin/ai".to_string()];
    let list = r#"{"result": {"workspaces": [{"label": "gh-review", "workspace_id": "w"}]}}"#;
    let runs = vec![Some(ran(list))];
    match client.launch_review("URL", "acme/w#1", &home(), &tool(), &existing, &runs) {
        LaunchStep::Run(args) => {
            assert_eq!(args[2], "w#1");
            assert_eq!(args[6], WORKSPACE);
            assert_eq!(args[9..], ["/usr/local/bin/ai", "URL"]);
        }
        _ => panic!(),
    }
}

#[test]
fn a_session_is_resumed_in_the_workspace() {
    let client = ClaudeClient::new("ai".to_string());
    let existing = vec!["/Applications/Ghostty.app".to_string()];
    let opening = client.open_resume_terminal("it's", &home(), &tool(), &existing).ok().unwrap();
    let want = format!("cd '{WORKSPACE}' && 'ai' --resume 'it'\\''s'");
    assert_eq!(opening.args.last().unwrap(), &want);
}

#[test]
fn focusing_asks_herdr_first() {
    let client = ClaudeClient::new("ai".to_string());
    let record = LaunchedRecord { pane_id: "term_1".to_string(), window_name: "w".to_string() };
    match client.focus_review_window(&record, false, &home(), &vec![], &vec![]) {
        FocusStep::Focus(args) => assert_eq!(args, ["agent", "focus", "term_1"]),
        _ => panic!(),
    }
    match client.focus_review_window(&record, true, &home(), &vec![], &vec![]) {
        FocusStep::Show(ShowStep::Run { program, .. }) => assert_eq!(program, "ps"),
        _ => panic!(),
    }
    let step = client.show_review_terminal(true, &home(), &vec![], &vec![ran("")]);
    assert!(matches!(step, ShowStep::Failed(_)));
}
