//! Terminal windows: which window hosts an attached herdr client, how it is
//! raised, and how a new one is opened. A list of outputs holds what the programs
//! asked for so far gave.
use vstd::prelude::*;

use crate::json::text_in;
use crate::lists::{goes_up, lemma_filter_map_places};
use crate::number::{decimal, decimal_int, parse_i64, parsed_i64};
use crate::process::{arguments, lossy, output_models, text_of, Output, OutputModel};
use crate::quote::{applescript_escape, script_escaped, sh_quote, sh_quoted};
use crate::resolve::{below, find_present, first_present, join_path};
use crate::split::{lines, split_lines, split_words, words};
use crate::text::{
    cat, cat3, has_part, has_prefix, has_suffix, is_space, join, joined, occurs, push_new, same,
    texts, trim, trimmed, with_text,
};

verus! {

/// A program to start without waiting for it, and what to report where it does
/// not start.
pub struct Opening {
    pub program: String,
    pub args: Vec<String>,
    pub failure: String,
}

/// What a program to start is.
#[verifier::ext_equal]
pub struct OpeningModel {
    pub program: Seq<char>,
    pub args: Seq<Seq<char>>,
    pub failure: Seq<char>,
}

impl View for Opening {
    type V = OpeningModel;

    open spec fn view(&self) -> OpeningModel {
        OpeningModel { program: self.program@, args: texts(self.args@), failure: self.failure@ }
    }
}

/// Opening a saved review report with the default application.
pub open spec fn report_opening(path: Seq<char>) -> OpeningModel {
    OpeningModel {
        program: "open"@,
        args: seq![path],
        failure: "レビュー結果を開けませんでした"@,
    }
}

/// Open the saved review report with the default application.
pub fn open_report(path: &str) -> (r: Opening)
    ensures
        r@ == report_opening(path@),
{
    let args = arguments(&[path]);
    assert(texts(args@) =~= seq![path@]);
    Opening {
        program: "open".to_owned(),
        args,
        failure: "レビュー結果を開けませんでした".to_owned(),
    }
}

/// Where the Ghostty app bundle may stand.
pub open spec fn ghostty_places(home: Option<Seq<char>>) -> Seq<Seq<char>> {
    match home {
        Some(home) => seq!["/Applications/Ghostty.app"@, below(home, "Applications/Ghostty.app"@)],
        None => seq!["/Applications/Ghostty.app"@],
    }
}

/// Where the Ghostty app bundle may stand.
pub fn ghostty_candidates(home: &Option<String>) -> (r: Vec<String>)
    ensures
        texts(r@) == ghostty_places(text_in(*home)),
{
    match home {
        Some(home) => {
            let own = join_path(home.as_str(), "Applications/Ghostty.app");
            let r = arguments(&["/Applications/Ghostty.app", own.as_str()]);
            assert(texts(r@) =~= ghostty_places(Some(home@)));
            r
        },
        None => {
            let r = arguments(&["/Applications/Ghostty.app"]);
            assert(texts(r@) =~= ghostty_places(None));
            r
        },
    }
}

/// Path of the Ghostty app bundle, when installed. `existing` lists the paths that
/// exist.
pub fn ghostty_app(home: &Option<String>, existing: &Vec<String>) -> (r: Option<String>)
    ensures
        text_in(r) == first_present(ghostty_places(text_in(*home)), texts(existing@)),
{
    find_present(&ghostty_candidates(home), existing)
}

/// A new Ghostty window that runs a shell command.
pub open spec fn ghostty_opening(app: Seq<char>, shell: Seq<char>) -> OpeningModel {
    OpeningModel {
        program: "open"@,
        args: seq![
            "-na"@,
            app,
            "--args"@,
            "--window-save-state=never"@,
            "-e"@,
            "/bin/zsh"@,
            "-lc"@,
            shell,
        ],
        failure: "Ghostty を開けませんでした"@,
    }
}

/// Open a new Ghostty window running a shell command. The spawned instance would
/// restore the saved window state, so state saving is disabled to keep the window
/// standalone.
pub fn open_in_ghostty(app: &str, shell: &str) -> (r: Opening)
    ensures
        r@ == ghostty_opening(app@, shell@),
{
    let args = arguments(
        &["-na", app, "--args", "--window-save-state=never", "-e", "/bin/zsh", "-lc", shell],
    );
    assert(texts(args@) =~= ghostty_opening(app@, shell@).args);
    Opening {
        program: "open".to_owned(),
        args,
        failure: "Ghostty を開けませんでした".to_owned(),
    }
}

/// The script that runs a shell command in a new Terminal.app window.
pub open spec fn terminal_script(shell: Seq<char>) -> Seq<char> {
    "tell application \"Terminal\"\nactivate\ndo script \""@ + script_escaped(shell)
        + "\"\nend tell"@
}

/// A new Terminal.app window that runs a shell command.
pub open spec fn terminal_opening(shell: Seq<char>) -> OpeningModel {
    OpeningModel {
        program: "osascript"@,
        args: seq!["-e"@, terminal_script(shell)],
        failure: "Terminal を開けませんでした"@,
    }
}

/// Open Terminal.app and run a shell command in a new window.
pub fn open_in_terminal(shell: &str) -> (r: Opening)
    ensures
        r@ == terminal_opening(shell@),
{
    let script = cat3(
        "tell application \"Terminal\"\nactivate\ndo script \"",
        applescript_escape(shell).as_str(),
        "\"\nend tell",
    );
    let args = arguments(&["-e", script.as_str()]);
    assert(texts(args@) =~= terminal_opening(shell@).args);
    Opening {
        program: "osascript".to_owned(),
        args,
        failure: "Terminal を開けませんでした".to_owned(),
    }
}

/// A new window of the user's terminal that runs a shell command.
pub open spec fn shell_opening(ghostty: Option<Seq<char>>, shell: Seq<char>) -> OpeningModel {
    match ghostty {
        Some(app) => ghostty_opening(app, shell),
        None => terminal_opening(shell),
    }
}

/// Open a shell command in a new window of the user's terminal: Ghostty when
/// installed, Terminal.app otherwise.
pub fn open_shell_in_terminal(ghostty: &Option<String>, shell: &str) -> (r: Opening)
    ensures
        r@ == shell_opening(text_in(*ghostty), shell@),
{
    match ghostty {
        Some(app) => open_in_ghostty(app.as_str(), shell),
        None => open_in_terminal(shell),
    }
}

/// Bringing an app to the front.
pub open spec fn activation(name: Seq<char>) -> OpeningModel {
    OpeningModel {
        program: "osascript"@,
        args: seq![
            "-e"@,
            "tell application \""@ + script_escaped(name) + "\" to activate"@,
        ],
        failure: name + " を前面に表示できませんでした"@,
    }
}

/// Bring an app (all of its windows) to the front.
pub fn activate_app(name: &str) -> (r: Opening)
    ensures
        r@ == activation(name@),
{
    let script = cat3(
        "tell application \"",
        applescript_escape(name).as_str(),
        "\" to activate",
    );
    let args = arguments(&["-e", script.as_str()]);
    assert(texts(args@) =~= activation(name@).args);
    Opening {
        program: "osascript".to_owned(),
        args,
        failure: cat(name, " を前面に表示できませんでした"),
    }
}

/// The pid in a line of the process list that shows an attached herdr client. The
/// server has no controlling tty and transient CLI invocations carry a subcommand,
/// so a client is a bare `herdr` (optionally with `--flags`) that has a tty.
pub open spec fn client_pid(line: Seq<char>) -> Option<Seq<char>> {
    let fields = words(line);
    if fields.len() >= 3 && fields[1] != "??"@ && (fields[2] == "herdr"@
        || "/herdr"@.is_suffix_of(fields[2])) && (fields.len() == 3 || "-"@.is_prefix_of(fields[3])) {
        Some(fields[0])
    } else {
        None
    }
}

/// The pids of attached herdr clients in a process list.
pub open spec fn client_pids(list: Seq<char>) -> Seq<Seq<char>> {
    lines(list).filter_map(|line: Seq<char>| client_pid(line))
}

fn pid_in(line: &str) -> (r: Option<String>)
    ensures
        text_in(r) == client_pid(line@),
{
    let fields = split_words(line);
    let ghost all = words(line@);
    if fields.len() < 3 {
        return None;
    }
    assert(all[0] == fields@[0]@ && all[1] == fields@[1]@ && all[2] == fields@[2]@);
    let has_tty: bool = !same(fields[1].as_str(), "??");
    let is_herdr: bool = same(fields[2].as_str(), "herdr") || has_suffix(
        fields[2].as_str(),
        "/herdr",
    );
    let bare: bool = if fields.len() == 3 {
        true
    } else {
        assert(all[3] == fields@[3]@);
        has_prefix(fields[3].as_str(), "-")
    };
    if has_tty && is_herdr && bare {
        Some(fields[0].clone())
    } else {
        None
    }
}

/// Pids of attached herdr clients in a process list of pid, tty and command.
pub fn herdr_client_pids(list: &str) -> (r: Vec<String>)
    ensures
        texts(r@) == client_pids(list@),
{
    let all = split_lines(list);
    let ghost every = lines(list@);
    let ghost read = |line: Seq<char>| client_pid(line);
    let mut out: Vec<String> = Vec::new();
    proof {
        reveal(Seq::filter_map);
        assert(every.take(0) =~= Seq::empty());
    }
    for i in 0..all.len()
        invariant
            every == texts(all@),
            read == (|line: Seq<char>| client_pid(line)),
            texts(out@) == every.take(i as int).filter_map(read),
    {
        let ghost earlier = texts(out@);
        proof {
            every.lemma_filter_map_take_succ(read, i as int);
            assert(every[i as int] == all@[i as int]@);
        }
        if let Some(pid) = pid_in(all[i].as_str()) {
            let ghost it = pid@;
            out.push(pid);
            assert(texts(out@) =~= earlier.push(it));
        }
        assert(texts(out@) =~= every.take(i + 1).filter_map(read));
    }
    assert(every.take(every.len() as int) =~= every);
    out
}

/// What the process list says of one process: its parent, its tty and its command.
#[verifier::ext_equal]
pub struct ProcessModel {
    pub parent: int,
    pub tty: Seq<char>,
    pub command: Seq<char>,
}

/// What the process list says of one process; none where the text has no parent
/// and tty.
pub open spec fn process_in(text: Seq<char>) -> Option<ProcessModel> {
    let fields = words(text);
    if fields.len() < 2 {
        None
    } else {
        Some(
            ProcessModel {
                parent: pid_number(fields[0]),
                tty: fields[1],
                command: joined(fields.skip(2), " "@),
            },
        )
    }
}

/// The number of a pid; zero where the text is no number.
pub open spec fn pid_number(text: Seq<char>) -> int {
    match parsed_i64(text) {
        Some(n) => n,
        None => 0,
    }
}

/// What the process list says of one process.
pub struct ProcessLine {
    pub parent: i64,
    pub tty: String,
    pub command: String,
}

impl View for ProcessLine {
    type V = ProcessModel;

    open spec fn view(&self) -> ProcessModel {
        ProcessModel { parent: self.parent as int, tty: self.tty@, command: self.command@ }
    }
}

/// What a line of the process list says of a process.
pub fn parse_process(text: &str) -> (r: Option<ProcessLine>)
    ensures
        match r {
            Some(p) => process_in(text@) == Some(p@),
            None => process_in(text@) is None,
        },
{
    let fields = split_words(text);
    let ghost all = words(text@);
    if fields.len() < 2 {
        return None;
    }
    assert(all[0] == fields@[0]@ && all[1] == fields@[1]@);
    let mut rest: Vec<String> = Vec::new();
    assert(texts(rest@) =~= all.skip(2).take(0));
    for i in 2..fields.len()
        invariant
            all == texts(fields@),
            fields@.len() >= 2,
            texts(rest@) == all.skip(2).take(i - 2),
    {
        let ghost earlier = texts(rest@);
        rest.push(fields[i].clone());
        assert(texts(rest@) =~= earlier.push(fields@[i as int]@));
        assert(all.skip(2)[i - 2] == fields@[i as int]@);
        assert(all.skip(2).take(i - 1) =~= earlier.push(fields@[i as int]@));
    }
    assert(all.skip(2).take(all.len() - 2) =~= all.skip(2));
    let parent: i64 = match parse_i64(fields[0].as_str()) {
        Some(n) => n,
        None => 0,
    };
    Some(ProcessLine { parent, tty: fields[1].clone(), command: join(&rest, " ") })
}

/// The process that a run of `ps` describes; none where the run failed.
pub open spec fn process_of(output: OutputModel) -> Option<ProcessModel> {
    match output {
        OutputModel::Ended { success, stdout, stderr } => if success {
            process_in(lossy(stdout))
        } else {
            None
        },
        OutputModel::NotStarted(_) => None,
    }
}

fn read_process(output: &Output) -> (r: Option<ProcessLine>)
    ensures
        match r {
            Some(p) => process_of(output@) == Some(p@),
            None => process_of(output@) is None,
        },
{
    match output {
        Output::Ended { success, stdout, stderr: _ } => if *success {
            parse_process(text_of(stdout.as_slice()).as_str())
        } else {
            None
        },
        Output::NotStarted(_) => None,
    }
}

/// What hosts a client, learned by walking up its process ancestry: a run of `ps`
/// to do, or the ttys of the process and its ancestors (as `/dev/ttysNNN`),
/// whether an ancestor lives in Ghostty.app, and how many runs were used.
pub enum TreeStep {
    Run(Vec<String>),
    Known { ttys: Vec<String>, ghostty: bool, used: usize },
}

/// What hosts a client.
#[verifier::ext_equal]
pub enum TreeModel {
    Run(Seq<Seq<char>>),
    Known { ttys: Seq<Seq<char>>, ghostty: bool, used: int },
}

impl View for TreeStep {
    type V = TreeModel;

    open spec fn view(&self) -> TreeModel {
        match self {
            TreeStep::Run(args) => TreeModel::Run(texts(args@)),
            TreeStep::Known { ttys, ghostty, used } => TreeModel::Known {
                ttys: texts(ttys@),
                ghostty: *ghostty,
                used: *used as int,
            },
        }
    }
}

/// The arguments of `ps` that describe one process.
pub open spec fn ps_args(pid: int) -> Seq<Seq<char>> {
    seq!["-o"@, "ppid=,tty=,comm="@, "-p"@, decimal_int(pid)]
}

/// Walking up from a process, `left` processes at most, given what was learned so
/// far and the output from which to go on. It ends at the first process, at one
/// that cannot be described, or when `left` is used up.
pub open spec fn climb(
    pid: int,
    left: nat,
    ttys: Seq<Seq<char>>,
    ghostty: bool,
    outputs: Seq<OutputModel>,
    from: int,
) -> TreeModel
    decreases left,
{
    if left == 0 || pid <= 1 {
        TreeModel::Known { ttys, ghostty, used: from }
    } else if from >= outputs.len() {
        TreeModel::Run(ps_args(pid))
    } else {
        match process_of(outputs[from]) {
            None => TreeModel::Known { ttys, ghostty, used: from + 1 },
            Some(p) => climb(
                p.parent,
                (left - 1) as nat,
                if p.tty == "??"@ {
                    ttys
                } else {
                    with_text(ttys, "/dev/"@ + p.tty)
                },
                ghostty || occurs("Ghostty.app"@, p.command),
                outputs,
                from + 1,
            ),
        }
    }
}

/// What hosts the process of a pid, from a given output on.
pub open spec fn tree_of(pid: Seq<char>, outputs: Seq<OutputModel>, from: int) -> TreeModel {
    climb(pid_number(trimmed(pid)), 16, Seq::empty(), false, outputs, from)
}

/// Walk a process's parent chain up to launchd, collecting ttys and the hosting
/// terminal app.
pub fn process_tree_info(pid: &str, outputs: &Vec<Output>, from: usize) -> (r: TreeStep)
    requires
        from <= outputs@.len(),
    ensures
        r@ == tree_of(pid@, output_models(outputs@), from as int),
        r@ matches TreeModel::Known { used, .. } ==> from <= used <= outputs@.len(),
{
    let ghost all = output_models(outputs@);
    let ghost want = tree_of(pid@, all, from as int);
    let mut at: i64 = match parse_i64(trim(pid).as_str()) {
        Some(n) => n,
        None => 0,
    };
    let mut ttys: Vec<String> = Vec::new();
    let mut ghostty: bool = false;
    let mut used: usize = from;
    assert(texts(ttys@) =~= Seq::empty());
    let mut left: usize = 16;
    while left > 0
        invariant
            all == output_models(outputs@),
            want == tree_of(pid@, all, from as int),
            from <= used <= outputs@.len(),
            want == climb(at as int, left as nat, texts(ttys@), ghostty, all, used as int),
        decreases left,
    {
        if at <= 1 {
            return TreeStep::Known { ttys, ghostty, used };
        }
        if used >= outputs.len() {
            let number = decimal(at);
            let args = arguments(&["-o", "ppid=,tty=,comm=", "-p", number.as_str()]);
            assert(texts(args@) =~= ps_args(at as int));
            return TreeStep::Run(args);
        }
        assert(all[used as int] == outputs@[used as int]@);
        match read_process(&outputs[used]) {
            None => {
                return TreeStep::Known { ttys, ghostty, used: used + 1 };
            },
            Some(p) => {
                if has_part(p.command.as_str(), "Ghostty.app") {
                    ghostty = true;
                }
                if !same(p.tty.as_str(), "??") {
                    push_new(&mut ttys, cat("/dev/", p.tty.as_str()));
                }
                at = p.parent;
            },
        }
        used += 1;
        left -= 1;
    }
    TreeStep::Known { ttys, ghostty, used }
}

/// A list followed by those texts of another that it does not hold yet.
pub open spec fn with_texts(list: Seq<Seq<char>>, more: Seq<Seq<char>>) -> Seq<Seq<char>>
    decreases more.len(),
{
    if more.len() == 0 {
        list
    } else {
        with_text(with_texts(list, more.drop_last()), more.last())
    }
}

fn push_all_new(list: &mut Vec<String>, more: &Vec<String>)
    ensures
        texts(final(list)@) == with_texts(texts(old(list)@), texts(more@)),
{
    let ghost start = texts(list@);
    let ghost all = texts(more@);
    for i in 0..more.len()
        invariant
            all == texts(more@),
            texts(list@) == with_texts(start, all.take(i as int)),
    {
        proof {
            assert(all.take(i + 1).drop_last() =~= all.take(i as int));
            assert(all.take(i + 1).last() == more@[i as int]@);
        }
        push_new(list, more[i].clone());
    }
    assert(all.take(all.len() as int) =~= all);
}

/// What hosts any of the given clients, given what was learned so far and the
/// output from which to go on.
pub open spec fn hosts_of(
    pids: Seq<Seq<char>>,
    ttys: Seq<Seq<char>>,
    ghostty: bool,
    outputs: Seq<OutputModel>,
    from: int,
) -> TreeModel
    decreases pids.len(),
{
    if pids.len() == 0 {
        TreeModel::Known { ttys, ghostty, used: from }
    } else {
        match tree_of(pids[0], outputs, from) {
            TreeModel::Run(args) => TreeModel::Run(args),
            TreeModel::Known { ttys: more, ghostty: here, used } => hosts_of(
                pids.skip(1),
                with_texts(ttys, more),
                ghostty || here,
                outputs,
                used,
            ),
        }
    }
}

fn find_hosts(pids: &Vec<String>, outputs: &Vec<Output>, from: usize) -> (r: TreeStep)
    requires
        from <= outputs@.len(),
    ensures
        r@ == hosts_of(texts(pids@), Seq::empty(), false, output_models(outputs@), from as int),
        r@ matches TreeModel::Known { used, .. } ==> from <= used <= outputs@.len(),
{
    let ghost all = output_models(outputs@);
    let ghost list = texts(pids@);
    let ghost want = hosts_of(list, Seq::empty(), false, all, from as int);
    let mut ttys: Vec<String> = Vec::new();
    let mut ghostty: bool = false;
    let mut used: usize = from;
    assert(texts(ttys@) =~= Seq::empty());
    assert(list.skip(0) =~= list);
    for i in 0..pids.len()
        invariant
            all == output_models(outputs@),
            list == texts(pids@),
            want == hosts_of(list, Seq::empty(), false, all, from as int),
            from <= used <= outputs@.len(),
            want == hosts_of(list.skip(i as int), texts(ttys@), ghostty, all, used as int),
    {
        assert(list.skip(i as int)[0] == pids@[i as int]@);
        assert(list.skip(i as int).skip(1) =~= list.skip(i + 1));
        match process_tree_info(pids[i].as_str(), outputs, used) {
            TreeStep::Run(args) => {
                return TreeStep::Run(args);
            },
            TreeStep::Known { ttys: more, ghostty: here, used: next } => {
                push_all_new(&mut ttys, &more);
                ghostty = ghostty || here;
                used = next;
            },
        }
    }
    TreeStep::Known { ttys, ghostty, used }
}

/// The start of the script that raises a Terminal.app window.
pub const RAISE_SCRIPT_START: &'static str = "tell application \"Terminal\"\n    set targetTtys to {";

/// The rest of the script that raises a Terminal.app window.
pub const RAISE_SCRIPT_END: &'static str = "}
    repeat with w in windows
        repeat with t in tabs of w
            if (tty of t) is in targetTtys then
                set index of w to 1
                set selected tab of w to t
                activate
                return \"found\"
            end if
        end repeat
    end repeat
end tell
return \"\"";

/// A text as an AppleScript literal.
pub open spec fn script_quoted(t: Seq<char>) -> Seq<char> {
    "\""@ + script_escaped(t) + "\""@
}

/// The script that raises the Terminal.app window with a tab on one of the ttys.
pub open spec fn raise_script(ttys: Seq<Seq<char>>) -> Seq<char> {
    RAISE_SCRIPT_START@ + joined(ttys.map_values(|t: Seq<char>| script_quoted(t)), ", "@)
        + RAISE_SCRIPT_END@
}

fn raise_script_for(ttys: &Vec<String>) -> (r: String)
    ensures
        r@ == raise_script(texts(ttys@)),
{
    let ghost want = texts(ttys@).map_values(|t: Seq<char>| script_quoted(t));
    let mut list: Vec<String> = Vec::new();
    for i in 0..ttys.len()
        invariant
            want == texts(ttys@).map_values(|t: Seq<char>| script_quoted(t)),
            texts(list@) == want.take(i as int),
    {
        let ghost earlier = texts(list@);
        let item = cat3("\"", applescript_escape(ttys[i].as_str()).as_str(), "\"");
        let ghost it = item@;
        list.push(item);
        assert(want[i as int] == it);
        assert(texts(list@) =~= earlier.push(it));
        assert(want.take(i + 1) =~= earlier.push(it));
    }
    assert(want.take(want.len() as int) =~= want);
    cat3(RAISE_SCRIPT_START, join(&list, ", ").as_str(), RAISE_SCRIPT_END)
}

/// Whether the answer of the script says that a tab was found.
pub fn says_found(answer: &str) -> (r: bool)
    ensures
        r == (trimmed(answer@) == "found"@),
{
    same(trim(answer).as_str(), "found")
}

/// What raising a Terminal.app window came to: whether a tab was found, or why the
/// search failed.
pub open spec fn raise_result(output: OutputModel) -> Result<bool, Seq<char>> {
    match output {
        OutputModel::NotStarted(reason) => Err(
            "Terminal のウィンドウ検索に失敗しました: "@ + reason,
        ),
        OutputModel::Ended { success, stdout, stderr } => if success {
            Ok(trimmed(lossy(stdout)) == "found"@)
        } else {
            Err("Terminal のウィンドウ検索に失敗しました: "@ + trimmed(lossy(stderr)))
        },
    }
}

/// Whether the run that was to raise a Terminal.app window found it. Not so when
/// no Terminal tab matches, e.g. when the client is attached from another terminal
/// app.
pub fn raise_terminal_window(output: &Output) -> (r: Result<bool, String>)
    ensures
        match r {
            Ok(found) => raise_result(output@) == Ok::<bool, Seq<char>>(found),
            Err(reason) => raise_result(output@) == Err::<bool, Seq<char>>(reason@),
        },
{
    match output {
        Output::NotStarted(reason) => Err(
            cat("Terminal のウィンドウ検索に失敗しました: ", reason.as_str()),
        ),
        Output::Ended { success, stdout, stderr } => if *success {
            Ok(says_found(text_of(stdout.as_slice()).as_str()))
        } else {
            Err(
                cat(
                    "Terminal のウィンドウ検索に失敗しました: ",
                    trim(text_of(stderr.as_slice()).as_str()).as_str(),
                ),
            )
        },
    }
}

/// What showing the herdr client comes to: a program to run, a program to start as
/// the last thing, nothing more to do, or a failure.
pub enum ShowStep {
    Run { program: String, args: Vec<String> },
    Open(Opening),
    Done,
    Failed(String),
}

/// What showing the herdr client comes to.
#[verifier::ext_equal]
pub enum ShowModel {
    Run { program: Seq<char>, args: Seq<Seq<char>> },
    Open(OpeningModel),
    Done,
    Failed(Seq<char>),
}

impl View for ShowStep {
    type V = ShowModel;

    open spec fn view(&self) -> ShowModel {
        match self {
            ShowStep::Run { program, args } => ShowModel::Run {
                program: program@,
                args: texts(args@),
            },
            ShowStep::Open(opening) => ShowModel::Open(opening@),
            ShowStep::Done => ShowModel::Done,
            ShowStep::Failed(reason) => ShowModel::Failed(reason@),
        }
    }
}

/// What raising the hosting window comes to: a step of showing the client, or
/// `None` where a new terminal has to be opened instead.
pub open spec fn raise_run(
    pids: Seq<Seq<char>>,
    keep_existing: bool,
    outputs: Seq<OutputModel>,
    from: int,
) -> Option<ShowModel> {
    let left_alone = if keep_existing {
        Some(ShowModel::Done)
    } else {
        None
    };
    if pids.len() == 0 {
        None
    } else {
        match hosts_of(pids, Seq::empty(), false, outputs, from) {
            TreeModel::Run(args) => Some(ShowModel::Run { program: "ps"@, args }),
            TreeModel::Known { ttys, ghostty, used } => if ghostty {
                Some(ShowModel::Open(activation("Ghostty"@)))
            } else if ttys.len() == 0 {
                left_alone
            } else if used >= outputs.len() {
                Some(
                    ShowModel::Run { program: "osascript"@, args: seq!["-e"@, raise_script(ttys)] },
                )
            } else {
                match raise_result(outputs[used]) {
                    Ok(found) => if found {
                        Some(ShowModel::Done)
                    } else {
                        left_alone
                    },
                    Err(reason) => Some(ShowModel::Failed(reason)),
                }
            },
        }
    }
}

/// What a raising came to, as plain data.
pub open spec fn show_model(r: Option<ShowStep>) -> Option<ShowModel> {
    match r {
        Some(step) => Some(step@),
        None => None,
    }
}

/// Raise the terminal window hosting one of the given client processes. A client
/// that cannot be raised is left alone with `keep_existing`; otherwise, and where
/// there is no client, the caller should open a new terminal (`None`).
///
/// Terminal.app tabs are matched by tty. A client's own tty can differ from the
/// tab's (shell wrappers allocate their own pty), so the ttys of the client process
/// and all its ancestors are collected, noting which terminal app hosts the client
/// along the way. Ghostty has no AppleScript dictionary, so its window cannot be
/// selected; raising the app is best effort.
pub fn raise_hosting_terminal(
    client_pids: &Vec<String>,
    keep_existing: bool,
    outputs: &Vec<Output>,
    from: usize,
) -> (r: Option<ShowStep>)
    requires
        from <= outputs@.len(),
    ensures
        show_model(r) == raise_run(
            texts(client_pids@),
            keep_existing,
            output_models(outputs@),
            from as int,
        ),
{
    if client_pids.len() == 0 {
        return None;
    }
    match find_hosts(client_pids, outputs, from) {
        TreeStep::Run(args) => Some(ShowStep::Run { program: "ps".to_owned(), args }),
        TreeStep::Known { ttys, ghostty, used } => {
            if ghostty {
                return Some(ShowStep::Open(activate_app("Ghostty")));
            }
            if ttys.len() > 0 {
                if used >= outputs.len() {
                    let script = raise_script_for(&ttys);
                    let args = arguments(&["-e", script.as_str()]);
                    assert(texts(args@) =~= seq!["-e"@, raise_script(texts(ttys@))]);
                    return Some(ShowStep::Run { program: "osascript".to_owned(), args });
                }
                assert(output_models(outputs@)[used as int] == outputs@[used as int]@);
                match raise_terminal_window(&outputs[used]) {
                    Ok(found) => {
                        if found {
                            return Some(ShowStep::Done);
                        }
                    },
                    Err(reason) => {
                        return Some(ShowStep::Failed(reason));
                    },
                }
            }
            if keep_existing {
                Some(ShowStep::Done)
            } else {
                None
            }
        },
    }
}

/// The arguments of `ps` that list all processes.
pub open spec fn list_processes_args() -> Seq<Seq<char>> {
    seq!["-axo"@, "pid=,tty=,args="@]
}

/// The pids of attached herdr clients that a run of `ps` shows; none where it did
/// not start.
pub open spec fn pids_of(output: OutputModel) -> Seq<Seq<char>> {
    match output {
        OutputModel::Ended { success, stdout, stderr } => client_pids(lossy(stdout)),
        OutputModel::NotStarted(_) => Seq::empty(),
    }
}

/// Showing the herdr client in a terminal: the window that hosts an attached client
/// is raised, else a terminal that runs herdr is opened.
pub open spec fn show_run(
    keep_existing: bool,
    herdr: Option<Seq<char>>,
    ghostty: Option<Seq<char>>,
    outputs: Seq<OutputModel>,
) -> ShowModel {
    if outputs.len() == 0 {
        ShowModel::Run { program: "ps"@, args: list_processes_args() }
    } else {
        match raise_run(pids_of(outputs[0]), keep_existing, outputs, 1) {
            Some(step) => step,
            None => match herdr {
                Some(herdr) => ShowModel::Open(shell_opening(ghostty, sh_quoted(herdr))),
                None => ShowModel::Failed("herdr が見つかりませんでした。"@),
            },
        }
    }
}

/// Show the herdr client in a terminal, given where herdr and the Ghostty app
/// stand.
pub fn show_terminal(
    keep_existing: bool,
    herdr: &Option<String>,
    ghostty: &Option<String>,
    outputs: &Vec<Output>,
) -> (r: ShowStep)
    ensures
        r@ == show_run(keep_existing, text_in(*herdr), text_in(*ghostty), output_models(outputs@)),
{
    if outputs.len() == 0 {
        let args = arguments(&["-axo", "pid=,tty=,args="]);
        assert(texts(args@) =~= list_processes_args());
        return ShowStep::Run { program: "ps".to_owned(), args };
    }
    assert(output_models(outputs@)[0] == outputs@[0]@);
    let pids = match &outputs[0] {
        Output::Ended { success: _, stdout, stderr: _ } => herdr_client_pids(
            text_of(stdout.as_slice()).as_str(),
        ),
        Output::NotStarted(_) => Vec::new(),
    };
    assert(texts(pids@) =~= pids_of(outputs@[0]@));
    match raise_hosting_terminal(&pids, keep_existing, outputs, 1) {
        Some(step) => step,
        None => match herdr {
            Some(herdr) => ShowStep::Open(
                open_shell_in_terminal(ghostty, sh_quote(herdr.as_str()).as_str()),
            ),
            None => ShowStep::Failed("herdr が見つかりませんでした。".to_owned()),
        },
    }
}

proof fn lemma_climb_ends(
    pid: int,
    left: nat,
    ttys: Seq<Seq<char>>,
    ghostty: bool,
    outputs: Seq<OutputModel>,
    from: int,
)
    requires
        0 <= from,
    ensures
        climb(pid, left, ttys, ghostty, outputs, from) matches TreeModel::Known { used, .. }
            ==> from <= used <= from + left,
        outputs.len() >= from + left ==> climb(pid, left, ttys, ghostty, outputs, from) is Known,
    decreases left,
{
    if left > 0 && pid > 1 && from < outputs.len() {
        match process_of(outputs[from]) {
            None => {},
            Some(p) => {
                let more = if p.tty == "??"@ {
                    ttys
                } else {
                    with_text(ttys, "/dev/"@ + p.tty)
                };
                lemma_climb_ends(
                    p.parent,
                    (left - 1) as nat,
                    more,
                    ghostty || occurs("Ghostty.app"@, p.command),
                    outputs,
                    from + 1,
                );
            },
        }
    }
}

/// The walk up from a process takes sixteen runs at most.
pub proof fn law_walk_ends(pid: Seq<char>, outputs: Seq<OutputModel>, from: int)
    requires
        0 <= from,
    ensures
        tree_of(pid, outputs, from) matches TreeModel::Known { used, .. } ==> from <= used <= from
            + 16,
        outputs.len() >= from + 16 ==> tree_of(pid, outputs, from) is Known,
{
    lemma_climb_ends(pid_number(trimmed(pid)), 16, Seq::empty(), false, outputs, from);
}

/// Nothing is learned of, and nothing run for, a text that is no pid of a process
/// below the first.
pub proof fn law_bogus_pid(pid: Seq<char>, outputs: Seq<OutputModel>, from: int)
    requires
        pid_number(trimmed(pid)) <= 1,
    ensures
        tree_of(pid, outputs, from) == (TreeModel::Known {
            ttys: Seq::empty(),
            ghostty: false,
            used: from,
        }),
{
}

/// Where a client is attached and is to be kept, no new terminal is opened: its
/// window is raised or it is left alone.
pub proof fn law_existing_client_kept(
    herdr: Option<Seq<char>>,
    ghostty: Option<Seq<char>>,
    outputs: Seq<OutputModel>,
)
    requires
        outputs.len() > 0,
        pids_of(outputs[0]).len() > 0,
    ensures
        show_run(true, herdr, ghostty, outputs) matches ShowModel::Open(opening) ==> opening
            == activation("Ghostty"@),
{
}

/// Where no client is attached, a terminal that runs herdr is opened.
pub proof fn law_no_client_opens(
    keep_existing: bool,
    herdr: Seq<char>,
    ghostty: Option<Seq<char>>,
    outputs: Seq<OutputModel>,
)
    requires
        outputs.len() > 0,
        pids_of(outputs[0]).len() == 0,
    ensures
        show_run(keep_existing, Some(herdr), ghostty, outputs) == ShowModel::Open(
            shell_opening(ghostty, sh_quoted(herdr)),
        ),
{
}

proof fn lemma_hosts_end(
    pids: Seq<Seq<char>>,
    ttys: Seq<Seq<char>>,
    ghostty: bool,
    outputs: Seq<OutputModel>,
    from: int,
)
    requires
        0 <= from,
    ensures
        hosts_of(pids, ttys, ghostty, outputs, from) matches TreeModel::Known { used, .. } ==> from
            <= used <= from + 16 * pids.len(),
        outputs.len() >= from + 16 * pids.len() ==> hosts_of(
            pids,
            ttys,
            ghostty,
            outputs,
            from,
        ) is Known,
    decreases pids.len(),
{
    if pids.len() > 0 {
        law_walk_ends(pids[0], outputs, from);
        match tree_of(pids[0], outputs, from) {
            TreeModel::Run(_) => {},
            TreeModel::Known { ttys: more, ghostty: here, used } => {
                lemma_hosts_end(
                    pids.skip(1),
                    with_texts(ttys, more),
                    ghostty || here,
                    outputs,
                    used,
                );
            },
        }
    }
}

/// Showing the client takes sixteen runs for each attached client at most, and one
/// before and one after them.
pub proof fn law_show_ends(
    keep_existing: bool,
    herdr: Option<Seq<char>>,
    ghostty: Option<Seq<char>>,
    outputs: Seq<OutputModel>,
)
    requires
        outputs.len() > 0,
        outputs.len() >= 2 + 16 * pids_of(outputs[0]).len(),
    ensures
        !(show_run(keep_existing, herdr, ghostty, outputs) is Run),
{
    lemma_hosts_end(pids_of(outputs[0]), Seq::empty(), false, outputs, 1);
}

proof fn lemma_climb_settled(
    pid: int,
    left: nat,
    ttys: Seq<Seq<char>>,
    ghostty: bool,
    outputs: Seq<OutputModel>,
    more: Seq<OutputModel>,
    from: int,
)
    requires
        0 <= from,
        climb(pid, left, ttys, ghostty, outputs, from) is Known,
    ensures
        climb(pid, left, ttys, ghostty, outputs + more, from) == climb(
            pid,
            left,
            ttys,
            ghostty,
            outputs,
            from,
        ),
        climb(pid, left, ttys, ghostty, outputs, from)->used >= from,
    decreases left,
{
    if left > 0 && pid > 1 {
        assert((outputs + more)[from] == outputs[from]);
        match process_of(outputs[from]) {
            None => {},
            Some(p) => {
                let next = if p.tty == "??"@ {
                    ttys
                } else {
                    with_text(ttys, "/dev/"@ + p.tty)
                };
                lemma_climb_settled(
                    p.parent,
                    (left - 1) as nat,
                    next,
                    ghostty || occurs("Ghostty.app"@, p.command),
                    outputs,
                    more,
                    from + 1,
                );
            },
        }
    }
}

proof fn lemma_hosts_settled(
    pids: Seq<Seq<char>>,
    ttys: Seq<Seq<char>>,
    ghostty: bool,
    outputs: Seq<OutputModel>,
    more: Seq<OutputModel>,
    from: int,
)
    requires
        0 <= from,
        hosts_of(pids, ttys, ghostty, outputs, from) is Known,
    ensures
        hosts_of(pids, ttys, ghostty, outputs + more, from) == hosts_of(
            pids,
            ttys,
            ghostty,
            outputs,
            from,
        ),
        hosts_of(pids, ttys, ghostty, outputs, from)->used >= from,
    decreases pids.len(),
{
    if pids.len() > 0 {
        lemma_climb_settled(
            pid_number(trimmed(pids[0])),
            16,
            Seq::empty(),
            false,
            outputs,
            more,
            from,
        );
        let tree = tree_of(pids[0], outputs, from);
        lemma_hosts_settled(
            pids.skip(1),
            with_texts(ttys, tree->Known_ttys),
            ghostty || tree->Known_ghostty,
            outputs,
            more,
            tree->used,
        );
    }
}

/// Once showing the client has come to its end, further outputs change nothing.
pub proof fn law_show_settled(
    keep_existing: bool,
    herdr: Option<Seq<char>>,
    ghostty: Option<Seq<char>>,
    outputs: Seq<OutputModel>,
    more: Seq<OutputModel>,
)
    requires
        !(show_run(keep_existing, herdr, ghostty, outputs) is Run),
    ensures
        show_run(keep_existing, herdr, ghostty, outputs + more) == show_run(
            keep_existing,
            herdr,
            ghostty,
            outputs,
        ),
{
    let all = outputs + more;
    assert(all[0] == outputs[0]);
    let pids = pids_of(outputs[0]);
    if pids.len() > 0 {
        let hosts = hosts_of(pids, Seq::empty(), false, outputs, 1);
        lemma_hosts_settled(pids, Seq::empty(), false, outputs, more, 1);
        if hosts->used < outputs.len() {
            assert(all[hosts->used] == outputs[hosts->used]);
        }
    }
}

/// A line of the process list is that of an attached herdr client where the process
/// has a terminal and is herdr, by its name or its path, with nothing but options
/// after it; then it gives the process id.
pub proof fn law_client_line(
    pid: Seq<char>,
    tty: Seq<char>,
    command: Seq<char>,
    rest: Seq<char>,
)
    requires
        is_word(pid),
        is_word(tty),
        is_word(command),
    ensures
        ({
            let line = pid.push(' ') + (tty.push(' ') + (command.push(' ') + rest));
            let more = words(rest);
            client_pid(line) == if tty != "??"@ && (command == "herdr"@ || "/herdr"@.is_suffix_of(
                command,
            )) && (more.len() == 0 || more[0][0] == '-') {
                Some(pid)
            } else {
                None
            }
        }),
{
    let line = pid.push(' ') + (tty.push(' ') + (command.push(' ') + rest));
    let more = words(rest);
    lemma_word_before(command, rest);
    lemma_word_before(tty, command.push(' ') + rest);
    lemma_word_before(pid, tty.push(' ') + (command.push(' ') + rest));
    let fields = words(line);
    assert(fields =~= seq![pid, tty, command] + more);
    reveal_strlit("-");
    if more.len() > 0 {
        crate::split::law_words(rest, ' ', rest);
        assert(more[0].len() > 0);
        assert(fields[3] == more[0]);
        let start = more[0].subrange(0, 1);
        if more[0][0] == '-' {
            assert(start =~= "-"@);
        }
        if "-"@.is_prefix_of(more[0]) {
            assert(start[0] == "-"@[0]);
        }
    }
}

/// Whether a text is one word: not empty and without white space.
pub open spec fn is_word(s: Seq<char>) -> bool {
    s.len() > 0 && forall|i: int| 0 <= i < s.len() ==> !is_space(#[trigger] s[i])
}

proof fn lemma_word_before(word: Seq<char>, rest: Seq<char>)
    requires
        is_word(word),
    ensures
        words(word.push(' ') + rest) == seq![word] + words(rest),
{
    crate::split::law_words(word, ' ', rest);
    assert(word + seq![' '] + rest =~= word.push(' ') + rest);
}

/// The clients are found line by line, in order.
pub proof fn law_clients_listed(list: Seq<char>)
    ensures
        exists|places: Seq<int>|
            {
                &&& #[trigger] goes_up(places)
                &&& forall|k: int| #[trigger]
                    places.contains(k) <==> 0 <= k < lines(list).len() && client_pid(
                        lines(list)[k],
                    ) is Some
                &&& client_pids(list).len() == places.len()
                &&& forall|i: int|
                    0 <= i < places.len() ==> client_pid(lines(list)[places[i]]) == Some(
                        #[trigger] client_pids(list)[i],
                    )
            },
{
    let f = |line: Seq<char>| client_pid(line);
    let all = lines(list);
    let places = lemma_filter_map_places(all, f);
    assert(client_pids(list) == all.filter_map(f));
    assert forall|k: int| #[trigger] places.contains(k) <==> 0 <= k < all.len() && client_pid(
        all[k],
    ) is Some by {
        assert(f(all[k]) == client_pid(all[k]));
    }
    assert forall|i: int| 0 <= i < places.len() implies client_pid(all[places[i]]) == Some(
        #[trigger] client_pids(list)[i],
    ) by {
        assert(f(all[places[i]]) == Some(all.filter_map(f)[i]));
    }
    assert(goes_up(places));
}

/// What is told of a process: its parent, its terminal, and its command.
pub proof fn law_process_line(parent: Seq<char>, tty: Seq<char>, command: Seq<char>)
    requires
        is_word(parent),
        is_word(tty),
        is_word(command),
    ensures
        process_in(parent.push(' ') + (tty.push(' ') + command)) == Some(
            ProcessModel { parent: pid_number(parent), tty, command },
        ),
        process_in(parent) is None,
{
    lemma_word_before(tty, command);
    lemma_word_before(parent, tty.push(' ') + command);
    crate::split::law_words(command, ' ', command);
    crate::split::law_words(parent, ' ', parent);
    let fields = words(parent.push(' ') + (tty.push(' ') + command));
    assert(fields =~= seq![parent, tty, command]);
    assert(fields.skip(2) =~= seq![command]);
    crate::text::law_joined(seq![command], seq![command], command, " "@);
}

/// Whether one of the outputs `from..to` tells of a process for which `wanted` holds.
pub open spec fn some_process(
    outputs: Seq<OutputModel>,
    from: int,
    to: int,
    wanted: spec_fn(ProcessModel) -> bool,
) -> bool {
    exists|i: int|
        from <= i < to && (process_of(#[trigger] outputs[i]) matches Some(p) && wanted(p))
}

/// What is found on the way up from a process: the terminal of each process that has
/// one, each once, and whether one of them is Ghostty; nothing else is found.
pub proof fn law_way_up(
    pid: int,
    left: nat,
    ttys: Seq<Seq<char>>,
    ghostty: bool,
    outputs: Seq<OutputModel>,
    from: int,
    tty: Seq<char>,
)
    requires
        0 <= from <= outputs.len(),
    ensures
        climb(pid, left, ttys, ghostty, outputs, from) matches TreeModel::Known {
            ttys: found,
            ghostty: hosted,
            used,
        } ==> {
            &&& from <= used <= outputs.len()
            &&& found.contains(tty) <==> ttys.contains(tty) || some_process(
                outputs,
                from,
                used,
                |p: ProcessModel| p.tty != "??"@ && tty == "/dev/"@ + p.tty,
            )
            &&& hosted <==> ghostty || some_process(
                outputs,
                from,
                used,
                |p: ProcessModel| occurs("Ghostty.app"@, p.command),
            )
            &&& ttys.no_duplicates() ==> found.no_duplicates()
        },
    decreases left,
{
    let on_tty = |p: ProcessModel| p.tty != "??"@ && tty == "/dev/"@ + p.tty;
    let is_ghostty = |p: ProcessModel| occurs("Ghostty.app"@, p.command);
    if left > 0 && pid > 1 && from < outputs.len() {
        match process_of(outputs[from]) {
            None => {
                assert(!some_process(outputs, from, from + 1, on_tty)) by {
                    if some_process(outputs, from, from + 1, on_tty) {
                        let i = choose|i: int|
                            from <= i < from + 1 && (process_of(#[trigger] outputs[i]) matches Some(
                                p,
                            ) && on_tty(p));
                        assert(i == from);
                    }
                }
                assert(!some_process(outputs, from, from + 1, is_ghostty)) by {
                    if some_process(outputs, from, from + 1, is_ghostty) {
                        let i = choose|i: int|
                            from <= i < from + 1 && (process_of(#[trigger] outputs[i]) matches Some(
                                p,
                            ) && is_ghostty(p));
                        assert(i == from);
                    }
                }
            },
            Some(p) => {
                let more = if p.tty == "??"@ {
                    ttys
                } else {
                    with_text(ttys, "/dev/"@ + p.tty)
                };
                let here = ghostty || occurs("Ghostty.app"@, p.command);
                law_way_up(p.parent, (left - 1) as nat, more, here, outputs, from + 1, tty);
                if p.tty != "??"@ {
                    lemma_with_text(ttys, "/dev/"@ + p.tty, tty);
                }
                if let TreeModel::Known { ttys: found, ghostty: hosted, used } = climb(
                    pid,
                    left,
                    ttys,
                    ghostty,
                    outputs,
                    from,
                ) {
                    lemma_some_process(outputs, from, used, on_tty, p);
                    lemma_some_process(outputs, from, used, is_ghostty, p);
                }
            },
        }
    } else {
        assert(!some_process(outputs, from, from, on_tty));
        assert(!some_process(outputs, from, from, is_ghostty));
    }
}

proof fn lemma_with_text(list: Seq<Seq<char>>, t: Seq<char>, x: Seq<char>)
    ensures
        with_text(list, t).contains(x) <==> list.contains(x) || x == t,
        list.no_duplicates() ==> with_text(list, t).no_duplicates(),
{
    let now = with_text(list, t);
    if !list.contains(t) {
        assert(now[list.len() as int] == t);
        if list.contains(x) {
            let i = choose|i: int| 0 <= i < list.len() && list[i] == x;
            assert(now[i] == x);
        }
        if now.contains(x) {
            let i = choose|i: int| 0 <= i < now.len() && now[i] == x;
            if i < list.len() {
                assert(list[i] == x);
            }
        }
    }
}

proof fn lemma_some_process(
    outputs: Seq<OutputModel>,
    from: int,
    to: int,
    wanted: spec_fn(ProcessModel) -> bool,
    p: ProcessModel,
)
    requires
        0 <= from < to <= outputs.len(),
        process_of(outputs[from]) == Some(p),
    ensures
        some_process(outputs, from, to, wanted) <==> wanted(p) || some_process(
            outputs,
            from + 1,
            to,
            wanted,
        ),
{
    if some_process(outputs, from, to, wanted) {
        let i = choose|i: int|
            from <= i < to && (process_of(#[trigger] outputs[i]) matches Some(q) && wanted(q));
        if i > from {
            assert(process_of(outputs[i]) is Some);
        }
    }
    if wanted(p) {
        assert(process_of(outputs[from]) is Some);
    }
    if some_process(outputs, from + 1, to, wanted) {
        let i = choose|i: int|
            from + 1 <= i < to && (process_of(#[trigger] outputs[i]) matches Some(q) && wanted(q));
        assert(process_of(outputs[i]) is Some);
    }
}

/// On the way up, the parent of the last process is asked for; the way ends at the
/// first process of all, at one that cannot be told of, or after sixteen.
pub proof fn law_way_asks(pid: Seq<char>, outputs: Seq<OutputModel>, from: int)
    requires
        0 <= from <= outputs.len(),
        from + 16 > outputs.len(),
    ensures
        tree_of(pid, outputs, from) matches TreeModel::Run(args) ==> {
            let asked = if outputs.len() == from {
                pid_number(trimmed(pid))
            } else {
                process_of(outputs.last())->0.parent
            };
            &&& asked > 1
            &&& args.last() == decimal_int(asked)
            &&& args.drop_last() == seq!["-o"@, "ppid=,tty=,comm="@, "-p"@]
            &&& outputs.len() > from ==> process_of(outputs.last()) is Some
        },
{
    lemma_climb_asks(pid_number(trimmed(pid)), 16, Seq::empty(), false, outputs, from);
}

proof fn lemma_climb_asks(
    pid: int,
    left: nat,
    ttys: Seq<Seq<char>>,
    ghostty: bool,
    outputs: Seq<OutputModel>,
    from: int,
)
    requires
        0 <= from <= outputs.len(),
    ensures
        climb(pid, left, ttys, ghostty, outputs, from) matches TreeModel::Run(args) ==> {
            let asked = if outputs.len() == from {
                pid
            } else {
                process_of(outputs.last())->0.parent
            };
            &&& asked > 1
            &&& args.last() == decimal_int(asked)
            &&& args.drop_last() == seq!["-o"@, "ppid=,tty=,comm="@, "-p"@]
            &&& outputs.len() > from ==> process_of(outputs.last()) is Some
        },
    decreases left,
{
    assert(ps_args(pid).drop_last() =~= seq!["-o"@, "ppid=,tty=,comm="@, "-p"@]);
    if left > 0 && pid > 1 && from < outputs.len() {
        if let Some(p) = process_of(outputs[from]) {
            lemma_climb_asks(
                p.parent,
                (left - 1) as nat,
                if p.tty == "??"@ {
                    ttys
                } else {
                    with_text(ttys, "/dev/"@ + p.tty)
                },
                ghostty || occurs("Ghostty.app"@, p.command),
                outputs,
                from + 1,
            );
        }
    }
}

/// A shell line is run in Ghostty where that is there, as the last argument of a login
/// shell; otherwise in Terminal, by a script that holds the line so that it reads back
/// as it is.
pub proof fn law_shell_opened(app: Seq<char>, shell: Seq<char>)
    ensures
        shell_opening(Some(app), shell).program == "open"@,
        shell_opening(Some(app), shell).args[1] == app,
        shell_opening(Some(app), shell).args.skip(
            shell_opening(Some(app), shell).args.len() - 3,
        ) == seq!["/bin/zsh"@, "-lc"@, shell],
        shell_opening(None, shell).program == "osascript"@,
        shell_opening(None, shell).args.len() == 2 && shell_opening(None, shell).args[0] == "-e"@,
        exists|line: Seq<char>|
            {
                &&& crate::quote::script_literal(line) == Some(shell)
                &&& shell_opening(None, shell).args[1] == #[trigger] (
                "tell application \"Terminal\"\nactivate\ndo script \""@ + line
                    + "\"\nend tell"@)
            },
{
    let opened = shell_opening(Some(app), shell).args;
    assert(opened.skip(opened.len() - 3) =~= seq!["/bin/zsh"@, "-lc"@, shell]);
    crate::quote::law_script_reads_back(shell);
    let line = script_escaped(shell);
    assert(shell_opening(None, shell).args[1] == "tell application \"Terminal\"\nactivate\ndo script \""@
        + line + "\"\nend tell"@);
}

/// A report is opened by its path.
pub proof fn law_report_opened(path: Seq<char>)
    ensures
        report_opening(path).program == "open"@,
        report_opening(path).args == seq![path],
{
}

/// The script that raises a window looks for each of the terminals, written so that it
/// reads back as it is.
pub proof fn law_raise_script(ttys: Seq<Seq<char>>, i: int)
    requires
        0 <= i < ttys.len(),
    ensures
        exists|t: Seq<char>|
            {
                &&& crate::quote::script_literal(t) == Some(ttys[i])
                &&& occurs(#[trigger] ("\""@ + t + "\""@), raise_script(ttys))
            },
{
    crate::quote::law_script_reads_back(ttys[i]);
    let t = script_escaped(ttys[i]);
    let all = ttys.map_values(|t: Seq<char>| script_quoted(t));
    let part = "\""@ + t + "\""@;
    assert(all[i] == part);
    crate::text::law_joined_holds(all, ", "@, i);
    let middle = joined(all, ", "@);
    crate::text::law_occurs(part, middle);
    let (a, b) = choose|a: Seq<char>, b: Seq<char>| #[trigger] (a + part + b) == middle;
    let script = raise_script(ttys);
    let x = RAISE_SCRIPT_START@ + a;
    let y = b + RAISE_SCRIPT_END@;
    assert(x + part + y =~= script);
    crate::text::law_occurs(part, script);
}

/// Once it is known where the clients run: Ghostty is brought to the front where it
/// hosts one; otherwise Terminal is asked to raise the window of one of their
/// terminals. Where it finds none, or none has a terminal, the clients are left alone
/// if they are to be kept, and a new one is opened if not.
pub proof fn law_raised(
    pids: Seq<Seq<char>>,
    keep_existing: bool,
    outputs: Seq<OutputModel>,
    from: int,
)
    requires
        pids.len() > 0,
        hosts_of(pids, Seq::empty(), false, outputs, from) is Known,
    ensures
        ({
            let hosts = hosts_of(pids, Seq::empty(), false, outputs, from);
            let ttys = hosts->ttys;
            let used = hosts->used;
            let step = raise_run(pids, keep_existing, outputs, from);
            &&& hosts->ghostty ==> (step matches Some(ShowModel::Open(opening)) && opening
                == activation("Ghostty"@))
            &&& !hosts->ghostty && ttys.len() == 0 ==> (step is None <==> !keep_existing) && (
            keep_existing ==> step == Some(ShowModel::Done))
            &&& !hosts->ghostty && ttys.len() > 0 && used >= outputs.len() ==> (
            step matches Some(ShowModel::Run { program, args }) && program == "osascript"@
                && args.last() == raise_script(ttys))
            &&& !hosts->ghostty && ttys.len() > 0 && used < outputs.len() ==> match outputs[used] {
                OutputModel::Ended { success, stdout, stderr } => {
                    let found = trimmed(lossy(stdout)) == "found"@;
                    &&& !success ==> (step matches Some(ShowModel::Failed(_)))
                    &&& success && (found || keep_existing) ==> step == Some(ShowModel::Done)
                    &&& success && !found && !keep_existing ==> step is None
                },
                OutputModel::NotStarted(_) => step matches Some(ShowModel::Failed(_)),
            }
        }),
{
}

/// The clients are looked for first, by the list of all processes.
pub proof fn law_clients_first(
    keep_existing: bool,
    herdr: Option<Seq<char>>,
    ghostty: Option<Seq<char>>,
)
    ensures
        show_run(keep_existing, herdr, ghostty, Seq::empty()) == (ShowModel::Run {
            program: "ps"@,
            args: seq!["-axo"@, "pid=,tty=,args="@],
        }),
{
}

/// Where the clients run: the terminal of each process on the way up from one of them,
/// and whether one of these is Ghostty; nothing else counts.
pub proof fn law_hosts(
    pids: Seq<Seq<char>>,
    ttys: Seq<Seq<char>>,
    ghostty: bool,
    outputs: Seq<OutputModel>,
    from: int,
    tty: Seq<char>,
)
    requires
        0 <= from <= outputs.len(),
    ensures
        hosts_of(pids, ttys, ghostty, outputs, from) matches TreeModel::Known {
            ttys: found,
            ghostty: hosted,
            used,
        } ==> {
            &&& from <= used <= outputs.len()
            &&& found.contains(tty) <==> ttys.contains(tty) || some_process(
                outputs,
                from,
                used,
                |p: ProcessModel| p.tty != "??"@ && tty == "/dev/"@ + p.tty,
            )
            &&& hosted <==> ghostty || some_process(
                outputs,
                from,
                used,
                |p: ProcessModel| occurs("Ghostty.app"@, p.command),
            )
            &&& ttys.no_duplicates() ==> found.no_duplicates()
        },
    decreases pids.len(),
{
    let on_tty = |p: ProcessModel| p.tty != "??"@ && tty == "/dev/"@ + p.tty;
    let is_ghostty = |p: ProcessModel| occurs("Ghostty.app"@, p.command);
    if pids.len() == 0 {
        assert(!some_process(outputs, from, from, on_tty));
        assert(!some_process(outputs, from, from, is_ghostty));
    } else {
        let none = Seq::<Seq<char>>::empty();
        law_way_up(pid_number(trimmed(pids[0])), 16, none, false, outputs, from, tty);
        if let TreeModel::Known { ttys: more, ghostty: here, used: mid } = tree_of(
            pids[0],
            outputs,
            from,
        ) {
            let both = with_texts(ttys, more);
            lemma_with_texts(ttys, more, tty);
            law_hosts(pids.skip(1), both, ghostty || here, outputs, mid, tty);
            if let TreeModel::Known { ttys: found, ghostty: hosted, used } = hosts_of(
                pids,
                ttys,
                ghostty,
                outputs,
                from,
            ) {
                lemma_processes_join(outputs, from, mid, used, on_tty);
                lemma_processes_join(outputs, from, mid, used, is_ghostty);
            }
        }
    }
}

proof fn lemma_with_texts(list: Seq<Seq<char>>, more: Seq<Seq<char>>, x: Seq<char>)
    ensures
        with_texts(list, more).contains(x) <==> list.contains(x) || more.contains(x),
        list.no_duplicates() ==> with_texts(list, more).no_duplicates(),
    decreases more.len(),
{
    if more.len() > 0 {
        let less = more.drop_last();
        lemma_with_texts(list, less, x);
        lemma_with_text(with_texts(list, less), more.last(), x);
        if more.contains(x) {
            let i = choose|i: int| 0 <= i < more.len() && more[i] == x;
            if i < less.len() {
                assert(less[i] == x);
            }
        }
        if less.contains(x) {
            let i = choose|i: int| 0 <= i < less.len() && less[i] == x;
            assert(more[i] == x);
        }
        assert(more[more.len() - 1] == more.last());
    }
}

proof fn lemma_processes_join(
    outputs: Seq<OutputModel>,
    from: int,
    mid: int,
    to: int,
    wanted: spec_fn(ProcessModel) -> bool,
)
    requires
        from <= mid <= to,
    ensures
        some_process(outputs, from, to, wanted) <==> some_process(outputs, from, mid, wanted)
            || some_process(outputs, mid, to, wanted),
{
    if some_process(outputs, from, to, wanted) {
        let i = choose|i: int|
            from <= i < to && (process_of(#[trigger] outputs[i]) matches Some(q) && wanted(q));
        assert(process_of(outputs[i]) is Some);
    }
    if some_process(outputs, from, mid, wanted) {
        let i = choose|i: int|
            from <= i < mid && (process_of(#[trigger] outputs[i]) matches Some(q) && wanted(q));
        assert(process_of(outputs[i]) is Some);
    }
    if some_process(outputs, mid, to, wanted) {
        let i = choose|i: int|
            mid <= i < to && (process_of(#[trigger] outputs[i]) matches Some(q) && wanted(q));
        assert(process_of(outputs[i]) is Some);
    }
}

} // verus!
