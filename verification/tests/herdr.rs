use gh_review_insight::herdr::{
    ensure_herdr_workspace, find_herdr, herdr_run, launch_in_herdr, live_herdr_reviews,
    load_launched_reviews, LaunchStep, LiveStep, LoadStep, WorkspaceStep,
};
use gh_review_insight::process::Output;

fn ran(stdout: &str) -> Option<Output> {
    Some(Output::Ended { success: true, stdout: stdout.as_bytes().to_vec(), stderr: vec![] })
}

const NONE: &str = r#"{"result": {"workspaces": [{"label": "x", "workspace_id": "w0"}]}}"#;
const LISTED: &str = r#"{"result": {"workspaces": [{"label": "x", "workspace_id": "w0"},
    {"label": "gh-review", "workspace_id": "w1"}, {"label": "gh-review", "workspace_id": "w2"}]}}"#;
const CREATED: &str = r#"{"result": {"workspace": {"workspace_id": "w9"}}}"#;
const STARTED: &str = r#"{"result": {"agent": {"terminal_id": "term_1", "pane_id": "p1"}}}"#;
const MOVED: &str = r#"{"result": {}}"#;

#[test]
fn herdr_is_found_where_it_exists() {
    let home = Some("/h".to_string());
    let existing = vec!["/usr/local/bin/herdr".to_string(), "/h/.local/bin/herdr".to_string()];
    assert_eq!(find_herdr(&home, &existing), Some("/h/.local/bin/herdr".to_string()));
    assert_eq!(find_herdr(&None, &existing), Some("/usr/local/bin/herdr".to_string()));
    assert_eq!(find_herdr(&home, &vec![]), None);
}

#[test]
fn replies_give_the_result_or_the_reason() {
    let reason = |run: Option<Output>| herdr_run("agent", &run).err().unwrap();
    assert_eq!(reason(None), "herdr が見つかりませんでした。");
    let failed = Some(Output::NotStarted("denied".to_string()));
    assert_eq!(reason(failed), "herdr を実行できませんでした: denied");
    assert_eq!(reason(ran("")), "herdr agent がJSON応答を返しませんでした。");
    let told = Some(Output::Ended { success: false, stdout: vec![], stderr: b" boom\n".to_vec() });
    assert_eq!(reason(told), "boom");
    assert_eq!(reason(ran(r#"{"error": {"message": "busy"}}"#)), "herdr agent: busy");
    assert_eq!(reason(ran(r#"{"error": null}"#)), "herdr agent: 不明なエラー");
    let result = herdr_run("agent", &ran(STARTED)).unwrap();
    assert_eq!(result.text_within("agent", "pane_id"), Some("p1".to_string()));
    assert!(herdr_run("agent", &ran("3")).unwrap().is_null());
}

#[test]
fn the_workspace_is_found_or_created() {
    match ensure_herdr_workspace("/w", &vec![]) {
        WorkspaceStep::Run(args) => assert_eq!(args, ["workspace", "list"]),
        _ => panic!(),
    }
    match ensure_herdr_workspace("/w", &vec![ran(LISTED)]) {
        WorkspaceStep::Known { id, used } => assert_eq!((id.as_str(), used), ("w1", 1)),
        _ => panic!(),
    }
    match ensure_herdr_workspace("/w", &vec![ran(NONE)]) {
        WorkspaceStep::Run(args) => assert_eq!(
            args,
            ["workspace", "create", "--label", "gh-review", "--no-focus", "--cwd", "/w"],
        ),
        _ => panic!(),
    }
    match ensure_herdr_workspace("/w", &vec![ran(NONE), ran(CREATED)]) {
        WorkspaceStep::Known { id, used } => assert_eq!((id.as_str(), used), ("w9", 2)),
        _ => panic!(),
    }
    match ensure_herdr_workspace("/w", &vec![ran(NONE), ran(MOVED)]) {
        WorkspaceStep::Failed(reason) => assert_eq!(
            reason,
            "herdr workspace create の応答から id を取得できませんでした。",
        ),
        _ => panic!(),
    }
    assert!(matches!(ensure_herdr_workspace("/w", &vec![None]), WorkspaceStep::Failed(_)));
}

#[test]
fn a_review_is_launched_in_a_tab_of_its_own() {
    let launch = |runs: Vec<Option<Output>>| {
        launch_in_herdr("https://x/pull/42", "acme/widgets#42", "/w", "/bin/ai", &runs)
    };
    match launch(vec![ran(LISTED)]) {
        LaunchStep::Run(args) => assert_eq!(
            args,
            [
                "agent", "start", "widgets#42", "--workspace", "w1", "--cwd", "/w", "--no-focus",
                "--", "/bin/ai", "https://x/pull/42",
            ],
        ),
        _ => panic!(),
    }
    match launch(vec![ran(LISTED), ran(STARTED)]) {
        LaunchStep::Run(args) => assert_eq!(
            args,
            [
                "pane", "move", "p1", "--new-tab", "--workspace", "w1", "--label", "widgets#42",
                "--no-focus",
            ],
        ),
        _ => panic!(),
    }
    match launch(vec![ran(NONE), ran(CREATED), ran(STARTED), ran(MOVED)]) {
        LaunchStep::Done(record) => {
            assert_eq!(record.pane_id, "term_1");
            assert_eq!(record.window_name, "widgets#42");
        }
        _ => panic!(),
    }
    match launch(vec![ran(LISTED), ran(MOVED)]) {
        LaunchStep::Failed(reason) => assert_eq!(
            reason,
            "herdr agent start の応答から id を取得できませんでした。",
        ),
        _ => panic!(),
    }
    match launch(vec![ran(LISTED), ran(STARTED), ran(r#"{"error": {"message": "m"}}"#)]) {
        LaunchStep::Failed(reason) => assert_eq!(reason, "herdr pane: m"),
        _ => panic!(),
    }
    // Further runs change nothing.
    assert!(matches!(launch(vec![None, ran(LISTED), ran(STARTED)]), LaunchStep::Failed(_)));
}

const PANES: &str = r#"{"result": {"panes": [{"terminal_id": "term_1", "label": "widgets#42"},
    {"terminal_id": "term_2", "label": "a"}, {"terminal_id": "term_2", "label": "b"},
    {"terminal_id": "term_3"}]}}"#;

#[test]
fn live_panes_are_listed() {
    match live_herdr_reviews(&vec![ran(LISTED)]) {
        LiveStep::Run(args) => assert_eq!(args, ["pane", "list", "--workspace", "w1"]),
        _ => panic!(),
    }
    match live_herdr_reviews(&vec![ran(LISTED), ran(PANES)]) {
        LiveStep::Done(live) => {
            assert_eq!(live.len(), 2);
            assert_eq!(live.get("term_1").unwrap(), "widgets#42");
            assert_eq!(live.get("term_2").unwrap(), "b");
        }
        _ => panic!(),
    }
    for runs in [vec![None], vec![ran(NONE)], vec![ran(LISTED), None]] {
        match live_herdr_reviews(&runs) {
            LiveStep::Done(live) => assert_eq!(live.len(), 0),
            _ => panic!(),
        }
    }
}

const FILE: &str = r#"{"u1": {"backend": "herdr", "pane_id": "term_1", "window_name": "widgets#42"},
    "u2": {"backend": "herdr", "pane_id": "term_2", "window_name": "a"}}"#;

#[test]
fn only_live_reviews_are_loaded() {
    match load_launched_reviews(&None, &vec![]) {
        LoadStep::Done { kept, rewrite } => assert_eq!((kept.len(), rewrite), (0, false)),
        _ => panic!(),
    }
    let file = Some(FILE.to_string());
    assert!(matches!(load_launched_reviews(&file, &vec![]), LoadStep::Run(_)));
    match load_launched_reviews(&file, &vec![ran(LISTED), ran(PANES)]) {
        LoadStep::Done { kept, rewrite } => {
            assert_eq!((kept.len(), rewrite), (1, true));
            assert_eq!(kept.get("u1").unwrap().pane_id, "term_1");
        }
        _ => panic!(),
    }
    let panes = PANES.replace("\"b\"", "\"a\"");
    match load_launched_reviews(&file, &vec![ran(LISTED), ran(&panes)]) {
        LoadStep::Done { kept, rewrite } => assert_eq!((kept.len(), rewrite), (2, false)),
        _ => panic!(),
    }
    // With herdr gone all panes are dead.
    match load_launched_reviews(&file, &vec![None]) {
        LoadStep::Done { kept, rewrite } => assert_eq!((kept.len(), rewrite), (0, true)),
        _ => panic!(),
    }
}
