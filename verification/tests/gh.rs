use gh_review_insight::gh::{
    augmented_path, gh_candidates, read_reply, resolve_gh, resolve_gh_in, GhClient, GqlVar, Variable,
    VIEWER_QUERY,
};
use gh_review_insight::process::Output;
use gh_review_insight::resolve::join_path;

fn ended(success: bool, stdout: &str, stderr: &str) -> Output {
    Output::Ended { success, stdout: stdout.as_bytes().to_vec(), stderr: stderr.as_bytes().to_vec() }
}

#[test]
fn falls_back_to_preferred_when_nothing_found() {
    assert_eq!(resolve_gh_in("gh", &vec!["/nope/gh".to_string()], &vec![]), "gh");
}

#[test]
fn explicit_path_that_exists_wins_over_candidates() {
    let existing = vec!["/tools/gh".to_string(), "/usr/bin/gh".to_string()];
    assert_eq!(resolve_gh("/tools/gh", &existing), "/tools/gh");
    assert_eq!(resolve_gh("/gone/gh", &existing), "/usr/bin/gh");
}

#[test]
fn bare_name_takes_the_first_candidate_that_exists() {
    let existing = vec!["/usr/bin/gh".to_string(), "/opt/homebrew/bin/gh".to_string()];
    assert_eq!(resolve_gh("gh", &existing), "/opt/homebrew/bin/gh");
    // A bare name is no path, even where a file of that name exists.
    assert_eq!(resolve_gh("gh", &vec!["gh".to_string()]), "gh");
    assert_eq!(gh_candidates().len(), 3);
    assert_eq!(GhClient::new("gh".to_string()).program(&existing), "/opt/homebrew/bin/gh");
}

#[test]
fn paths_are_joined_and_augmented() {
    for (base, rest) in [("/home/u", ".config/x"), ("/home/u/", "y"), ("", "z")] {
        let want = std::path::Path::new(base).join(rest).to_string_lossy().into_owned();
        assert_eq!(join_path(base, rest), want);
    }
    assert_eq!(augmented_path("/x"), "/opt/homebrew/bin:/usr/local/bin:/usr/bin:/x");
}

#[test]
fn variables_become_raw_or_string_arguments() {
    let client = GhClient::new("gh".to_string());
    let vars = vec![
        Variable { key: "searchQuery".to_string(), value: GqlVar::Str("is:pr".to_string()) },
        Variable { key: "first".to_string(), value: GqlVar::Int(50) },
    ];
    assert_eq!(
        client.graphql("Q", &vars),
        ["api", "graphql", "-f", "query=Q", "-f", "searchQuery=is:pr", "-F", "first=50"],
    );
    assert_eq!(client.graphql(VIEWER_QUERY, &vec![]).len(), 4);
}

#[test]
fn replies_are_read_or_give_the_reason() {
    let reason = |output: Output| read_reply(&output).err().unwrap();
    assert!(reason(Output::NotStarted("no such file".to_string())).ends_with(": no such file"));
    assert_eq!(reason(ended(false, "{}", " bad auth \n")), "bad auth");
    assert_eq!(reason(ended(false, "{}", "  ")), "`gh api graphql` の実行に失敗しました。");
    assert!(reason(ended(true, "nope", "")).starts_with("`gh` のJSON応答を解析できませんでした: "));
    assert!(read_reply(&ended(true, "{\"data\": 1}", "")).is_ok());
}

#[test]
fn the_viewer_is_read_from_the_reply() {
    let client = GhClient::new("gh".to_string());
    let good = read_reply(&ended(true, r#"{"data":{"viewer":{"login":"bob"}}}"#, ""));
    assert_eq!(client.viewer_login(&good), Ok("bob".to_string()));
    let none = read_reply(&ended(true, r#"{"data":{}}"#, ""));
    assert_eq!(
        client.viewer_login(&none),
        Err("GitHub viewer login を取得できませんでした。".to_string()),
    );
    assert_eq!(client.viewer_login(&Err("x".to_string())), Err("x".to_string()));
}

#[test]
fn invalid_bytes_of_a_reason_are_replaced() {
    let output = Output::Ended { success: false, stdout: vec![], stderr: b" no \xff\n".to_vec() };
    assert_eq!(read_reply(&output).err().unwrap(), "no \u{fffd}");
}
