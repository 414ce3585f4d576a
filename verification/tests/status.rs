use gh_review_insight::gh::GqlVar;
use gh_review_insight::json::{parse_json, Json};
use gh_review_insight::process::Output;
use gh_review_insight::search::{search_pull_requests, SearchStep};
use gh_review_insight::status::{
    collect_status, list_pull_requests, normalize_login, scope_qualifiers, status_priority,
    status_query, LoginStep, StatusOptions, StatusStep,
};

fn read(text: &str) -> Json {
    parse_json(text.as_bytes()).unwrap()
}

fn page(nodes: &str, next: &str) -> String {
    let info = if next.is_empty() {
        r#"{"hasNextPage": false, "endCursor": null}"#.to_string()
    } else {
        format!(r#"{{"hasNextPage": true, "endCursor": "{next}"}}"#)
    };
    format!(r#"{{"data": {{"search": {{"nodes": [{nodes}], "pageInfo": {info}}}}}}}"#)
}

fn node(url: &str, updated: &str) -> String {
    format!(r#"{{"url": "{url}", "updatedAt": "{updated}"}}"#)
}

fn ok(text: &str) -> Output {
    Output::Ended { success: true, stdout: text.as_bytes().to_vec(), stderr: vec![] }
}

fn variables(step: SearchStep) -> Vec<String> {
    match step {
        SearchStep::Ask(vars) => vars
            .iter()
            .map(|v| match &v.value {
                GqlVar::Str(s) => format!("{}={s}", v.key),
                GqlVar::Int(n) => format!("{}={n}", v.key),
            })
            .collect(),
        _ => panic!("no question"),
    }
}

fn urls(step: SearchStep) -> (Vec<String>, usize) {
    match step {
        SearchStep::Done { nodes, used } => {
            (nodes.iter().map(|n| n.text_or_empty_at("url")).collect(), used)
        }
        _ => panic!("not done"),
    }
}

#[test]
fn the_user_is_the_viewer_or_a_login() {
    assert!(matches!(normalize_login("@me", None), LoginStep::AskViewer));
    match normalize_login("@me", Some(Ok("bob".to_string()))) {
        LoginStep::Known { login, search_user } => {
            assert_eq!((login.as_str(), search_user.as_str()), ("bob", "@me"));
        }
        _ => panic!(),
    }
    match normalize_login("@@carol", None) {
        LoginStep::Known { login, search_user } => {
            assert_eq!((login.as_str(), search_user.as_str()), ("carol", "carol"));
        }
        _ => panic!(),
    }
    match normalize_login("@me", Some(Err("no auth".to_string()))) {
        LoginStep::Failed(reason) => assert_eq!(reason, "no auth"),
        _ => panic!(),
    }
}

#[test]
fn searches_are_scoped() {
    let mut opts = StatusOptions::default();
    assert_eq!(status_query(&opts, "x"), "is:pr archived:false is:open x");
    opts.repos.push("acme/widgets".to_string());
    opts.owners.push("acme".to_string());
    assert_eq!(
        status_query(&opts, "reviewed-by:bob"),
        "is:pr archived:false is:open repo:acme/widgets user:acme reviewed-by:bob",
    );
    assert_eq!(scope_qualifiers(&opts.repos, &opts.owners), ["repo:acme/widgets", "user:acme"]);
}

#[test]
fn pages_are_asked_for_up_to_the_limit() {
    let asked = variables(search_pull_requests("q", 150, &vec![], 0));
    assert_eq!(asked, ["searchQuery=q", "first=100"]);
    let first = Ok(read(&page(&format!("{},null", node("a", "")), "C1")));
    let replies = vec![first];
    let asked = variables(search_pull_requests("q", 150, &replies, 0));
    assert_eq!(asked, ["searchQuery=q", "first=100", "after=C1"]);
    let asked = variables(search_pull_requests("q", 3, &replies, 0));
    assert_eq!(asked, ["searchQuery=q", "first=2", "after=C1"]);
    assert_eq!(urls(search_pull_requests("q", 1, &replies, 0)), (vec!["a".to_string()], 1));
}

#[test]
fn a_search_ends_without_a_next_page() {
    let replies = vec![
        Err("skipped".to_string()),
        Ok(read(&page(&node("a", ""), "C1"))),
        Ok(read(&page(&node("b", ""), ""))),
    ];
    let all = (vec!["a".to_string(), "b".to_string()], 3);
    assert_eq!(urls(search_pull_requests("q", 50, &replies, 1)), all);
    match search_pull_requests("q", 50, &replies, 0) {
        SearchStep::Failed(reason) => assert_eq!(reason, "skipped"),
        _ => panic!(),
    }
    assert_eq!(urls(search_pull_requests("q", 0, &replies, 0)), (vec![], 0));
    // A next page without a cursor is none.
    let odd = r#"{"data":{"search":{"pageInfo":{"hasNextPage":true,"endCursor":""}}}}"#;
    assert_eq!(urls(search_pull_requests("q", 5, &vec![Ok(read(odd))], 0)), (vec![], 1));
}

#[test]
fn the_list_merges_sources_and_goes_by_priority() {
    let requested = vec![
        read(&node("u1", "2026-01-01")),
        read(&node("u2", "2026-01-02")),
        read(r#"{"title": "no url"}"#),
    ];
    let mine = r#"{"url": "u3", "updatedAt": "2026-01-03", "reviews": {"nodes": [
        {"author": {"login": "bob"}, "state": "APPROVED", "submittedAt": "t", "url": "r"}]}}"#;
    let reviewed = vec![read(&node("u1", "2026-09-09")), read(mine), read(&node("u4", "2026-01-04"))];
    let prs = list_pull_requests(&StatusOptions::default(), "bob", &requested, &reviewed);
    let listed: Vec<(&str, i32, &str)> = prs
        .iter()
        .map(|p| (p.url.as_str(), status_priority(p), p.updated_at.as_str()))
        .collect();
    assert_eq!(
        listed,
        [
            ("u2", 0, "2026-01-02"),
            ("u1", 0, "2026-01-01"),
            ("u3", 2, "2026-01-03"),
            ("u4", 3, "2026-01-04"),
        ],
    );
    assert_eq!(prs[1].sources, ["requested", "reviewed"]);
    assert_eq!(prs[2].sources, ["reviewed"]);
}

#[test]
fn drafts_are_left_out_unless_asked_for() {
    let draft = vec![read(r#"{"url": "d", "isDraft": true}"#)];
    let mut opts = StatusOptions::default();
    assert!(list_pull_requests(&opts, "bob", &draft, &vec![]).is_empty());
    opts.include_drafts = true;
    assert_eq!(list_pull_requests(&opts, "bob", &draft, &vec![]).len(), 1);
}

fn run_args(step: StatusStep) -> Vec<String> {
    match step {
        StatusStep::Run(args) => args,
        _ => panic!("nothing to run"),
    }
}

#[test]
fn the_list_is_collected_run_by_run() {
    let opts = StatusOptions::default();
    let mut outputs = vec![];
    assert!(run_args(collect_status(&opts, &outputs))[3].contains("viewer"));
    outputs.push(ok(r#"{"data": {"viewer": {"login": "bob"}}}"#));
    let args = run_args(collect_status(&opts, &outputs));
    assert!(args.contains(
        &"searchQuery=is:pr archived:false is:open review-requested:@me".to_string()
    ));
    assert!(args.contains(&"first=50".to_string()));
    outputs.push(ok(&page(&node("u1", "x"), "")));
    let args = run_args(collect_status(&opts, &outputs));
    assert!(args.contains(&"searchQuery=is:pr archived:false is:open reviewed-by:bob".to_string()));
    outputs.push(ok(&page("", "")));
    match collect_status(&opts, &outputs) {
        StatusStep::Done { login, prs } => {
            assert_eq!(login, "bob");
            assert_eq!(prs.len(), 1);
            assert_eq!(prs[0].self_status(), "requested");
        }
        _ => panic!("not done"),
    }
}

#[test]
fn reviewed_ones_can_be_left_out() {
    let mut opts = StatusOptions::default();
    opts.user = "@carol".to_string();
    opts.no_reviewed = true;
    let outputs = vec![ok(&page("", ""))];
    let args = run_args(collect_status(&opts, &vec![]));
    assert!(args.contains(
        &"searchQuery=is:pr archived:false is:open review-requested:carol".to_string()
    ));
    match collect_status(&opts, &outputs) {
        StatusStep::Done { login, prs } => assert_eq!((login.as_str(), prs.len()), ("carol", 0)),
        _ => panic!("not done"),
    }
}

#[test]
fn a_failed_run_ends_the_collection() {
    let opts = StatusOptions::default();
    let outputs = vec![Output::Ended {
        success: false,
        stdout: vec![],
        stderr: b"not logged in\n".to_vec(),
    }];
    match collect_status(&opts, &outputs) {
        StatusStep::Failed(reason) => assert_eq!(reason, "not logged in"),
        _ => panic!("not failed"),
    }
    // What comes after a failure changes nothing.
    let more = vec![
        Output::NotStarted("x".to_string()),
        ok(r#"{"data": {"viewer": {"login": "bob"}}}"#),
    ];
    assert!(matches!(collect_status(&opts, &more), StatusStep::Failed(_)));
}
