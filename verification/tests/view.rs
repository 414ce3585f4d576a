use gh_review_insight::json::parse_json;
use gh_review_insight::model::{PullRequestSummary, ReviewStatus, ReviewSummary};
use gh_review_insight::summary::summarize_pull_request;
use gh_review_insight::view::{
    date10, detail_text, is_excluded, mine_text, others_text, pr_short, requested_text, state_color,
    status_tint, visible_rows,
};

fn review(author: &str, state: &str, at: &str) -> ReviewSummary {
    ReviewSummary {
        author: author.to_string(),
        state: state.to_string(),
        submitted_at: at.to_string(),
        url: String::new(),
    }
}

fn pr(title: &str, repo: &str, author: &str, url: &str) -> PullRequestSummary {
    let mut pr = summarize_pull_request(&parse_json(b"{}").ok().unwrap(), "me", &vec![]);
    pr.title = title.to_string();
    pr.repository = repo.to_string();
    pr.author = author.to_string();
    pr.url = url.to_string();
    pr.number = 42;
    pr
}

#[test]
fn approved_state_gets_a_color_others_do_not() {
    assert!(state_color("APPROVED", true).is_some());
    assert!(state_color("APPROVED", false).is_some());
    assert!(state_color("COMMENTED", true).is_none());
    assert!(state_color("CHANGES_REQUESTED", false).is_none());
}

#[test]
fn colors_are_tuned_per_theme() {
    assert_eq!(state_color("APPROVED", true), Some((120, 205, 130)));
    assert_eq!(state_color("APPROVED", false), Some((30, 140, 60)));
    assert_eq!(status_tint(ReviewStatus::RequestedUntouched, true), Some((200, 80, 80, 22)));
    assert_eq!(status_tint(ReviewStatus::Reviewed, false), Some((150, 205, 160, 28)));
    assert_eq!(status_tint(ReviewStatus::Other, true), None);
}

#[test]
fn links_hide_what_stands_below_them() {
    let url = "https://github.com/acme/widgets/pull/42";
    let hidden = |link: &str| is_excluded(url, &vec!["x".to_string(), link.to_string()]);
    assert!(hidden(url));
    assert!(hidden("https://github.com/acme/widgets"));
    assert!(hidden(" https://github.com/acme/widgets// "));
    assert!(!hidden("https://github.com/acme/widget"));
    assert!(!hidden("https://github.com/acme/widgets/pull/4"));
    assert!(!hidden("") && !hidden(" / "));
    assert!(!is_excluded(url, &vec![]));
}

#[test]
fn rows_pass_the_filter_whatever_the_case() {
    let prs = vec![
        pr("Add ÄPFEL", "acme/widgets", "alice", "https://g/a/1"),
        pr("Fix", "acme/tools", "Bob", "https://g/b/2"),
        pr("Fix", "acme/tools", "carol", "https://h/c/3"),
    ];
    let none = vec![];
    assert_eq!(visible_rows(&prs, &none, ""), [0, 1, 2]);
    assert_eq!(visible_rows(&prs, &none, "äpfel"), [0]);
    assert_eq!(visible_rows(&prs, &none, "BOB"), [1]);
    assert_eq!(visible_rows(&prs, &none, "tools bob"), [1]);
    assert_eq!(visible_rows(&prs, &vec!["https://h".to_string()], "fix acme"), [1]);
    assert!(visible_rows(&prs, &none, "zzz").is_empty());
}

#[test]
fn cells_show_short_texts() {
    let mut pr = pr("t", "acme/widgets", "alice", "u");
    assert_eq!(pr_short(&pr), "widgets#42");
    assert_eq!(date10("2026-06-04T00:00:00Z"), "2026-06-04");
    assert_eq!(date10("2026"), "2026");
    assert_eq!(mine_text(&pr), "-");
    assert_eq!(requested_text(&pr, "-"), "-");
    assert_eq!(others_text(&pr), "");
    pr.my_latest_review = Some(review("me", "CHANGES_REQUESTED", ""));
    pr.requested_reviewers = vec!["@bob".to_string(), "@acme/core".to_string()];
    pr.other_latest_reviews =
        vec![review("bob", "APPROVED", ""), review("carol", "Odd", "")];
    assert_eq!(mine_text(&pr), "changes");
    assert_eq!(requested_text(&pr, "-"), "bob, acme/core");
    assert_eq!(others_text(&pr), "bob:approved, carol:odd");
}

#[test]
fn details_tell_the_history_in_order() {
    let mut pr = pr("Add filters", "acme/widgets", "alice", "u");
    pr.state = "OPEN".to_string();
    pr.created_at = "2026-06-01T00:00:00Z".to_string();
    pr.updated_at = "2026-06-04T00:00:00Z".to_string();
    assert_eq!(
        detail_text(&pr),
        "acme/widgets#42  (OPEN)\nAdd filters\nauthor: alice\n\
         created: 2026-06-01   updated: 2026-06-04",
    );
    pr.is_draft = true;
    pr.review_decision = Some("APPROVED".to_string());
    pr.sources = vec!["requested".to_string(), "reviewed".to_string()];
    pr.reviews = vec![
        review("bob", "APPROVED", "2026-06-03T00:00:00Z"),
        review("carol", "COMMENTED", "2026-06-02T00:00:00Z"),
        review("dave", "DISMISSED", "2026-06-03T00:00:00Z"),
    ];
    assert_eq!(
        detail_text(&pr),
        "acme/widgets#42  (OPEN)\nAdd filters\nauthor: alice  (draft)\ndecision: APPROVED\n\
         created: 2026-06-01   updated: 2026-06-04\nvia: requested, reviewed\n\nreviews:\n  \
         2026-06-02  carol            comment\n  2026-06-03  bob              approved\n  \
         2026-06-03  dave             dismissed",
    );
}

#[test]
fn the_case_of_a_filter_does_not_matter() {
    let prs = vec![
        pr("Fix The Parser", "acme/Tools", "Ann", "https://h/1"),
        pr("docs", "acme/site", "bob", "https://h/2"),
    ];
    for filter in ["fix the parser acme/tools ann", "FIX THE PARSER ACME/TOOLS ANN", "pArSeR"] {
        assert_eq!(visible_rows(&prs, &vec![], filter), [0]);
    }
    assert_eq!(visible_rows(&prs, &vec!["https://h/1".to_string()], ""), [1]);
}
