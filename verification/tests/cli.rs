use gh_review_insight::cli::{
    dated, list_stats, parse_command, print_stats_text, print_status_json, print_status_text,
    visible, Command, Stats,
};
use gh_review_insight::json::parse_json;
use gh_review_insight::model::{PullRequestSummary, ReviewSummary};
use gh_review_insight::summary::summarize_pull_request;

fn args(list: &[&str]) -> Vec<String> {
    list.iter().map(|a| a.to_string()).collect()
}

#[test]
fn arguments_select_the_command() {
    let command = |list: &[&str]| parse_command(&args(list));
    assert_eq!(command(&["x"]), Command::Gui);
    assert_eq!(command(&["x", "other", "status"]), Command::Gui);
    assert_eq!(command(&[]), Command::Gui);
    assert_eq!(command(&["x", "status"]), Command::Status { json: false });
    assert_eq!(command(&["x", "status", "a", "--json"]), Command::Status { json: true });
    assert_eq!(command(&["x", "stats", "--json"]), Command::Stats { json: true });
    assert_eq!(command(&["--json", "stats"]), Command::Stats { json: false });
}

fn review(author: &str, state: &str) -> ReviewSummary {
    ReviewSummary {
        author: author.to_string(),
        state: state.to_string(),
        submitted_at: "2026-06-03".to_string(),
        url: String::new(),
    }
}

fn pr(number: i64, asked: bool, own: Option<&str>, others: &[(&str, &str)]) -> PullRequestSummary {
    let mut pr = summarize_pull_request(&parse_json(b"{}").ok().unwrap(), "me", &vec![]);
    pr.number = number;
    pr.repository = "acme/w".to_string();
    pr.title = format!("T{number}");
    pr.url = format!("https://g/{number}");
    pr.author = "alice".to_string();
    pr.updated_at = "2026-06-04T00:00:00Z".to_string();
    pr.requested_for_user = asked;
    pr.my_latest_review = own.map(|state| review("me", state));
    pr.other_latest_reviews = others.iter().map(|(a, s)| review(a, s)).collect();
    pr
}

#[test]
fn hidden_ones_are_left_out() {
    let prs = vec![pr(1, true, None, &[]), pr(2, true, None, &[])];
    let shown = visible(&prs, &args(&["https://g/1"]));
    assert_eq!(shown.len(), 1);
    assert_eq!(shown[0].number, 2);
}

#[test]
fn the_list_is_printed_by_groups() {
    let mut last = pr(4, true, None, &[]);
    last.requested_reviewers = args(&["@me", "@acme/core"]);
    let prs = vec![
        pr(1, false, Some("APPROVED"), &[]),
        pr(2, true, None, &[("bob", "COMMENTED"), ("eve", "APPROVED")]),
        pr(3, true, None, &[]),
        last,
    ];
    let want = "=== gh-review-insight status (login: me) ===\n\n\
[waiting] 要レビュー・誰もまだレビューしていない: 2件\n\n\
\x20 1. acme/w#3  T3\n     URL: https://g/3\n     Author: alice | Updated: 2026-06-04\n\
\x20    Requested: (なし)\n     My review: - | Others: (なし)\n\n\
\x20 2. acme/w#4  T4\n     URL: https://g/4\n     Author: alice | Updated: 2026-06-04\n\
\x20    Requested: me, acme/core\n     My review: - | Others: (なし)\n\n\
[should] 要レビュー・誰かがレビュー済み: 1件\n\n\
\x20 3. acme/w#2  T2\n     URL: https://g/2\n     Author: alice | Updated: 2026-06-04\n\
\x20    Requested: (なし)\n     My review: - | Others: bob (comment), eve (approved)\n\n\
[reviewed] レビュー済み: 1件\n\n\
\x20 4. acme/w#1  T1\n     URL: https://g/1\n     Author: alice | Updated: 2026-06-04\n\
\x20    Requested: (なし)\n     My review: approved | Others: (なし)\n\n";
    assert_eq!(print_status_text("me", &prs), want);
    assert_eq!(
        print_status_text("x", &vec![]),
        "=== gh-review-insight status (login: x) ===\n\n",
    );
    assert!(dated("2026-06-04T") && !dated("2026") && !dated("2026-06-0漢"));
}

#[test]
fn the_list_is_printed_as_json() {
    let mut one = pr(1, false, Some("APPROVED"), &[("bob", "DISMISSED")]);
    one.requested_reviewers = args(&["@bob"]);
    let text = print_status_json("me", &vec![one, pr(2, true, None, &[])]);
    let value: serde_json::Value = serde_json::from_str(&text).unwrap();
    assert_eq!(serde_json::to_string_pretty(&value).unwrap(), text);
    assert_eq!(value["login"], "me");
    let first = &value["pull_requests"][0];
    assert_eq!(first["repository"], "acme/w");
    assert_eq!(first["number"], 1);
    assert_eq!(first["title"], "T1");
    assert_eq!(first["url"], "https://g/1");
    assert_eq!(first["author"], "alice");
    assert_eq!(first["status"], "レビュー済");
    assert_eq!(first["updated_at"], "2026-06-04T00:00:00Z");
    assert_eq!(first["requested_reviewers"][0], "@bob");
    assert_eq!(first["my_latest_review"]["state"], "approved");
    assert_eq!(first["my_latest_review"]["submitted_at"], "2026-06-03");
    assert_eq!(first["other_reviews"][0]["author"], "bob");
    assert_eq!(first["other_reviews"][0]["state"], "dismissed");
    let second = &value["pull_requests"][1];
    assert!(second["my_latest_review"].is_null());
    assert_eq!(second["other_reviews"].as_array().unwrap().len(), 0);
    assert_eq!(second.as_object().unwrap().len(), 10);
}

#[test]
fn statistics_are_printed_line_by_line() {
    let stats = Stats {
        own_review_submissions: 12,
        unique_prs_reviewed: 7,
        reviews_on_touched_prs: 20,
        prs_with_other_reviewers: 3,
        approved: 5,
        changes_requested: 4,
        commented: 3,
        dismissed: 0,
        candidate_prs: 9,
        since: "2026-06-01T00:00:00Z".to_string(),
        until: "2026-07-01T00:00:00Z".to_string(),
    };
    assert_eq!(
        print_stats_text("me", &stats, "60.0"),
        "=== gh-review-insight stats (login: me) ===\n\n期間: 2026-06-01 〜 2026-07-01\n\
         レビュー提出数: 12\nレビューしたPR数: 7\n対象PR上の全レビュー数: 20\n自分の割合: 60.0%\n\
         他レビュワーもいたPR数: 3\n状態内訳: approved 5 / changes 4 / comment 3 / dismissed 0\n\
         候補PR数: 9\n",
    );
    let rows = list_stats(&stats, "a", "b", "1.5");
    assert_eq!(rows.len(), 8);
    assert_eq!((rows[0].title.as_str(), rows[0].value.as_str()), ("期間", "a 〜 b"));
}

#[test]
fn statistics_start_with_nothing() {
    let stats = Stats::default();
    let counts = [
        stats.own_review_submissions,
        stats.unique_prs_reviewed,
        stats.reviews_on_touched_prs,
        stats.prs_with_other_reviewers,
        stats.approved,
        stats.changes_requested,
        stats.commented,
        stats.dismissed,
        stats.candidate_prs,
    ];
    assert_eq!(counts, [0; 9]);
    assert_eq!((stats.since.as_str(), stats.until.as_str()), ("", ""));
}
