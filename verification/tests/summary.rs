use gh_review_insight::json::{parse_json, Json};
use gh_review_insight::model::{short_state, PullRequestSummary, ReviewStatus, ReviewSummary};
use gh_review_insight::summary::{
    format_requested_reviewer, latest_reviews_by_author, parse_reviews, summarize_ignoring,
    summarize_pull_request,
};

fn read(text: &str) -> Json {
    parse_json(text.as_bytes()).unwrap()
}

fn fixture_pr() -> Json {
    read(
        r#"{
            "author": {"login": "alice"},
            "createdAt": "2026-06-01T00:00:00Z",
            "isDraft": false,
            "number": 42,
            "repository": {"nameWithOwner": "acme/widgets"},
            "reviewDecision": "REVIEW_REQUIRED",
            "reviewRequests": {
                "nodes": [
                    {"requestedReviewer": {"__typename": "User", "login": "bob"}},
                    {"requestedReviewer": {
                        "__typename": "Team",
                        "name": "Platform",
                        "slug": "platform",
                        "organization": {"login": "acme"}
                    }}
                ]
            },
            "reviews": {
                "nodes": [
                    {"author": {"login": "bob"}, "state": "COMMENTED",
                     "submittedAt": "2026-06-02T00:00:00Z",
                     "url": "https://github.com/acme/widgets/pull/42#review-1"},
                    {"author": {"login": "bob"}, "state": "APPROVED",
                     "submittedAt": "2026-06-03T00:00:00Z",
                     "url": "https://github.com/acme/widgets/pull/42#review-2"},
                    {"author": {"login": "carol"}, "state": "CHANGES_REQUESTED",
                     "submittedAt": "2026-06-03T12:00:00Z",
                     "url": "https://github.com/acme/widgets/pull/42#review-3"}
                ]
            },
            "state": "OPEN",
            "title": "Add widget filters",
            "updatedAt": "2026-06-04T00:00:00Z",
            "url": "https://github.com/acme/widgets/pull/42"
        }"#,
    )
}

#[test]
fn summarize_marks_requested_and_latest_review() {
    let summary = summarize_pull_request(
        &fixture_pr(),
        "bob",
        &vec!["requested".to_string(), "reviewed".to_string()],
    );

    assert_eq!(summary.self_status(), "reviewed+requested");
    assert_eq!(summary.my_latest_review.as_ref().unwrap().state, "APPROVED");
    assert_eq!(
        summary.requested_reviewers,
        vec!["@bob".to_string(), "@acme/platform".to_string()]
    );
    assert_eq!(summary.other_latest_reviews.len(), 1);
    assert_eq!(summary.other_latest_reviews[0].author, "carol");
}

#[test]
fn summarize_for_non_reviewer_marks_seen_when_not_requested() {
    let summary = summarize_pull_request(&fixture_pr(), "dave", &vec!["reviewed".to_string()]);
    // dave neither requested nor has a review -> "seen".
    assert_eq!(summary.self_status(), "seen");
    assert!(summary.my_latest_review.is_none());
    assert_eq!(summary.other_latest_reviews.len(), 2);
}

#[test]
fn all_fields_are_read() {
    let summary = summarize_pull_request(&fixture_pr(), "carol", &vec!["reviewed".to_string()]);
    assert_eq!(summary.repository, "acme/widgets");
    assert_eq!(summary.number, 42);
    assert_eq!(summary.pr_key(), "acme/widgets#42");
    assert_eq!(summary.title, "Add widget filters");
    assert_eq!(summary.author, "alice");
    assert_eq!(summary.state, "OPEN");
    assert!(!summary.is_draft);
    assert_eq!(summary.review_decision.as_deref(), Some("REVIEW_REQUIRED"));
    assert_eq!(summary.created_at, "2026-06-01T00:00:00Z");
    assert_eq!(summary.updated_at, "2026-06-04T00:00:00Z");
    assert_eq!(summary.sources, ["reviewed"]);
    assert_eq!(summary.reviews.len(), 3);
    assert_eq!(summary.review_status(), ReviewStatus::Reviewed);
    assert_eq!(summary.self_status(), "reviewed");
}

#[test]
fn ignored_accounts_do_not_count() {
    let ignored = vec!["carol".to_string()];
    let summary = summarize_ignoring(&fixture_pr(), "bob", &vec![], &ignored);
    assert!(summary.other_latest_reviews.is_empty());
    assert_eq!(summary.reviews.len(), 3);
    let own = summarize_ignoring(&fixture_pr(), "carol", &vec![], &ignored);
    assert!(own.my_latest_review.is_none());
}

#[test]
fn nodes_without_content_give_empty_summaries() {
    let summary = summarize_pull_request(&read("{}"), "bob", &vec![]);
    assert_eq!(summary.pr_key(), "#0");
    assert_eq!(summary.self_status(), "seen");
    assert_eq!(summary.review_status(), ReviewStatus::Other);
    assert!(summary.reviews.is_empty() && summary.requested_reviewers.is_empty());
}

#[test]
fn accounts_asked_are_written_by_kind() {
    let label = |text: &str| {
        format_requested_reviewer(&read(&format!("{{\"requestedReviewer\": {text}}}")))
    };
    assert_eq!(label(r#"{"__typename":"User","login":"bob"}"#), Some("@bob".to_string()));
    let team = r#"{"__typename":"Team","slug":"core","organization":{"login":"acme"}}"#;
    assert_eq!(label(team), Some("@acme/core".to_string()));
    assert_eq!(label(r#"{"__typename":"Team","slug":"core"}"#), Some("@core".to_string()));
    assert_eq!(label(r#"{"__typename":"Team"}"#), None);
    assert_eq!(label(r#"{"__typename":"User"}"#), None);
    assert_eq!(label(r#"{"__typename":"Mannequin","login":"x"}"#), None);
    assert_eq!(label("null"), None);
}

#[test]
fn the_latest_review_of_each_author_counts() {
    let reviews = parse_reviews(&fixture_pr());
    let latest = latest_reviews_by_author(&reviews);
    assert_eq!(latest.len(), 2);
    assert_eq!(latest.get("bob").unwrap().state, "APPROVED");
    assert_eq!(latest.get("carol").unwrap().state, "CHANGES_REQUESTED");
    assert!(latest.get("dave").is_none());
}

#[test]
fn states_have_short_forms() {
    let cases = [
        ("APPROVED", "approved"),
        ("CHANGES_REQUESTED", "changes"),
        ("COMMENTED", "comment"),
        ("DISMISSED", "dismissed"),
        ("PENDING", "pending"),
        ("SomeThing ÄÖ", "something äö"),
    ];
    for (state, short) in cases {
        assert_eq!(short_state(state), short);
    }
}

fn summary(own: bool, asked: bool, others: usize) -> PullRequestSummary {
    let mut pr = summarize_pull_request(&read("{}"), "me", &vec![]);
    let review = |author: &str| ReviewSummary {
        author: author.to_string(),
        state: "APPROVED".to_string(),
        submitted_at: String::new(),
        url: String::new(),
    };
    pr.requested_for_user = asked;
    if own {
        pr.my_latest_review = Some(review("me"));
    }
    for _ in 0..others {
        pr.other_latest_reviews.push(review("you"));
    }
    pr
}

#[test]
fn pull_requests_fall_into_the_statuses() {
    assert_eq!(summary(false, true, 0).review_status(), ReviewStatus::RequestedUntouched);
    assert_eq!(summary(false, true, 1).review_status(), ReviewStatus::RequestedOthersReviewed);
    assert_eq!(summary(true, false, 1).review_status(), ReviewStatus::Reviewed);
    assert_eq!(summary(true, false, 0).review_status(), ReviewStatus::Reviewed);
    // Asked again after a review: waiting, whoever else has reviewed.
    assert_eq!(summary(true, true, 0).review_status(), ReviewStatus::RequestedUntouched);
    assert_eq!(summary(true, true, 1).review_status(), ReviewStatus::RequestedUntouched);
    assert_eq!(summary(false, false, 1).review_status(), ReviewStatus::Other);
    assert_eq!(ReviewStatus::Reviewed.label(), "レビュー済");
    assert_eq!(ReviewStatus::Other.description(), "その他");
}

#[test]
fn labels_of_unknown_states_are_in_lower_case() {
    assert_eq!(short_state("Some_NEW-state Z9@["), "some_new-state z9@[");
    assert_eq!(short_state("ÄÖ"), "äö");
    assert_eq!(short_state(""), "");
}
