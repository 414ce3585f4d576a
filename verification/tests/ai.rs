use gh_review_insight::ai::{
    ai_cell, as_alive, blocks_selection, finish_action, finish_actions, is_launched, next_launch,
    outcome_of, re_review_target, reopen, restore, save_launched, select_actionable, select_cell,
    start_ai_reviews, toggle, AiActionOutcome, AiReview, BatchStep, CellAction, Finished, Restored,
    SelectCell,
};
use gh_review_insight::json::parse_json;
use gh_review_insight::model::{PullRequestSummary, ReviewSummary};
use gh_review_insight::records::{AiSessionRecord, LaunchedRecord};
use gh_review_insight::summary::summarize_pull_request;
use gh_review_insight::textmap::{TextMap, TextSet};

fn record(pane: &str) -> LaunchedRecord {
    LaunchedRecord { pane_id: pane.to_string(), window_name: "w".to_string() }
}

fn session(path: Option<&str>) -> AiSessionRecord {
    AiSessionRecord {
        session_id: "s".to_string(),
        completed_at: "2026-07-08T00:00:00+00:00".to_string(),
        report_path: path.map(str::to_string),
    }
}

/// A pull request that asks for a review; `others` of them are there already.
fn pr(url: &str, asked: bool, others: usize) -> PullRequestSummary {
    let mut pr = summarize_pull_request(&parse_json(b"{}").ok().unwrap(), "me", &vec![]);
    pr.url = url.to_string();
    pr.repository = "acme/w".to_string();
    pr.number = 7;
    pr.requested_for_user = asked;
    for _ in 0..others {
        pr.other_latest_reviews.push(ReviewSummary {
            author: "you".to_string(),
            state: "APPROVED".to_string(),
            submitted_at: String::new(),
            url: String::new(),
        });
    }
    pr
}

#[test]
fn launched_runs_win_over_finished_ones() {
    let mut sessions: TextMap<AiSessionRecord> = TextMap::new();
    sessions.insert("a".to_string(), session(None));
    sessions.insert("b".to_string(), session(None));
    let mut launched: TextMap<Restored> = TextMap::new();
    launched.insert("b".to_string(), Restored { record: record("p"), is_live: true });
    launched.insert("c".to_string(), Restored { record: record("q"), is_live: false });
    let reviews = restore(&sessions, &launched);
    assert_eq!(reviews.len(), 3);
    assert!(matches!(reviews.get("a"), Some(AiReview::Done(_))));
    assert!(matches!(reviews.get("b"), Some(AiReview::Launched(_))));
    assert!(matches!(reviews.get("c"), Some(AiReview::Resumable(_))));
}

#[test]
fn what_is_restored_is_kept() {
    let mut kept: TextMap<LaunchedRecord> = TextMap::new();
    kept.insert("u".to_string(), record("p"));
    let reviews = restore(&TextMap::new(), &as_alive(&kept));
    let again = save_launched(&reviews, &TextMap::new());
    assert_eq!(again.len(), 1);
    assert_eq!(again.get("u"), kept.get("u"));
}

#[test]
fn only_a_launch_is_saved() {
    let mut reviews: TextMap<AiReview> = TextMap::new();
    let launched = AiActionOutcome::Launched(record("p"));
    assert!(finish_action(&mut reviews, "u".to_string(), launched));
    assert!(is_launched(&reviews, "u"));
    let nothing: TextMap<LaunchedRecord> = TextMap::new();
    assert_eq!(save_launched(&reviews, &nothing).len(), 1);
    let failed = AiActionOutcome::Failed("x".to_string());
    assert!(!finish_action(&mut reviews, "u".to_string(), failed));
    assert!(!is_launched(&reviews, "u"));
    assert_eq!(save_launched(&reviews, &nothing).len(), 0);
}

#[test]
fn outcomes_are_put_in_place_in_order() {
    let mut reviews: TextMap<AiReview> = TextMap::new();
    let finished = |url: &str, outcome| Finished { url: url.to_string(), outcome };
    let failed = || AiActionOutcome::Failed("x".to_string());
    assert!(!finish_actions(&mut reviews, vec![]));
    assert!(!finish_actions(&mut reviews, vec![finished("a", failed()), finished("b", failed())]));
    let launched = AiActionOutcome::Launched(record("p"));
    assert!(finish_actions(&mut reviews, vec![finished("a", launched), finished("c", failed())]));
    assert!(is_launched(&reviews, "a"));
    assert!(matches!(reviews.get("b"), Some(AiReview::Failed(_))));
    assert_eq!(reviews.len(), 3);
}

#[test]
fn failures_and_pending_launches_keep_their_records() {
    let mut on_disk: TextMap<LaunchedRecord> = TextMap::new();
    for url in ["u1", "u2", "u3", "u4", "u5"] {
        on_disk.insert(url.to_string(), record("old"));
    }
    let mut reviews: TextMap<AiReview> = TextMap::new();
    reviews.insert("u3".to_string(), AiReview::Pending);
    reviews.insert("u4".to_string(), AiReview::Done(session(None)));
    reviews.insert("u6".to_string(), AiReview::Pending);
    let batch = vec![
        Finished { url: "u1".to_string(), outcome: AiActionOutcome::Launched(record("new")) },
        Finished { url: "u2".to_string(), outcome: AiActionOutcome::Failed("m".to_string()) },
        Finished { url: "u7".to_string(), outcome: AiActionOutcome::Failed("m".to_string()) },
    ];
    assert!(finish_actions(&mut reviews, batch));
    assert!(matches!(reviews.get("u2"), Some(AiReview::Failed(_))));
    let kept = save_launched(&reviews, &on_disk);
    assert_eq!(kept.len(), 3);
    assert_eq!(kept.get("u1"), Some(&record("new")));
    assert_eq!(kept.get("u2"), Some(&record("old")));
    assert_eq!(kept.get("u3"), Some(&record("old")));
}

#[test]
fn re_requests_can_be_reviewed_while_the_old_tab_is_open() {
    let mut reviews: TextMap<AiReview> = TextMap::new();
    reviews.insert("u".to_string(), AiReview::Launched(record("p")));
    let mut again = pr("u", true, 2);
    again.my_latest_review = Some(again.other_latest_reviews[0].clone());
    assert!(!blocks_selection(&reviews, &again));
    assert_eq!(re_review_target(&reviews, &again), Some(record("p")));
    again.requested_for_user = false;
    assert!(blocks_selection(&reviews, &again));
}

#[test]
fn the_checkbox_follows_the_state() {
    let mut reviews: TextMap<AiReview> = TextMap::new();
    let mut selected = TextSet::new();
    let cell = |reviews: &TextMap<AiReview>, selected: &TextSet, others: usize| {
        select_cell(reviews, selected, &pr("u", true, others))
    };
    assert_eq!(cell(&reviews, &selected, 0), SelectCell::Open { checked: false });
    selected.insert("u".to_string());
    assert_eq!(cell(&reviews, &selected, 0), SelectCell::Open { checked: true });
    reviews.insert("u".to_string(), AiReview::Launched(record("p")));
    assert_eq!(cell(&reviews, &selected, 0), SelectCell::Again { checked: true });
    assert_eq!(cell(&reviews, &selected, 1), SelectCell::Blocked);
}

#[test]
fn running_reviews_block_the_selection() {
    let mut reviews: TextMap<AiReview> = TextMap::new();
    assert!(!blocks_selection(&reviews, &pr("u", true, 0)));
    reviews.insert("u".to_string(), AiReview::Launched(record("p")));
    assert!(blocks_selection(&reviews, &pr("u", true, 1)));
    assert!(blocks_selection(&reviews, &pr("u", false, 0)));
    // Asked for and untouched: the earlier review can be continued.
    assert!(!blocks_selection(&reviews, &pr("u", true, 0)));
    assert_eq!(re_review_target(&reviews, &pr("u", true, 0)), Some(record("p")));
    assert_eq!(re_review_target(&reviews, &pr("u", true, 1)), None);
    reviews.insert("u".to_string(), AiReview::Pending);
    assert!(blocks_selection(&reviews, &pr("u", true, 0)));
    reviews.insert("u".to_string(), AiReview::Failed("x".to_string()));
    assert!(!blocks_selection(&reviews, &pr("u", true, 0)));
}

#[test]
fn actionable_ones_are_selected() {
    let mut reviews: TextMap<AiReview> = TextMap::new();
    reviews.insert("https://g/b".to_string(), AiReview::Pending);
    let prs = vec![
        pr("https://g/a", true, 0),
        pr("https://g/b", true, 0),
        pr("https://g/c", true, 2),
        pr("https://g/d", false, 0),
        pr("https://h/e", true, 0),
    ];
    let mut selected = TextSet::new();
    selected.insert("z".to_string());
    select_actionable(&mut selected, &prs, &vec!["https://h/".to_string()], &reviews);
    assert_eq!(selected.to_list(), ["https://g/a", "https://g/c", "z"]);
}

#[test]
fn started_reviews_are_pending_and_not_selected() {
    let mut reviews: TextMap<AiReview> = TextMap::new();
    reviews.insert("b".to_string(), AiReview::Pending);
    reviews.insert("c".to_string(), AiReview::Resumable(record("p")));
    let prs = vec![pr("a", false, 0), pr("b", true, 0), pr("c", true, 0), pr("d", true, 0)];
    let mut selected = TextSet::new();
    for url in ["a", "b", "c", "x"] {
        selected.insert(url.to_string());
    }
    let targets = start_ai_reviews(&prs, &mut selected, &mut reviews);
    let urls: Vec<&str> = targets.iter().map(|t| t.url.as_str()).collect();
    assert_eq!(urls, ["a", "c"]);
    assert_eq!(targets[0].key, "acme/w#7");
    assert_eq!(targets[0].prior, None);
    assert_eq!(targets[1].prior, Some(record("p")));
    assert_eq!(targets[0].launch_key(), "acme/w#7");
    assert_eq!(targets[1].launch_key(), "w");
    assert_eq!(selected.to_list(), ["b", "x"]);
    assert!(matches!(reviews.get("a"), Some(AiReview::Pending)));
    assert!(matches!(reviews.get("c"), Some(AiReview::Pending)));
    assert!(reviews.get("d").is_none());
    // No second launch starts on top.
    for url in ["a", "c"] {
        selected.insert(url.to_string());
    }
    assert!(start_ai_reviews(&prs, &mut selected, &mut reviews).is_empty());
}

#[test]
fn clicking_a_checkbox_twice_changes_nothing() {
    let mut selected = TextSet::new();
    selected.insert("a".to_string());
    toggle(&mut selected, &vec!["a".to_string(), "b".to_string()]);
    assert_eq!(selected.to_list(), ["b"]);
    toggle(&mut selected, &vec!["a".to_string(), "a".to_string()]);
    assert_eq!(selected.to_list(), ["b"]);
}

#[test]
fn the_column_offers_what_the_state_allows() {
    let mut reviews: TextMap<AiReview> = TextMap::new();
    let texts = |reviews: &TextMap<AiReview>| {
        ai_cell(reviews, "u").iter().map(|i| i.text.clone()).collect::<Vec<_>>()
    };
    assert_eq!(texts(&reviews), ["-"]);
    reviews.insert("u".to_string(), AiReview::Pending);
    assert_eq!(texts(&reviews), ["…"]);
    reviews.insert("u".to_string(), AiReview::Launched(record("p")));
    assert_eq!(texts(&reviews), ["herdr"]);
    assert!(matches!(&ai_cell(&reviews, "u")[0].action, CellAction::Focus(r) if r.pane_id == "p"));
    reviews.insert("u".to_string(), AiReview::Resumable(record("p")));
    assert!(matches!(&ai_cell(&reviews, "u")[0].action, CellAction::Reopen(_)));
    reviews.insert("u".to_string(), AiReview::Done(session(None)));
    assert_eq!(texts(&reviews), ["続き"]);
    reviews.insert("u".to_string(), AiReview::Done(session(Some("/r.md"))));
    assert_eq!(texts(&reviews), ["結果", "続き"]);
    let items = ai_cell(&reviews, "u");
    assert!(matches!(&items[0].action, CellAction::OpenReport(p) if p == "/r.md"));
    assert!(matches!(&items[1].action, CellAction::Resume(s) if s == "s"));
    assert!(items[1].hover.ends_with("（実行日: 2026-07-08）"));
    reviews.insert("u".to_string(), AiReview::Failed("boom".to_string()));
    let items = ai_cell(&reviews, "u");
    assert_eq!(items[0].text, "失敗");
    assert_eq!(items[0].hover, "boom\n（再選択して実行し直せます）");
}

#[test]
fn a_reopened_review_is_pending_and_keeps_its_tab_name() {
    let mut reviews: TextMap<AiReview> = TextMap::new();
    reviews.insert("a".to_string(), AiReview::Resumable(record("p")));
    reviews.insert("b".to_string(), AiReview::Launched(record("q")));
    let target = reopen(&mut reviews, "a", &record("p"));
    assert_eq!((target.url.as_str(), target.launch_key().as_str()), ("a", "w"));
    assert_eq!(target.prior, Some(record("p")));
    assert!(matches!(reviews.get("a"), Some(AiReview::Pending)));
    assert!(matches!(reviews.get("b"), Some(AiReview::Launched(_))));
}

/// The steps of a batch whose launches end as `ends` says.
fn steps(ends: &[bool], reopening: bool) -> Vec<BatchStep> {
    let mut all = vec![];
    let mut launched = vec![];
    let mut told = 0;
    let mut shown = false;
    loop {
        let step = next_launch(ends.len(), reopening, &launched, told, shown);
        all.push(step);
        match step {
            BatchStep::Launch(place) => launched.push(ends[place]),
            BatchStep::Tell(_) => told += 1,
            BatchStep::Show { .. } => shown = true,
            BatchStep::Done => return all,
        }
    }
}

#[test]
fn the_client_is_shown_once_after_a_success() {
    let show = |keep_existing: bool| BatchStep::Show { keep_existing };
    let (launch, tell, done) = (BatchStep::Launch, BatchStep::Tell, BatchStep::Done);
    assert_eq!(
        steps(&[false, true], false),
        [launch(0), tell(0), launch(1), tell(1), show(true), done],
    );
    assert_eq!(steps(&[false, false], false), [launch(0), tell(0), launch(1), tell(1), done]);
    assert_eq!(steps(&[], false), [done]);
    // The outcome of a reopened one is handed over after the client was shown.
    assert_eq!(steps(&[true], true), [launch(0), show(false), tell(0), done]);
    assert_eq!(steps(&[false], true), [launch(0), tell(0), done]);
}

#[test]
fn a_launch_has_an_outcome_either_way() {
    match outcome_of(Ok(record("p"))) {
        AiActionOutcome::Launched(launched) => assert_eq!(launched, record("p")),
        AiActionOutcome::Failed(_) => panic!(),
    }
    match outcome_of(Err("no".to_string())) {
        AiActionOutcome::Failed(reason) => assert_eq!(reason, "no"),
        AiActionOutcome::Launched(_) => panic!(),
    }
}
