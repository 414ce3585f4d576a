use gh_review_insight::config::Rgb;
use gh_review_insight::json::parse_json;
use gh_review_insight::model::ReviewSummary;
use gh_review_insight::settings::{
    edit_colors, edit_list, entered, entered_account, known_users, picker_color, review_color,
    user_color, ColorEdit,
};
use gh_review_insight::summary::summarize_pull_request;
use gh_review_insight::textmap::TextMap;

#[test]
fn users_are_known_from_data_and_colors() {
    let mut pr = summarize_pull_request(&parse_json(b"{}").ok().unwrap(), "me", &vec![]);
    let review = |author: &str| ReviewSummary {
        author: author.to_string(),
        state: String::new(),
        submitted_at: String::new(),
        url: String::new(),
    };
    let mut colors: TextMap<Rgb> = TextMap::new();
    colors.insert("zoe".to_string(), Rgb { rgb: [1, 2, 3] });
    assert_eq!(known_users("", &vec![], &colors), ["zoe"]);
    pr.author = "alice".to_string();
    pr.my_latest_review = Some(review("me"));
    pr.other_latest_reviews = vec![review("bob"), review("alice")];
    pr.requested_reviewers =
        vec!["@carol".to_string(), "@acme/core".to_string(), "@".to_string()];
    assert_eq!(
        known_users("login", &vec![pr], &colors),
        ["alice", "bob", "carol", "login", "me", "zoe"],
    );
}

#[test]
fn color_edits_are_applied_in_order() {
    let mut colors: TextMap<Rgb> = TextMap::new();
    let edit = |user: &str, color| ColorEdit { user: user.to_string(), color };
    assert!(!edit_colors(&mut colors, &vec![], &None));
    let edits = vec![edit("a", Some([1, 1, 1])), edit("b", Some([2, 2, 2])), edit("a", None)];
    assert!(edit_colors(&mut colors, &edits, &None));
    assert_eq!(user_color(&colors, "a"), None);
    assert_eq!(user_color(&colors, "b"), Some([2, 2, 2]));
    assert!(edit_colors(&mut colors, &vec![], &Some("b".to_string())));
    assert!(edit_colors(&mut colors, &vec![], &Some("c".to_string())));
    assert_eq!(user_color(&colors, "b"), Some([2, 2, 2]));
    assert_eq!(user_color(&colors, "c"), Some([255, 255, 255]));
}

#[test]
fn lists_are_edited_without_doubles() {
    let mut list = vec!["a".to_string(), "b".to_string()];
    let some = |t: &str| Some(t.to_string());
    assert!(!edit_list(&mut list, &None, &None));
    assert!(edit_list(&mut list, &some("c"), &None));
    assert!(edit_list(&mut list, &some("c"), &None));
    assert_eq!(list, ["a", "b", "c"]);
    assert!(edit_list(&mut list, &None, &some("b")));
    assert!(edit_list(&mut list, &None, &some("nobody")));
    assert_eq!(list, ["a", "c"]);
    assert!(edit_list(&mut list, &some("d"), &some("d")));
    assert_eq!(list, ["a", "c"]);
}

#[test]
fn inputs_count_where_they_hold_something() {
    assert_eq!(entered("  x "), Some("x".to_string()));
    assert_eq!(entered("  "), None);
    assert_eq!(entered_account(" @bot "), Some("bot".to_string()));
    assert_eq!(entered_account("@@"), None);
    assert_eq!(entered_account(""), None);
}

#[test]
fn colors_fall_back() {
    let mut colors: TextMap<Rgb> = TextMap::new();
    assert_eq!(picker_color(&colors, "a"), ([220, 220, 220], false));
    colors.insert("a".to_string(), Rgb { rgb: [1, 2, 3] });
    assert_eq!(picker_color(&colors, "a"), ([1, 2, 3], true));
    let review = |author: &str, state: &str| ReviewSummary {
        author: author.to_string(),
        state: state.to_string(),
        submitted_at: String::new(),
        url: String::new(),
    };
    assert_eq!(review_color(&colors, &review("a", "APPROVED"), true), Some((120, 205, 130)));
    assert_eq!(review_color(&colors, &review("a", "COMMENTED"), true), Some((1, 2, 3)));
    assert_eq!(review_color(&colors, &review("b", "COMMENTED"), false), None);
}
