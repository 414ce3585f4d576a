use gh_review_insight::config::{
    ai_launched_path, ai_sessions_path, colors_path, excludes_path, ignored_path, load_colors,
    load_excludes, load_ignored, review_browser_window_path, save_colors, save_excludes,
    save_ignored, workspace_dir, Rgb,
};
use gh_review_insight::textmap::TextMap;

#[test]
fn settings_stand_below_the_home_directory() {
    let home = Some("/home/u".to_string());
    let dir = "/home/u/.config/gh-review-insight";
    let at = |name: &str| Some(format!("{dir}/{name}"));
    assert_eq!(colors_path(&home), at("colors.json"));
    assert_eq!(excludes_path(&home), at("excludes.json"));
    assert_eq!(ignored_path(&home), at("ignored.json"));
    assert_eq!(ai_sessions_path(&home), at("ai_sessions.json"));
    assert_eq!(ai_launched_path(&home), at("ai_launched.json"));
    assert_eq!(workspace_dir(&home), at("workspace"));
    assert_eq!(review_browser_window_path(&home), at("review_browser_window.json"));
    assert_eq!(colors_path(&None), None);
    assert_eq!(workspace_dir(&None), None);
}

#[test]
fn user_colors_serialize_roundtrip() {
    let mut map: TextMap<Rgb> = TextMap::new();
    map.insert("alice".to_string(), Rgb { rgb: [10, 20, 30] });
    let json = save_colors(&map);
    let back = load_colors(&Some(json));
    assert_eq!(back.get("alice").map(|c| c.rgb), Some([10, 20, 30]));
}

#[test]
fn colors_are_written_in_the_order_of_users() {
    let mut map: TextMap<Rgb> = TextMap::new();
    map.insert("bob".to_string(), Rgb { rgb: [0, 255, 1] });
    map.insert("al".to_string(), Rgb { rgb: [1, 2, 3] });
    let want = "{\n  \"al\": [\n    1,\n    2,\n    3\n  ],\n  \"bob\": [\n    0,\n    255,\n    1\n  ]\n}";
    assert_eq!(save_colors(&map), want);
    assert_eq!(load_colors(&Some(want.to_string())).len(), 2);
    assert_eq!(save_colors(&TextMap::new()), "{}");
}

#[test]
fn colors_that_are_none_are_not_loaded() {
    let bad = ["", "[]", r#"{"a": [1, 2]}"#, r#"{"a": [1, 2, 300]}"#, r#"{"a": "x", "a": [1, 2, 3]}"#];
    for text in bad {
        assert_eq!(load_colors(&Some(text.to_string())).len(), 0, "{text}");
    }
    assert_eq!(load_colors(&None).len(), 0);
    let twice = load_colors(&Some(r#"{"a": [9, 9, 9], "a": [1, 2, 3]}"#.to_string()));
    assert_eq!(twice.get("a").map(|c| c.rgb), Some([1, 2, 3]));
}

#[test]
fn lists_load_back() {
    let list = vec!["https://github.com/a/b".to_string(), "x\"y\n".to_string(), String::new()];
    assert_eq!(load_excludes(&Some(save_excludes(&list))), list);
    assert_eq!(load_ignored(&Some(save_ignored(&list))), list);
    assert_eq!(save_excludes(&vec![]), "[]");
    assert_eq!(save_ignored(&vec!["bot".to_string()]), "[\n  \"bot\"\n]");
}

#[test]
fn lists_of_something_else_are_not_loaded() {
    for text in ["", "{}", "[1]", r#"["a", null]"#, r#"["a""#] {
        assert!(load_excludes(&Some(text.to_string())).is_empty(), "{text}");
        assert!(load_ignored(&Some(text.to_string())).is_empty(), "{text}");
    }
    assert!(load_ignored(&None).is_empty());
}
