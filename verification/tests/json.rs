use gh_review_insight::json::{
    array_value, named, object_value, parse_json, render_json, text_or_null_value, text_value, Json,
};

fn read(text: &str) -> Json {
    parse_json(text.as_bytes()).unwrap()
}

#[test]
fn members_and_items_are_read() {
    let value = read(r#"{"a": {"b": "c", "n": 5, "t": true}, "l": [1, "x", null]}"#);
    assert_eq!(value.text_within("a", "b"), Some("c".to_string()));
    assert_eq!(value.get("a").unwrap().int_at("n"), 5);
    assert!(value.get("a").unwrap().true_at("t"));
    assert_eq!(value.items_at("l").unwrap().len(), 3);
    assert!(value.items_at("l").unwrap()[2].is_null());
    assert_eq!(value.text_or_empty_at("a"), "");
    assert!(value.get("missing").is_none());
    assert!(value.members().is_some() && value.items().is_none());
}

#[test]
fn numbers_beyond_sixty_four_bits_are_no_numbers_here() {
    let value = read(r#"{"f": 1.5, "u": 18446744073709551615, "i": -9223372036854775808}"#);
    assert_eq!(value.int_at("f"), 0);
    assert_eq!(value.int_at("u"), 0);
    assert_eq!(value.int_at("i"), i64::MIN);
}

#[test]
fn what_is_no_json_gives_the_reason() {
    let reason = parse_json(b"{").err().unwrap();
    assert_eq!(reason, serde_json::from_str::<serde_json::Value>("{").unwrap_err().to_string());
    assert!(parse_json(b"\xff").is_err());
    assert!(parse_json(b"").is_err());
}

#[test]
fn later_members_win_and_names_are_in_order() {
    let value = read(r#"{"b": "1", "a": "2", "b": "3"}"#);
    let names: Vec<&str> = value.members().unwrap().iter().map(|m| m.0.as_str()).collect();
    assert_eq!(names, ["a", "b"]);
    assert_eq!(value.text_at("b"), Some("3".to_string()));
}

#[test]
fn values_are_written_with_indents_and_read_back() {
    let list = array_value(vec![text_value("x\n\"y\""), text_value("漢")]);
    assert_eq!(render_json(&list), "[\n  \"x\\n\\\"y\\\"\",\n  \"漢\"\n]");
    let row = object_value(vec![
        named("a", text_or_null_value(&None)),
        named("b", text_or_null_value(&Some("t".to_string()))),
    ]);
    let table = object_value(vec![named("url", row)]);
    let text = render_json(&table);
    assert_eq!(text, "{\n  \"url\": {\n    \"a\": null,\n    \"b\": \"t\"\n  }\n}");
    assert_eq!(render_json(&read(&text)), text);
    assert_eq!(render_json(&table.copy()), text);
}
