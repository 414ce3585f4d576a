use gh_review_insight::json::{parse_json, Json};
use gh_review_insight::records::{
    load_sessions, read_launched, save_launched_reviews, save_sessions, AiSessionRecord,
    LaunchedRecord,
};
use gh_review_insight::textmap::TextMap;

fn read(text: &str) -> Json {
    parse_json(text.as_bytes()).unwrap()
}

#[test]
fn session_record_roundtrips_through_json() {
    let record = AiSessionRecord {
        session_id: "s-1".to_string(),
        completed_at: "2026-07-08T00:00:00+00:00".to_string(),
        report_path: Some("/tmp/r.md".to_string()),
    };
    assert_eq!(AiSessionRecord::from_value(&record.to_value()), Some(record));

    let no_report = AiSessionRecord {
        session_id: "s-2".to_string(),
        completed_at: "2026-07-08T00:00:00+00:00".to_string(),
        report_path: None,
    };
    assert_eq!(AiSessionRecord::from_value(&no_report.to_value()), Some(no_report));

    // Records without a session id are dropped.
    assert_eq!(AiSessionRecord::from_value(&read(r#"{"report_path": "x"}"#)), None);
}

#[test]
fn launched_record_roundtrips_through_json() {
    let record = LaunchedRecord {
        pane_id: "term_abc123".to_string(),
        window_name: "widgets#42".to_string(),
    };
    assert_eq!(LaunchedRecord::from_value(&record.to_value()), Some(record));
    // Records from the retired tmux backend (no backend tag) are dropped.
    let legacy = read(r#"{"pane_id": "%1", "window_name": "w"}"#);
    assert_eq!(LaunchedRecord::from_value(&legacy), None);
    // Records without a pane id are dropped.
    assert_eq!(
        LaunchedRecord::from_value(&read(r#"{"window_name": "x", "backend": "herdr"}"#)),
        None
    );
}

#[test]
fn sessions_load_back() {
    let mut map: TextMap<AiSessionRecord> = TextMap::new();
    for (url, id, path) in [("u2", "b", None), ("u1", "a", Some("/r.md".to_string()))] {
        map.insert(
            url.to_string(),
            AiSessionRecord {
                session_id: id.to_string(),
                completed_at: "t".to_string(),
                report_path: path,
            },
        );
    }
    let text = save_sessions(&map);
    let back = load_sessions(&Some(text));
    assert_eq!(back.len(), 2);
    assert_eq!(back.get("u1"), map.get("u1"));
    assert_eq!(back.get("u2"), map.get("u2"));
}

#[test]
fn launched_reviews_load_back() {
    let mut map: TextMap<LaunchedRecord> = TextMap::new();
    let record = LaunchedRecord { pane_id: "p".to_string(), window_name: String::new() };
    map.insert("u".to_string(), record);
    let text = save_launched_reviews(&map);
    assert_eq!(
        text,
        "{\n  \"u\": {\n    \"backend\": \"herdr\",\n    \"pane_id\": \"p\",\n    \"window_name\": \"\"\n  }\n}",
    );
    let back = read_launched(&Some(text));
    assert_eq!(back.get("u"), map.get("u"));
}

#[test]
fn rows_that_are_no_records_are_dropped() {
    let text = r#"{"a": {"session_id": ""}, "b": {"session_id": "x", "completed_at": 3}, "c": 1}"#;
    let sessions = load_sessions(&Some(text.to_string()));
    assert_eq!(sessions.len(), 1);
    assert_eq!(sessions.get("b").unwrap().completed_at, "");
    for text in ["", "[]", "3"] {
        assert_eq!(load_sessions(&Some(text.to_string())).len(), 0);
        assert_eq!(read_launched(&Some(text.to_string())).len(), 0);
    }
    assert_eq!(load_sessions(&None).len(), 0);
}

#[test]
fn records_without_their_id_are_not_loaded_back() {
    let mut sessions: TextMap<AiSessionRecord> = TextMap::new();
    let mut launched: TextMap<LaunchedRecord> = TextMap::new();
    for (url, id) in [("u1", "a"), ("u2", ""), ("u3", "c")] {
        sessions.insert(
            url.to_string(),
            AiSessionRecord {
                session_id: id.to_string(),
                completed_at: "t".to_string(),
                report_path: None,
            },
        );
        launched.insert(
            url.to_string(),
            LaunchedRecord { pane_id: id.to_string(), window_name: url.to_string() },
        );
    }
    let back = load_sessions(&Some(save_sessions(&sessions)));
    assert_eq!(back.get("u1"), sessions.get("u1"));
    assert!(back.get("u2").is_none());
    assert_eq!(back.get("u3"), sessions.get("u3"));
    let back = read_launched(&Some(save_launched_reviews(&launched)));
    assert_eq!(back.get("u1"), launched.get("u1"));
    assert!(back.get("u2").is_none());
    assert_eq!(back.get("u3"), launched.get("u3"));
}
