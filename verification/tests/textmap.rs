use gh_review_insight::order::is_before;
use gh_review_insight::rank::{rank, SortKey};
use gh_review_insight::terminal::{show_terminal, ShowStep};
use gh_review_insight::process::Output;
use gh_review_insight::textmap::{TextMap, TextSet};

#[test]
fn maps_keep_their_keys_in_order() {
    let mut map: TextMap<String> = TextMap::new();
    for (key, value) in [("b", "1"), ("a", "2"), ("漢", "3"), ("b", "4"), ("", "5")] {
        map.insert(key.to_string(), value.to_string());
    }
    let keys: Vec<&str> = (0..map.len()).map(|i| map.key_at(i).as_str()).collect();
    assert_eq!(keys, ["", "a", "b", "漢"]);
    assert_eq!(map.get("b").unwrap(), "4");
    assert_eq!(map.value_at(1), "2");
    assert!(map.remove("b") && !map.remove("b"));
    assert!(map.get("b").is_none());
    assert_eq!(map.len(), 3);
}

#[test]
fn sets_hold_each_text_once() {
    let mut set = TextSet::new();
    for text in ["x", "a", "x"] {
        set.insert(text.to_string());
    }
    assert_eq!(set.len(), 2);
    assert_eq!(set.to_list(), ["a", "x"]);
    assert!(set.contains("x") && set.remove("x") && !set.contains("x"));
}

#[test]
fn texts_are_ordered_as_std_orders_them() {
    let list = ["", "a", "ab", "b", "é", "漢", "\u{ffff}", "\u{10000}"];
    for a in list {
        for b in list {
            assert_eq!(is_before(a, b), a < b);
        }
    }
}

#[test]
fn ranking_is_stable() {
    let key = |rank: i32, text: &str| SortKey { rank, text: text.to_string() };
    let keys = vec![key(1, "a"), key(0, "b"), key(0, "c"), key(1, "a"), key(0, "b")];
    assert_eq!(rank(&keys, true), [2, 1, 4, 0, 3]);
    assert_eq!(rank(&keys, false), [1, 4, 2, 0, 3]);
    assert!(rank(&vec![], true).is_empty());
}

#[test]
fn bytes_that_are_no_text_are_replaced() {
    let list = |stdout: &[u8]| {
        let output = Output::Ended { success: true, stdout: stdout.to_vec(), stderr: vec![] };
        show_terminal(false, &None, &None, &vec![output])
    };
    // A broken argument is one all the same, so that this is no attached client.
    assert!(matches!(list(b"300 ttys001 herdr \xff"), ShowStep::Failed(_)));
    assert!(matches!(list(b"300 ttys001 herdr -\xff"), ShowStep::Run { .. }));
}
