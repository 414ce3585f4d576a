use gh_review_insight::number::{decimal, decimal_usize, only_digits, parse_i64};
use gh_review_insight::split::{split_lines, split_words};
use gh_review_insight::text::{
    has_part, has_prefix, has_suffix, join, last_part, pad, push_new, replace, slice_bytes, space,
    split_once, take_chars, trim, trim_end, trim_start,
};

#[test]
fn white_space_is_that_of_unicode() {
    for n in 0..=0x10ffffu32 {
        if let Some(c) = char::from_u32(n) {
            assert_eq!(space(c), c.is_whitespace(), "{n:x}");
        }
    }
}

#[test]
fn texts_are_cut_as_std_cuts_them() {
    for s in ["", " a b ", "\u{3000}x\t", "@@bob@", "a/b/", "///", "owner/repo", "no"] {
        assert_eq!(trim(s), s.trim());
        assert_eq!(trim_start(s, '@'), s.trim_start_matches('@'));
        assert_eq!(trim_end(s, '/'), s.trim_end_matches('/'));
        assert_eq!(last_part(s, '/'), s.rsplit('/').next().unwrap());
        let cut = s.split_once('/').map(|(a, b)| (a.to_string(), b.to_string()));
        assert_eq!(split_once(s, '/'), cut);
        assert_eq!(replace(s, '/', "--"), s.replace('/', "--"));
        assert_eq!(take_chars(s, 3), s.chars().take(3).collect::<String>());
    }
}

#[test]
fn parts_of_texts_are_found() {
    assert!(has_part("Ghostty.app/x", "Ghostty.app"));
    assert!(has_part("abc", ""));
    assert!(!has_part("ab", "abc"));
    assert!(has_prefix("-f", "-") && !has_prefix("", "-"));
    assert!(has_suffix("/bin/herdr", "/herdr") && !has_suffix("herdr", "/herdr"));
}

#[test]
fn words_and_lines_are_those_of_std() {
    for s in ["", "  1 ?? herdr  --x ", "a\r\nb\n\nc", "a\n", "\n", "\r\n\r", "x\u{2003}y"] {
        assert_eq!(split_words(s), s.split_whitespace().collect::<Vec<_>>());
        assert_eq!(split_lines(s), s.lines().collect::<Vec<_>>());
    }
}

#[test]
fn numbers_are_written_and_read_as_std_does() {
    for n in [0i64, 7, -1, 10, 4501, i64::MAX, i64::MIN] {
        assert_eq!(decimal(n), n.to_string());
        assert_eq!(parse_i64(&n.to_string()), Some(n));
    }
    assert_eq!(decimal_usize(usize::MAX), usize::MAX.to_string());
    for s in ["", "+", "-", "+5", "-0", "007", "1x", " 1", "9223372036854775808", "-9223372036854775809"] {
        assert_eq!(parse_i64(s), s.parse::<i64>().ok(), "{s}");
    }
    assert!(only_digits("0123456789") && !only_digits("12a") && !only_digits("１"));
}

#[test]
fn padding_counts_characters() {
    assert_eq!(pad("bob", 5), "bob  ");
    assert_eq!(pad("漢字", 4), "漢字  ");
    assert_eq!(pad("toolong", 3), "toolong");
    assert_eq!(format!("{:<16}", "alice"), pad("alice", 16));
}

#[test]
fn slices_are_counted_in_bytes() {
    for s in ["20260720-132207", "漢字かな", "", "a漢b"] {
        for from in 0..8 {
            for to in 0..14 {
                let want = s.get(from..to.max(from)).map(str::to_string);
                assert_eq!(slice_bytes(s, from, to.max(from)), want);
            }
        }
    }
    assert_eq!(slice_bytes("abc", 2, 1), None);
}

#[test]
fn lists_are_joined_and_grow_once() {
    let mut list = vec!["a".to_string()];
    push_new(&mut list, "b".to_string());
    push_new(&mut list, "a".to_string());
    assert_eq!(list, ["a", "b"]);
    assert_eq!(join(&list, ", "), "a, b");
    assert_eq!(join(&vec![], ", "), "");
}
