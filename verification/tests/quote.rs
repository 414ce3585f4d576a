use gh_review_insight::quote::{applescript_escape, sanitize_file_stem, sh_quote};

#[test]
fn pr_key_becomes_a_safe_file_stem() {
    assert_eq!(sanitize_file_stem("everytv/delish-web2#4501"), "everytv-delish-web2-4501");
}

#[test]
fn shell_and_applescript_quoting() {
    assert_eq!(sh_quote("a b"), "'a b'");
    assert_eq!(sh_quote("it's"), r"'it'\''s'");
    assert_eq!(applescript_escape(r#"say "hi" \o/"#), r#"say \"hi\" \\o/"#);
}

#[test]
fn every_unsafe_character_of_a_stem_is_replaced() {
    assert_eq!(sanitize_file_stem("a_b.c-D9"), "a_b.c-D9");
    assert_eq!(sanitize_file_stem("é/ 漢:"), "-----");
    assert_eq!(sanitize_file_stem(""), "");
    let once = sanitize_file_stem("owner/repo#1");
    assert_eq!(sanitize_file_stem(&once), once);
}

fn shell_word(quoted: &str) -> String {
    let mut out = String::new();
    let mut inside = false;
    let mut rest = quoted.chars();
    while let Some(c) = rest.next() {
        match (c, inside) {
            ('\'', _) => inside = !inside,
            (c, true) => out.push(c),
            ('\\', false) => out.push(rest.next().unwrap()),
            (c, false) => panic!("bare {c}"),
        }
    }
    assert!(!inside);
    out
}

#[test]
fn the_shell_reads_quoted_texts_back() {
    for text in ["", "plain", "it's", "'", "''", r"a\b 'c' $d `e`", "日本語"] {
        assert_eq!(shell_word(&sh_quote(text)), text);
    }
}

#[test]
fn escaped_script_texts_hold_no_bare_quote() {
    for text in ["", "\"", "\\", "\\\"", "a\"b\\c", "日本語"] {
        let escaped = applescript_escape(text);
        let mut out = String::new();
        let mut rest = escaped.chars();
        while let Some(c) = rest.next() {
            assert_ne!(c, '"');
            out.push(if c == '\\' { rest.next().unwrap() } else { c });
        }
        assert_eq!(out, text);
    }
}
