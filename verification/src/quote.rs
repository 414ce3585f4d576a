//! Texts made safe for file names, for the shell and for AppleScript.
use vstd::prelude::*;

use crate::text::{cat3, chars, replace, with_replaced};

verus! {

/// Whether a character may stand in a file stem as it is.
pub open spec fn is_stem_char(c: char) -> bool {
    let n = c as u32;
    ||| 'a' as u32 <= n <= 'z' as u32
    ||| 'A' as u32 <= n <= 'Z' as u32
    ||| '0' as u32 <= n <= '9' as u32
    ||| c == '-'
    ||| c == '_'
    ||| c == '.'
}

/// The filesystem-safe stem of a key: every other character becomes `-`.
pub open spec fn safe_stem(key: Seq<char>) -> Seq<char> {
    key.map_values(
        |c: char|
            if is_stem_char(c) {
                c
            } else {
                '-'
            },
    )
}

fn stem_char(c: char) -> (r: bool)
    ensures
        r == is_stem_char(c),
{
    let n: u32 = c as u32;
    let lower: bool = 'a' as u32 <= n && n <= 'z' as u32;
    let upper: bool = 'A' as u32 <= n && n <= 'Z' as u32;
    let number: bool = '0' as u32 <= n && n <= '9' as u32;
    lower || upper || number || c == '-' || c == '_' || c == '.'
}

/// `owner/repo#42` -> `owner-repo-42` (filesystem-safe stem).
pub fn sanitize_file_stem(key: &str) -> (r: String)
    ensures
        r@ == safe_stem(key@),
{
    let all = chars(key);
    let mut out = String::new();
    for i in 0..all.len()
        invariant
            all@ == key@,
            out@ == safe_stem(key@).take(i as int),
    {
        let ghost earlier = out@;
        let c: char = if stem_char(all[i]) {
            all[i]
        } else {
            '-'
        };
        out.push(c);
        assert(safe_stem(key@)[i as int] == c);
        assert(out@ =~= earlier.push(c));
        assert(out@ =~= safe_stem(key@).take(i + 1));
    }
    assert(safe_stem(key@).take(key@.len() as int) =~= safe_stem(key@));
    out
}

/// A stem is as long as its key, holds safe characters only, and is its own stem.
pub proof fn law_stem_is_safe(key: Seq<char>)
    ensures
        safe_stem(key).len() == key.len(),
        forall|i: int| 0 <= i < key.len() ==> is_stem_char(#[trigger] safe_stem(key)[i]),
        safe_stem(safe_stem(key)) == safe_stem(key),
{
    assert(safe_stem(safe_stem(key)) =~= safe_stem(key));
}

/// A text quoted for the shell: in single quotes, each single quote in it written
/// as `'\''`.
pub open spec fn sh_quoted(s: Seq<char>) -> Seq<char> {
    "'"@ + with_replaced(s, '\'', "'\\''"@) + "'"@
}

/// Quote a string for /bin/sh (single quotes, embedded quotes escaped).
pub fn sh_quote(value: &str) -> (r: String)
    ensures
        r@ == sh_quoted(value@),
{
    cat3("'", replace(value, '\'', "'\\''").as_str(), "'")
}

/// The word that the shell reads from `s`, where `inside` says whether a single quote
/// is open at its start. Outside quotes a backslash stands for the
/// character after it, and only quoted or escaped characters are read; anything
/// else there, or an open end, is no word of this form.
pub open spec fn sh_word(s: Seq<char>, inside: bool) -> Option<Seq<char>>
    decreases s.len(),
{
    if s.len() == 0 {
        if inside {
            None
        } else {
            Some(Seq::empty())
        }
    } else if s[0] == '\'' {
        sh_word(s.skip(1), !inside)
    } else if inside {
        match sh_word(s.skip(1), true) {
            Some(rest) => Some(seq![s[0]] + rest),
            None => None,
        }
    } else if s[0] == '\\' && s.len() > 1 {
        match sh_word(s.skip(2), false) {
            Some(rest) => Some(seq![s[1]] + rest),
            None => None,
        }
    } else {
        None
    }
}

proof fn lemma_replaced_first(s: Seq<char>, c: char, by: Seq<char>)
    requires
        s.len() > 0,
    ensures
        with_replaced(s, c, by) == (if s[0] == c {
            by
        } else {
            seq![s[0]]
        }) + with_replaced(s.skip(1), c, by),
    decreases s.len(),
{
    let head = if s[0] == c {
        by
    } else {
        seq![s[0]]
    };
    if s.len() == 1 {
        assert(s.drop_last() =~= Seq::empty());
        assert(s.skip(1) =~= Seq::empty());
        assert(with_replaced(s.skip(1), c, by) =~= Seq::empty());
        assert(with_replaced(s, c, by) =~= head + with_replaced(s.skip(1), c, by));
    } else {
        let shorter = s.drop_last();
        lemma_replaced_first(shorter, c, by);
        assert(shorter.skip(1) =~= s.skip(1).drop_last());
        assert(s.skip(1).last() == s.last());
        assert(with_replaced(s, c, by) =~= head + with_replaced(s.skip(1), c, by));
    }
}

/// The shell reads a quoted text back as the text itself.
pub proof fn law_shell_reads_back(s: Seq<char>)
    ensures
        sh_word(sh_quoted(s), false) == Some(s),
{
    reveal_strlit("'");
    let body = with_replaced(s, '\'', "'\\''"@) + "'"@;
    assert(sh_quoted(s) =~= seq!['\''] + body);
    assert(sh_quoted(s).skip(1) =~= body);
    lemma_quoted_body(s);
}

proof fn lemma_quoted_body(s: Seq<char>)
    ensures
        sh_word(with_replaced(s, '\'', "'\\''"@) + "'"@, true) == Some(s),
    decreases s.len(),
{
    reveal_strlit("'");
    reveal_strlit("'\\''");
    let by = "'\\''"@;
    let end = "'"@;
    let body = with_replaced(s, '\'', by) + end;
    if s.len() == 0 {
        assert(body =~= seq!['\'']);
        assert(body.skip(1) =~= Seq::empty());
        assert(sh_word(body.skip(1), false) == Some(Seq::<char>::empty()));
        assert(s =~= Seq::empty());
    } else {
        let rest = with_replaced(s.skip(1), '\'', by) + end;
        lemma_replaced_first(s, '\'', by);
        lemma_quoted_body(s.skip(1));
        assert(seq![s[0]] + s.skip(1) =~= s);
        if s[0] == '\'' {
            assert(by =~= seq!['\'', '\\', '\'', '\'']);
            assert(body =~= seq!['\'', '\\', '\'', '\''] + rest);
            let b1 = body.skip(1);
            let b3 = b1.skip(2);
            let b4 = b3.skip(1);
            assert(b4 =~= rest);
            assert(b3[0] == '\'');
            assert(b1[0] == '\\' && b1[1] == '\'');
            assert(sh_word(b3, false) == sh_word(b4, true));
            assert(sh_word(b1, false) == Some(seq!['\''] + s.skip(1)));
        } else {
            assert(body =~= seq![s[0]] + rest);
            assert(body.skip(1) =~= rest);
        }
    }
}

/// A text escaped for an AppleScript literal: a backslash before each backslash
/// and each double quote.
pub open spec fn script_escaped(s: Seq<char>) -> Seq<char> {
    with_replaced(with_replaced(s, '\\', "\\\\"@), '"', "\\\""@)
}

/// Escape a string for embedding in a double-quoted AppleScript literal.
pub fn applescript_escape(value: &str) -> (r: String)
    ensures
        r@ == script_escaped(value@),
{
    replace(replace(value, '\\', "\\\\").as_str(), '"', "\\\"")
}

/// The text that a double-quoted literal holds: a backslash stands for the
/// character after it, and a double quote without one would end the literal.
pub open spec fn script_literal(s: Seq<char>) -> Option<Seq<char>>
    decreases s.len(),
{
    if s.len() == 0 {
        Some(Seq::empty())
    } else if s[0] == '"' || (s[0] == '\\' && s.len() == 1) {
        None
    } else if s[0] == '\\' {
        match script_literal(s.skip(2)) {
            Some(rest) => Some(seq![s[1]] + rest),
            None => None,
        }
    } else {
        match script_literal(s.skip(1)) {
            Some(rest) => Some(seq![s[0]] + rest),
            None => None,
        }
    }
}

/// An escaped text stands whole inside a double-quoted literal and is read back
/// as the text itself.
pub proof fn law_script_reads_back(s: Seq<char>)
    ensures
        script_literal(script_escaped(s)) == Some(s),
    decreases s.len(),
{
    reveal_strlit("\\\\");
    reveal_strlit("\\\"");
    let slash = "\\\\"@;
    let mark = "\\\""@;
    assert(slash =~= seq!['\\', '\\']);
    assert(mark =~= seq!['\\', '"']);
    let once = with_replaced(s, '\\', slash);
    if s.len() == 0 {
        assert(once =~= Seq::empty());
        assert(s =~= Seq::empty());
    } else {
        let rest = s.skip(1);
        lemma_replaced_first(s, '\\', slash);
        law_script_reads_back(rest);
        let tail = with_replaced(rest, '\\', slash);
        let out = script_escaped(rest);
        assert(seq![s[0]] + rest =~= s);
        if s[0] == '\\' {
            assert(once =~= seq!['\\', '\\'] + tail);
            lemma_replaced_first(once, '"', mark);
            let second = once.skip(1);
            assert(second =~= seq!['\\'] + tail);
            lemma_replaced_first(second, '"', mark);
            assert(second.skip(1) =~= tail);
            assert(script_escaped(s) =~= seq!['\\', '\\'] + out);
            assert(script_escaped(s).skip(2) =~= out);
        } else {
            assert(once =~= seq![s[0]] + tail);
            lemma_replaced_first(once, '"', mark);
            assert(once.skip(1) =~= tail);
            if s[0] == '"' {
                assert(script_escaped(s) =~= seq!['\\', '"'] + out);
                assert(script_escaped(s).skip(2) =~= out);
            } else {
                assert(script_escaped(s) =~= seq![s[0]] + out);
                assert(script_escaped(s).skip(1) =~= out);
            }
        }
    }
}

/// A name for a file keeps letters, digits, dots, underscores and hyphens, and has a
/// hyphen in place of anything else.
pub proof fn law_stem_keeps(key: Seq<char>, i: int)
    requires
        0 <= i < key.len(),
    ensures
        ({
            let c = key[i];
            let n = c as u32;
            let kept = 'a' as u32 <= n <= 'z' as u32 || 'A' as u32 <= n <= 'Z' as u32 || '0' as u32
                <= n <= '9' as u32 || c == '.' || c == '_' || c == '-';
            safe_stem(key)[i] == if kept {
                c
            } else {
                '-'
            }
        }),
{
}

/// A quoted text stands between single quotes as it is, where it has none itself; a
/// single quote parts it in two, which are quoted on their own, with an escaped quote
/// between them.
pub proof fn law_quoted(a: Seq<char>, b: Seq<char>)
    ensures
        !a.contains('\'') ==> sh_quoted(a) == seq!['\''] + a + seq!['\''],
        sh_quoted(a + seq!['\''] + b) == sh_quoted(a) + seq!['\\', '\''] + sh_quoted(b),
{
    reveal_strlit("'");
    reveal_strlit("'\\''");
    let q = '\'';
    let by = "'\\''"@;
    assert("'"@ =~= seq![q]);
    if !a.contains(q) {
        lemma_nothing_replaced(a, q, by);
    }
    crate::text::law_replaced(a + seq![q], b, q, q, by);
    crate::text::law_replaced(a, seq![q], q, q, by);
    assert(by =~= seq![q, '\\', q, q]);
    assert(sh_quoted(a + seq![q] + b) =~= sh_quoted(a) + seq!['\\', q] + sh_quoted(b));
}

proof fn lemma_nothing_replaced(s: Seq<char>, c: char, by: Seq<char>)
    requires
        !s.contains(c),
    ensures
        with_replaced(s, c, by) == s,
    decreases s.len(),
{
    if s.len() > 0 {
        let rest = s.drop_last();
        assert(!rest.contains(c)) by {
            if rest.contains(c) {
                let i = choose|i: int| 0 <= i < rest.len() && rest[i] == c;
                assert(s[i] == c);
            }
        }
        assert(s[s.len() - 1] == s.last());
        lemma_nothing_replaced(rest, c, by);
        assert(with_replaced(s, c, by) =~= s);
    }
}

/// In a script a text stands as it is, but for a backslash before each double quote and
/// each backslash.
pub proof fn law_script_escaped(a: Seq<char>, b: Seq<char>, c: char)
    ensures
        script_escaped(a + b) == script_escaped(a) + script_escaped(b),
        script_escaped(seq!['"']) == seq!['\\', '"'],
        script_escaped(seq!['\\']) == seq!['\\', '\\'],
        c != '"' && c != '\\' ==> script_escaped(seq![c]) == seq![c],
{
    reveal_strlit("\\\\");
    reveal_strlit("\\\"");
    let slash = '\\';
    let two = "\\\\"@;
    let quote = "\\\""@;
    assert(two =~= seq![slash, slash]);
    assert(quote =~= seq![slash, '"']);
    crate::text::law_replaced(a, b, c, slash, two);
    crate::text::law_replaced(a, b, '"', slash, two);
    crate::text::law_replaced(
        with_replaced(a, slash, two),
        with_replaced(b, slash, two),
        c,
        '"',
        quote,
    );
    crate::text::law_replaced(seq![slash], seq![slash], slash, '"', quote);
    assert(seq![slash] + seq![slash] =~= two);
    assert(script_escaped(seq![slash]) =~= seq![slash, slash]);
}

} // verus!
