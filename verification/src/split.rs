//! Texts cut into words and lines.
use vstd::prelude::*;

use crate::text::{chars, from_chars, is_space, space, spaceless_start, position, lemma_position_at, texts};

verus! {

/// How many characters stand before the first white space of `s`.
pub open spec fn word_len(s: Seq<char>) -> nat
    decreases s.len(),
{
    if s.len() == 0 || is_space(s[0]) {
        0
    } else {
        1 + word_len(s.skip(1))
    }
}

proof fn lemma_word_len(s: Seq<char>)
    ensures
        word_len(s) <= s.len(),
        forall|j: int| 0 <= j < word_len(s) ==> !is_space(s[j]),
        word_len(s) < s.len() ==> is_space(s[word_len(s) as int]),
    decreases s.len(),
{
    if s.len() > 0 && !is_space(s[0]) {
        let rest = s.skip(1);
        lemma_word_len(rest);
        assert forall|j: int| 0 <= j < word_len(s) implies !is_space(s[j]) by {
            if j > 0 {
                assert(s[j] == rest[j - 1]);
            }
        }
    }
}

proof fn lemma_spaceless_len(s: Seq<char>)
    ensures
        spaceless_start(s).len() <= s.len(),
        spaceless_start(s).len() > 0 ==> !is_space(spaceless_start(s)[0]),
    decreases s.len(),
{
    if s.len() > 0 && is_space(s[0]) {
        lemma_spaceless_len(s.skip(1));
    }
}

/// The words of `s`: its longest runs of characters that are not white space.
pub open spec fn words(s: Seq<char>) -> Seq<Seq<char>>
    decreases s.len(),
    via words_decreases
{
    let rest = spaceless_start(s);
    if rest.len() == 0 {
        Seq::empty()
    } else {
        seq![rest.take(word_len(rest) as int)] + words(rest.skip(word_len(rest) as int))
    }
}

#[via_fn]
proof fn words_decreases(s: Seq<char>) {
    lemma_spaceless_len(s);
    let rest = spaceless_start(s);
    lemma_word_len(rest);
}

/// The words of `s`, in order.
pub fn split_words(s: &str) -> (r: Vec<String>)
    ensures
        texts(r@) == words(s@),
{
    let all = chars(s);
    let mut out: Vec<String> = Vec::new();
    let mut i: usize = 0;
    assert(s@.skip(0) =~= s@);
    assert(texts(out@) + words(s@) =~= words(s@));
    loop
        invariant
            all@ == s@,
            i <= all@.len(),
            texts(out@) + words(s@.skip(i as int)) == words(s@),
        ensures
            texts(out@) == words(s@),
        decreases all@.len() - i,
    {
        let ghost from = i;
        let ghost here = s@.skip(i as int);
        while i < all.len() && space(all[i])
            invariant
                all@ == s@,
                from <= i <= all@.len(),
                here == s@.skip(from as int),
                spaceless_start(here) == spaceless_start(s@.skip(i as int)),
            decreases all@.len() - i,
        {
            assert(s@.skip(i as int).skip(1) =~= s@.skip(i + 1));
            i += 1;
        }
        let ghost rest = s@.skip(i as int);
        assert(spaceless_start(here) == rest);
        if i == all.len() {
            assert(words(here) =~= Seq::empty());
            assert(texts(out@) + words(here) =~= texts(out@));
            break;
        }
        let start: usize = i;
        while i < all.len() && !space(all[i])
            invariant
                all@ == s@,
                start <= i <= all@.len(),
                rest == s@.skip(start as int),
                word_len(rest) == i - start + word_len(s@.skip(i as int)),
            decreases all@.len() - i,
        {
            assert(s@.skip(i as int).skip(1) =~= s@.skip(i + 1));
            i += 1;
        }
        assert(word_len(rest) == i - start);
        let word = from_chars(&all, start, i);
        let ghost earlier = texts(out@);
        proof {
            assert(word@ =~= rest.take(i - start));
            assert(rest.skip(i - start) =~= s@.skip(i as int));
            assert(words(here) == seq![word@] + words(s@.skip(i as int)));
        }
        out.push(word);
        proof {
            assert(texts(out@) =~= earlier.push(word@));
            assert(texts(out@) + words(s@.skip(i as int)) =~= earlier + words(here));
        }
    }
    out
}

/// A line without the carriage return at its end.
pub open spec fn without_return(s: Seq<char>) -> Seq<char> {
    if s.len() > 0 && s.last() == '\r' {
        s.drop_last()
    } else {
        s
    }
}

/// The lines of `s`. A line ends at a line feed, or a carriage return and a line
/// feed; what follows the last line feed is a line unless it is empty.
pub open spec fn lines(s: Seq<char>) -> Seq<Seq<char>>
    decreases s.len(),
    via lines_decreases
{
    let at = position(s, '\n');
    if s.len() == 0 {
        Seq::empty()
    } else if at < s.len() {
        seq![without_return(s.take(at))] + lines(s.skip(at + 1))
    } else {
        seq![s]
    }
}

#[via_fn]
proof fn lines_decreases(s: Seq<char>) {
    crate::text::lemma_position(s, '\n');
}

/// The lines of `s`, in order.
pub fn split_lines(s: &str) -> (r: Vec<String>)
    ensures
        texts(r@) == lines(s@),
{
    let all = chars(s);
    let mut out: Vec<String> = Vec::new();
    let mut i: usize = 0;
    assert(s@.skip(0) =~= s@);
    assert(texts(out@) + lines(s@) =~= lines(s@));
    while i < all.len()
        invariant
            all@ == s@,
            i <= all@.len(),
            texts(out@) + lines(s@.skip(i as int)) == lines(s@),
        decreases all@.len() - i,
    {
        let ghost here = s@.skip(i as int);
        let start: usize = i;
        while i < all.len() && all[i] != '\n'
            invariant
                all@ == s@,
                start <= i <= all@.len(),
                forall|j: int| start <= j < i ==> all@[j] != '\n',
            decreases all@.len() - i,
        {
            i += 1;
        }
        proof {
            assert forall|j: int| 0 <= j < i - start implies here[j] != '\n' by {
                assert(here[j] == all@[start + j]);
            }
            lemma_position_at(here, '\n', i - start);
        }
        let whole: bool = i < all.len();
        let end: usize = if whole && i > start && all[i - 1] == '\r' { i - 1 } else { i };
        let line = from_chars(&all, start, end);
        let ghost earlier = texts(out@);
        proof {
            let cut = here.take(i - start);
            if whole {
                assert(cut.len() > 0 ==> cut.last() == all@[i - 1]);
                assert(line@ =~= without_return(cut));
                assert(here.skip(i - start + 1) =~= s@.skip(i + 1));
                assert(lines(here) == seq![line@] + lines(s@.skip(i + 1)));
            } else {
                assert(line@ =~= here);
                assert(lines(here) == seq![line@]);
            }
        }
        out.push(line);
        assert(texts(out@) =~= earlier.push(line@));
        if whole {
            i += 1;
            assert(texts(out@) + lines(s@.skip(i as int)) =~= earlier + lines(here));
        } else {
            assert(s@.skip(i as int) =~= Seq::<char>::empty());
            assert(texts(out@) + lines(s@.skip(i as int)) =~= earlier + lines(here));
        }
    }
    assert(s@.skip(i as int) =~= Seq::<char>::empty());
    assert(texts(out@) + lines(s@.skip(i as int)) =~= texts(out@));
    out
}

/// The words of a text are what stands between white space: none is empty or holds
/// any; white space around a text changes nothing, and white space between two texts
/// parts them.
pub proof fn law_words(a: Seq<char>, c: char, b: Seq<char>)
    requires
        is_space(c),
    ensures
        words(a + seq![c] + b) == words(a) + words(b),
        forall|i: int|
            0 <= i < words(a).len() ==> (#[trigger] words(a)[i]).len() > 0 && forall|j: int|
                0 <= j < words(a)[i].len() ==> !is_space(#[trigger] words(a)[i][j]),
        a.len() > 0 && (forall|j: int| 0 <= j < a.len() ==> !is_space(#[trigger] a[j])) ==> words(a)
            == seq![a],
    decreases a.len(),
{
    let rest = spaceless_start(a);
    let all = a + seq![c] + b;
    lemma_spaceless_len(a);
    lemma_spaceless_joined(a, c, b);
    if rest.len() == 0 {
        assert(words(a) =~= Seq::empty());
        assert(words(all) == words(b));
        assert(words(a) + words(b) =~= words(b));
    } else {
        let n = word_len(rest) as int;
        lemma_word_len(rest);
        let longer = rest + seq![c] + b;
        assert(spaceless_start(all) == longer);
        lemma_word_len(longer);
        lemma_same_word(rest, c, b);
        assert(longer.take(n) =~= rest.take(n));
        let tail = rest.skip(n);
        assert(longer.skip(n) =~= tail + seq![c] + b);
        assert(n > 0);
        law_words(tail, c, b);
        assert(words(all) =~= seq![rest.take(n)] + (words(tail) + words(b)));
        assert(words(a) == seq![rest.take(n)] + words(tail));
        assert(words(all) =~= words(a) + words(b));
        assert forall|i: int| 0 <= i < words(a).len() implies (#[trigger] words(a)[i]).len() > 0
            && forall|j: int|
            0 <= j < words(a)[i].len() ==> !is_space(#[trigger] words(a)[i][j]) by {
            if i > 0 {
                assert(words(a)[i] == words(tail)[i - 1]);
            } else {
                assert(words(a)[0] == rest.take(n));
            }
        }
        if forall|j: int| 0 <= j < a.len() ==> !is_space(#[trigger] a[j]) {
            assert(rest == a);
            if n < a.len() {
                assert(is_space(rest[n]));
            }
            assert(tail =~= Seq::empty());
            assert(words(tail) =~= Seq::empty());
            assert(rest.take(n) =~= a);
            assert(words(a) =~= seq![a]);
        }
    }
}

proof fn lemma_spaceless_joined(a: Seq<char>, c: char, b: Seq<char>)
    requires
        is_space(c),
    ensures
        spaceless_start(a + seq![c] + b) == if spaceless_start(a).len() == 0 {
            spaceless_start(b)
        } else {
            spaceless_start(a) + seq![c] + b
        },
    decreases a.len(),
{
    let all = a + seq![c] + b;
    if a.len() == 0 {
        assert(all.skip(1) =~= b);
        assert(all[0] == c);
    } else if is_space(a[0]) {
        assert(all.skip(1) =~= a.skip(1) + seq![c] + b);
        lemma_spaceless_joined(a.skip(1), c, b);
    }
}

proof fn lemma_same_word(a: Seq<char>, c: char, b: Seq<char>)
    requires
        is_space(c),
    ensures
        word_len(a + seq![c] + b) == word_len(a),
    decreases a.len(),
{
    let all = a + seq![c] + b;
    if a.len() == 0 {
        assert(all[0] == c);
    } else if !is_space(a[0]) {
        assert(all.skip(1) =~= a.skip(1) + seq![c] + b);
        lemma_same_word(a.skip(1), c, b);
    }
}

/// The lines of a text end at each line feed, without a carriage return before it;
/// a last line without a line feed counts too, and as it is.
pub proof fn law_lines(a: Seq<char>, b: Seq<char>)
    requires
        !a.contains('\n'),
    ensures
        lines(a.push('\n') + b) == seq![without_return(a)] + lines(b),
        a.len() > 0 ==> lines(a) == seq![a],
        lines(Seq::empty()).len() == 0,
        a.len() > 0 && a.last() == '\r' ==> without_return(a).push('\r') == a,
        !(a.len() > 0 && a.last() == '\r') ==> without_return(a) == a,
{
    let all = a.push('\n') + b;
    let at = a.len() as int;
    assert forall|j: int| 0 <= j < at implies all[j] != '\n' by {
        assert(a[j] == all[j]);
        assert(a.contains(a[j]));
    }
    crate::text::lemma_position_at(all, '\n', at);
    assert(all.take(at) =~= a);
    assert(all.skip(at + 1) =~= b);
    crate::text::lemma_position(a, '\n');
    if a.len() > 0 && a.last() == '\r' {
        assert(a.drop_last().push('\r') =~= a);
    }
}

} // verus!
