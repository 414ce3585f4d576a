//! Text operations on `&str`, each stated over the sequence of characters.
use vstd::prelude::*;
use vstd::utf8::{
    decode_utf8, encode_utf8, encode_utf8_decode_utf8, encode_utf8_valid_utf8, is_char_boundary,
    is_char_boundary_iff_not_is_continuation_byte, is_char_boundary_start_end_of_seq,
    valid_utf8_split,
};

verus! {

/// `String::push` appends the given character to the end of the text.
pub assume_specification[ String::push ](s: &mut String, c: char)
    ensures
        final(s)@ == old(s)@.push(c),
;

/// Whether all characters of a text are ASCII.
pub open spec fn all_ascii(s: Seq<char>) -> bool {
    forall|i: int| 0 <= i < s.len() ==> (#[trigger] s[i]) as u32 <= 0x7f
}

/// Whether `c` is one of the letters `A` to `Z`.
pub open spec fn is_ascii_capital(c: char) -> bool {
    'A' as u32 <= c as u32 <= 'Z' as u32
}

/// `c` with the letters `A` to `Z` mapped to `a` to `z`.
pub open spec fn ascii_small(c: char) -> char {
    if is_ascii_capital(c) {
        (c as u32 + 32) as char
    } else {
        c
    }
}

/// `s` with the letters `A` to `Z` mapped to `a` to `z`.
pub open spec fn ascii_lowered(s: Seq<char>) -> Seq<char> {
    s.map_values(|c: char| ascii_small(c))
}

/// Mapping the letters `A` to `Z` leaves none of them, keeps the length, and done
/// twice gives the same as once.
pub proof fn lemma_ascii_lowered(s: Seq<char>)
    ensures
        ascii_lowered(s).len() == s.len(),
        forall|i: int| 0 <= i < s.len() ==> !is_ascii_capital(#[trigger] ascii_lowered(s)[i]),
        ascii_lowered(ascii_lowered(s)) == ascii_lowered(s),
        all_ascii(s) ==> all_ascii(ascii_lowered(s)),
{
    assert forall|i: int| 0 <= i < s.len() implies !is_ascii_capital(
        #[trigger] ascii_lowered(s)[i],
    ) by {
        assert(ascii_lowered(s)[i] == ascii_small(s[i]));
    }
    assert(ascii_lowered(ascii_lowered(s)) =~= ascii_lowered(s));
    if all_ascii(s) {
        assert forall|i: int| 0 <= i < s.len() implies (#[trigger] ascii_lowered(s)[i]) as u32
            <= 0x7f by {
            assert(s[i] as u32 <= 0x7f);
        }
    }
}

/// The lower-case form of a text, as `str::to_lowercase` gives it.
pub uninterp spec fn lowercase(s: Seq<char>) -> Seq<char>;

/// `str::to_lowercase`: the Unicode lower-case form of `s`, a function of its
/// characters alone. Of an ASCII text it is the text with `A` to `Z` mapped to `a`
/// to `z`; what it is of other texts is left to the name.
#[verifier::external_body]
pub(crate) fn to_lower(s: &str) -> (r: String)
    ensures
        r@ == lowercase(s@),
        all_ascii(s@) ==> r@ == ascii_lowered(s@),
{
    s.to_lowercase()
}

/// The texts that a list of strings holds.
pub open spec fn texts(list: Seq<String>) -> Seq<Seq<char>> {
    list.map_values(|s: String| s@)
}

/// Whether two texts have the same characters.
pub fn same(a: &str, b: &str) -> (r: bool)
    ensures
        r == (a@ == b@),
{
    a.to_owned() == b.to_owned()
}

/// The characters of a text, in order.
pub fn chars(s: &str) -> (r: Vec<char>)
    ensures
        r@ == s@,
{
    let mut out: Vec<char> = Vec::new();
    for c in it: s.chars()
        invariant
            out@ == s@.take(it.index() as int),
            it.seq() == s@,
    {
        out.push(c);
    }
    out
}

/// The text made of the characters `from..to` of `all`.
pub fn from_chars(all: &Vec<char>, from: usize, to: usize) -> (r: String)
    requires
        from <= to <= all@.len(),
    ensures
        r@ == all@.subrange(from as int, to as int),
{
    let mut out = String::new();
    let mut i: usize = from;
    while i < to
        invariant
            from <= i <= to <= all@.len(),
            out@ == all@.subrange(from as int, i as int),
        decreases to - i,
    {
        out.push(all[i]);
        i += 1;
        assert(out@ =~= all@.subrange(from as int, i as int));
    }
    out
}

/// `a` followed by `b`.
pub fn cat(a: &str, b: &str) -> (r: String)
    ensures
        r@ == a@ + b@,
{
    let mut out = String::new();
    out.append(a);
    out.append(b);
    assert(out@ =~= a@ + b@);
    out
}

/// `a`, `b` and `c`, one after the other.
pub fn cat3(a: &str, b: &str, c: &str) -> (r: String)
    ensures
        r@ == a@ + b@ + c@,
{
    cat(cat(a, b).as_str(), c)
}

/// A copy of a list of texts.
pub fn copy_texts(list: &Vec<String>) -> (r: Vec<String>)
    ensures
        r@ == list@,
{
    let mut out: Vec<String> = Vec::new();
    for i in 0..list.len()
        invariant
            out@ == list@.take(i as int),
    {
        out.push(list[i].clone());
        assert(out@ =~= list@.take(i + 1));
    }
    assert(list@.take(list@.len() as int) =~= list@);
    out
}

/// Whether `list` holds a text with the characters of `s`.
pub fn has_text(list: &Vec<String>, s: &str) -> (r: bool)
    ensures
        r == texts(list@).contains(s@),
{
    for i in 0..list.len()
        invariant
            forall|j: int| 0 <= j < i ==> list@[j]@ != s@,
    {
        if same(list[i].as_str(), s) {
            assert(texts(list@)[i as int] == s@);
            return true;
        }
    }
    assert forall|j: int| 0 <= j < texts(list@).len() implies texts(list@)[j] != s@ by {
        assert(texts(list@)[j] == list@[j]@);
    }
    false
}

/// Whether the character `c` occurs in `s`.
pub fn has_char(s: &str, c: char) -> (r: bool)
    ensures
        r == s@.contains(c),
{
    let all = chars(s);
    for i in 0..all.len()
        invariant
            all@ == s@,
            forall|j: int| 0 <= j < i ==> all@[j] != c,
    {
        if all[i] == c {
            assert(s@[i as int] == c);
            return true;
        }
    }
    false
}

/// Whether `needle` stands in `s` at position `at`.
pub open spec fn stands_at(needle: Seq<char>, s: Seq<char>, at: int) -> bool {
    &&& 0 <= at
    &&& at + needle.len() <= s.len()
    &&& s.subrange(at, at + needle.len()) == needle
}

/// Whether `needle` occurs somewhere in `s`.
pub open spec fn occurs(needle: Seq<char>, s: Seq<char>) -> bool {
    exists|at: int| stands_at(needle, s, at)
}

fn match_at(needle: &Vec<char>, all: &Vec<char>, at: usize) -> (r: bool)
    requires
        at + needle@.len() <= all@.len(),
    ensures
        r == stands_at(needle@, all@, at as int),
{
    let size: usize = all.len();
    let mut i: usize = 0;
    while i < needle.len()
        invariant
            size == all@.len(),
            i <= needle@.len(),
            at + needle@.len() <= size,
            forall|j: int| 0 <= j < i ==> all@[at + j] == needle@[j],
        decreases needle@.len() - i,
    {
        if all[at + i] != needle[i] {
            proof {
                let cut = all@.subrange(at as int, at + needle@.len());
                assert(cut[i as int] == all@[at + i]);
            }
            return false;
        }
        i += 1;
    }
    assert(all@.subrange(at as int, at + needle@.len()) =~= needle@);
    true
}

/// Whether `needle` occurs in `s`.
pub fn has_part(s: &str, needle: &str) -> (r: bool)
    ensures
        r == occurs(needle@, s@),
{
    let all = chars(s);
    let part = chars(needle);
    if part.len() > all.len() {
        return false;
    }
    let last: usize = all.len() - part.len();
    let mut at: usize = 0;
    while at <= last
        invariant
            all@ == s@,
            part@ == needle@,
            last + part@.len() == all@.len(),
            at <= last + 1,
            forall|j: int| 0 <= j < at ==> !stands_at(needle@, s@, j),
        decreases last + 1 - at,
    {
        if match_at(&part, &all, at) {
            return true;
        }
        if at == last {
            assert forall|j: int| !stands_at(needle@, s@, j) by {}
            return false;
        }
        at += 1;
    }
    false
}

/// Whether `s` begins with `prefix`.
pub fn has_prefix(s: &str, prefix: &str) -> (r: bool)
    ensures
        r == prefix@.is_prefix_of(s@),
{
    let all = chars(s);
    let part = chars(prefix);
    if part.len() > all.len() {
        return false;
    }
    match_at(&part, &all, 0)
}

/// Whether `s` ends with `suffix`.
pub fn has_suffix(s: &str, suffix: &str) -> (r: bool)
    ensures
        r == suffix@.is_suffix_of(s@),
{
    let all = chars(s);
    let part = chars(suffix);
    if part.len() > all.len() {
        return false;
    }
    match_at(&part, &all, all.len() - part.len())
}

/// `s` without the leading characters equal to `c`.
pub open spec fn trimmed_start(s: Seq<char>, c: char) -> Seq<char>
    decreases s.len(),
{
    if s.len() > 0 && s[0] == c {
        trimmed_start(s.skip(1), c)
    } else {
        s
    }
}

/// `s` without the trailing characters equal to `c`.
pub open spec fn trimmed_end(s: Seq<char>, c: char) -> Seq<char>
    decreases s.len(),
{
    if s.len() > 0 && s.last() == c {
        trimmed_end(s.drop_last(), c)
    } else {
        s
    }
}

/// `s` without the leading characters equal to `c`.
pub fn trim_start(s: &str, c: char) -> (r: String)
    ensures
        r@ == trimmed_start(s@, c),
{
    let all = chars(s);
    let mut i: usize = 0;
    assert(s@.skip(0) =~= s@);
    while i < all.len() && all[i] == c
        invariant
            all@ == s@,
            i <= all@.len(),
            trimmed_start(s@, c) == trimmed_start(s@.skip(i as int), c),
        decreases all@.len() - i,
    {
        assert(s@.skip(i as int).skip(1) =~= s@.skip(i + 1));
        i += 1;
    }
    assert(s@.skip(i as int) =~= s@.subrange(i as int, s@.len() as int));
    from_chars(&all, i, all.len())
}

/// `s` without the trailing characters equal to `c`.
pub fn trim_end(s: &str, c: char) -> (r: String)
    ensures
        r@ == trimmed_end(s@, c),
{
    let all = chars(s);
    let mut n: usize = all.len();
    assert(s@.take(n as int) =~= s@);
    while n > 0 && all[n - 1] == c
        invariant
            all@ == s@,
            n <= all@.len(),
            trimmed_end(s@, c) == trimmed_end(s@.take(n as int), c),
        decreases n,
    {
        assert(s@.take(n as int).drop_last() =~= s@.take(n - 1));
        n -= 1;
    }
    assert(s@.take(n as int) =~= s@.subrange(0, n as int));
    from_chars(&all, 0, n)
}

/// Whether `c` is white space: the characters with the Unicode property
/// `White_Space`.
pub open spec fn is_space(c: char) -> bool {
    let n = c as u32;
    ||| 0x09 <= n <= 0x0d
    ||| n == 0x20
    ||| n == 0x85
    ||| n == 0xa0
    ||| n == 0x1680
    ||| 0x2000 <= n <= 0x200a
    ||| n == 0x2028
    ||| n == 0x2029
    ||| n == 0x202f
    ||| n == 0x205f
    ||| n == 0x3000
}

/// Whether `c` is white space.
pub fn space(c: char) -> (r: bool)
    ensures
        r == is_space(c),
{
    let n: u32 = c as u32;
    (0x09 <= n && n <= 0x0d) || n == 0x20 || n == 0x85 || n == 0xa0 || n == 0x1680
        || (0x2000 <= n && n <= 0x200a) || n == 0x2028 || n == 0x2029 || n == 0x202f
        || n == 0x205f || n == 0x3000
}

/// `s` without leading white space.
pub open spec fn spaceless_start(s: Seq<char>) -> Seq<char>
    decreases s.len(),
{
    if s.len() > 0 && is_space(s[0]) {
        spaceless_start(s.skip(1))
    } else {
        s
    }
}

/// `s` without trailing white space.
pub open spec fn spaceless_end(s: Seq<char>) -> Seq<char>
    decreases s.len(),
{
    if s.len() > 0 && is_space(s.last()) {
        spaceless_end(s.drop_last())
    } else {
        s
    }
}

/// `s` without white space on either side.
pub open spec fn trimmed(s: Seq<char>) -> Seq<char> {
    spaceless_end(spaceless_start(s))
}

/// `s` without white space on either side.
pub fn trim(s: &str) -> (r: String)
    ensures
        r@ == trimmed(s@),
{
    let all = chars(s);
    let mut i: usize = 0;
    assert(s@.skip(0) =~= s@);
    while i < all.len() && space(all[i])
        invariant
            all@ == s@,
            i <= all@.len(),
            spaceless_start(s@) == spaceless_start(s@.skip(i as int)),
        decreases all@.len() - i,
    {
        assert(s@.skip(i as int).skip(1) =~= s@.skip(i + 1));
        i += 1;
    }
    let ghost head = s@.skip(i as int);
    assert(spaceless_start(s@) == head);
    let mut n: usize = all.len();
    assert(head.take(n - i) =~= head);
    while n > i && space(all[n - 1])
        invariant
            all@ == s@,
            i <= n <= all@.len(),
            head == s@.skip(i as int),
            spaceless_end(head) == spaceless_end(head.take(n - i)),
        decreases n,
    {
        assert(head.take(n - i).drop_last() =~= head.take(n - i - 1));
        n -= 1;
    }
    assert(head.take(n - i) =~= s@.subrange(i as int, n as int));
    from_chars(&all, i, n)
}

/// The first position of `c` in `s`, or the length of `s`.
pub open spec fn position(s: Seq<char>, c: char) -> int
    decreases s.len(),
{
    if s.len() == 0 || s[0] == c {
        0
    } else {
        1 + position(s.skip(1), c)
    }
}

/// `position` is the first place where `c` stands.
pub proof fn lemma_position(s: Seq<char>, c: char)
    ensures
        0 <= position(s, c) <= s.len(),
        forall|j: int| 0 <= j < position(s, c) ==> s[j] != c,
        position(s, c) < s.len() ==> s[position(s, c)] == c,
        position(s, c) < s.len() <==> s.contains(c),
    decreases s.len(),
{
    if s.len() > 0 && s[0] != c {
        let rest = s.skip(1);
        lemma_position(rest, c);
        assert forall|j: int| 0 <= j < position(s, c) implies s[j] != c by {
            if j > 0 {
                assert(s[j] == rest[j - 1]);
            }
        }
        if s.contains(c) {
            let j = choose|j: int| 0 <= j < s.len() && s[j] == c;
            assert(rest[j - 1] == c);
        }
    }
}

/// Where `c` first stands is the only place with no `c` before it.
pub proof fn lemma_position_at(s: Seq<char>, c: char, at: int)
    requires
        0 <= at <= s.len(),
        forall|j: int| 0 <= j < at ==> s[j] != c,
        at < s.len() ==> s[at] == c,
    ensures
        position(s, c) == at,
{
    lemma_position(s, c);
}

/// The first position of `c` in `all` from `from` on, or the length of `all`.
fn find_from(all: &Vec<char>, c: char, from: usize) -> (r: usize)
    requires
        from <= all@.len(),
    ensures
        from <= r <= all@.len(),
        r - from == position(all@.skip(from as int), c),
{
    let mut i: usize = from;
    while i < all.len() && all[i] != c
        invariant
            from <= i <= all@.len(),
            forall|j: int| from <= j < i ==> all@[j] != c,
        decreases all@.len() - i,
    {
        i += 1;
    }
    proof {
        let rest = all@.skip(from as int);
        assert forall|j: int| 0 <= j < i - from implies rest[j] != c by {
            assert(rest[j] == all@[from + j]);
        }
        lemma_position_at(rest, c, i - from);
    }
    i
}

/// What stands before and after the first `c` of `s`.
pub open spec fn cut_once(s: Seq<char>, c: char) -> Option<(Seq<char>, Seq<char>)> {
    let at = position(s, c);
    if at < s.len() {
        Some((s.take(at), s.skip(at + 1)))
    } else {
        None
    }
}

/// What stands before and after the first `c` of `s`; none where `s` has no `c`.
pub fn split_once(s: &str, c: char) -> (r: Option<(String, String)>)
    ensures
        match r {
            Some(parts) => cut_once(s@, c) == Some((parts.0@, parts.1@)),
            None => cut_once(s@, c) is None,
        },
{
    let all = chars(s);
    assert(all@.skip(0) =~= s@);
    let at = find_from(&all, c, 0);
    if at < all.len() {
        let head = from_chars(&all, 0, at);
        let tail = from_chars(&all, at + 1, all.len());
        assert(head@ =~= s@.take(at as int));
        assert(tail@ =~= s@.skip(at + 1));
        Some((head, tail))
    } else {
        None
    }
}

/// What stands after the last `c` of `s`; all of `s` where it has no `c`.
pub open spec fn after_last(s: Seq<char>, c: char) -> Seq<char>
    decreases s.len(),
{
    if s.len() == 0 || s.last() == c {
        Seq::empty()
    } else {
        after_last(s.drop_last(), c).push(s.last())
    }
}

/// `after_last` is a suffix without `c`, cut at a `c` or at the start.
pub proof fn lemma_after_last(s: Seq<char>, c: char)
    ensures
        ({
            let tail = after_last(s, c);
            let at = s.len() - tail.len();
            &&& 0 <= at
            &&& tail == s.skip(at)
            &&& !tail.contains(c)
            &&& at > 0 ==> s[at - 1] == c
        }),
    decreases s.len(),
{
    if s.len() > 0 && s.last() != c {
        lemma_after_last(s.drop_last(), c);
        let tail = after_last(s, c);
        let at = s.len() - tail.len();
        assert(tail =~= s.skip(at));
        let shorter = after_last(s.drop_last(), c);
        assert forall|j: int| 0 <= j < tail.len() implies tail[j] != c by {
            if j < shorter.len() {
                assert(tail[j] == shorter[j]);
            }
        }
    } else {
        assert(s.skip(s.len() as int) =~= Seq::empty());
    }
}

/// What stands after the last `c` of `s`; all of `s` where it has no `c`.
pub fn last_part(s: &str, c: char) -> (r: String)
    ensures
        r@ == after_last(s@, c),
{
    let all = chars(s);
    let mut at: usize = all.len();
    assert(s@.skip(at as int) =~= Seq::<char>::empty());
    while at > 0 && all[at - 1] != c
        invariant
            all@ == s@,
            at <= all@.len(),
            forall|j: int| at <= j < all@.len() ==> all@[j] != c,
        decreases at,
    {
        at -= 1;
    }
    proof {
        lemma_after_last(s@, c);
        let tail = after_last(s@, c);
        let cut = s@.len() - tail.len();
        if cut < at {
            assert(tail[at - 1 - cut] == s@[at - 1]);
            assert(tail.contains(c));
        }
        assert(s@.skip(at as int) =~= s@.subrange(at as int, s@.len() as int));
    }
    from_chars(&all, at, all.len())
}

/// `s` with each `c` replaced by `by`.
pub open spec fn with_replaced(s: Seq<char>, c: char, by: Seq<char>) -> Seq<char>
    decreases s.len(),
{
    if s.len() == 0 {
        Seq::empty()
    } else {
        with_replaced(s.drop_last(), c, by) + if s.last() == c {
            by
        } else {
            seq![s.last()]
        }
    }
}

/// `s` with each `c` replaced by `by`.
pub fn replace(s: &str, c: char, by: &str) -> (r: String)
    ensures
        r@ == with_replaced(s@, c, by@),
{
    let all = chars(s);
    let mut out = String::new();
    for i in 0..all.len()
        invariant
            all@ == s@,
            out@ == with_replaced(s@.take(i as int), c, by@),
    {
        proof {
            let now = s@.take(i + 1);
            assert(now.drop_last() =~= s@.take(i as int));
            assert(now.last() == s@[i as int]);
        }
        if all[i] == c {
            out.append(by);
        } else {
            let ghost before = out@;
            out.push(all[i]);
            assert(out@ =~= before + seq![all@[i as int]]);
        }
    }
    assert(s@.take(s@.len() as int) =~= s@);
    out
}

/// The texts of `parts` with `sep` between each two.
pub open spec fn joined(parts: Seq<Seq<char>>, sep: Seq<char>) -> Seq<char>
    decreases parts.len(),
{
    if parts.len() == 0 {
        Seq::empty()
    } else {
        let head = joined(parts.drop_last(), sep);
        if parts.len() > 1 {
            head + sep + parts.last()
        } else {
            parts.last()
        }
    }
}

/// The texts of `parts` with `sep` between each two.
pub fn join(parts: &Vec<String>, sep: &str) -> (r: String)
    ensures
        r@ == joined(texts(parts@), sep@),
{
    let mut out = String::new();
    let ghost all = texts(parts@);
    for i in 0..parts.len()
        invariant
            all == texts(parts@),
            out@ == joined(all.take(i as int), sep@),
    {
        proof {
            let now = all.take(i + 1);
            assert(now.drop_last() =~= all.take(i as int));
            assert(now.last() == parts@[i as int]@);
        }
        if i > 0 {
            out.append(sep);
        }
        let ghost before = out@;
        out.append(parts[i].as_str());
        assert(i == 0 ==> out@ =~= parts@[0]@);
    }
    assert(all.take(all.len() as int) =~= all);
    out
}

/// The first `n` characters of `s`, or all where it is shorter.
pub open spec fn first_chars(s: Seq<char>, n: int) -> Seq<char> {
    if s.len() <= n {
        s
    } else {
        s.take(n)
    }
}

/// The first `n` characters of `s`, or all where it is shorter.
pub fn take_chars(s: &str, n: usize) -> (r: String)
    ensures
        r@ == first_chars(s@, n as int),
{
    let all = chars(s);
    let to: usize = if all.len() <= n { all.len() } else { n };
    let out = from_chars(&all, 0, to);
    assert(out@ =~= first_chars(s@, n as int));
    out
}

/// `n` spaces.
pub open spec fn spaces(n: nat) -> Seq<char> {
    Seq::new(n, |i: int| ' ')
}

/// `s` filled up with spaces on the right to `width` characters.
pub open spec fn padded(s: Seq<char>, width: nat) -> Seq<char> {
    if s.len() >= width {
        s
    } else {
        s + spaces((width - s.len()) as nat)
    }
}

/// `s` filled up with spaces on the right to `width` characters.
pub fn pad(s: &str, width: usize) -> (r: String)
    ensures
        r@ == padded(s@, width as nat),
{
    let mut n: usize = chars(s).len();
    let ghost start = n;
    let mut out = s.to_owned();
    assert(out@ =~= s@ + spaces(0));
    while n < width
        invariant
            start == s@.len(),
            start <= n,
            start < width ==> n <= width,
            start >= width ==> n == start,
            out@ == s@ + spaces((n - start) as nat),
        decreases width - n,
    {
        out.push(' ');
        n += 1;
        assert(out@ =~= s@ + spaces((n - start) as nat));
    }
    assert(start >= width ==> out@ =~= s@);
    out
}

/// A list with `t` at its end, unless it holds `t` already.
pub open spec fn with_text(list: Seq<Seq<char>>, t: Seq<char>) -> Seq<Seq<char>> {
    if list.contains(t) {
        list
    } else {
        list.push(t)
    }
}

/// Puts `t` at the end of a list, unless the list holds it already.
pub fn push_new(list: &mut Vec<String>, t: String)
    ensures
        texts(final(list)@) == with_text(texts(old(list)@), t@),
{
    if !has_text(list, t.as_str()) {
        let ghost earlier = texts(list@);
        let ghost it = t@;
        list.push(t);
        assert(texts(list@) =~= earlier.push(it));
    }
}

/// What stands in `s` between two places counted in bytes of its UTF-8 form; none
/// where one of them is past the end or inside a character.
pub open spec fn byte_slice(s: Seq<char>, from: int, to: int) -> Option<Seq<char>> {
    let bytes = encode_utf8(s);
    if 0 <= from <= to <= bytes.len() && is_char_boundary(bytes, from) && is_char_boundary(
        bytes,
        to,
    ) {
        Some(decode_utf8(bytes.subrange(from, to)))
    } else {
        None
    }
}

/// What stands in `s` between two places counted in bytes of its UTF-8 form; none
/// where one of them is past the end or inside a character.
pub fn slice_bytes(s: &str, from: usize, to: usize) -> (r: Option<String>)
    ensures
        crate::json::text_in(r) == byte_slice(s@, from as int, to as int),
{
    let ghost bytes = encode_utf8(s@);
    let size: usize = s.as_bytes().len();
    assert(size == bytes.len());
    proof {
        encode_utf8_valid_utf8(s@);
    }
    if from > to || to > size || !s.is_char_boundary(from) || !s.is_char_boundary(to) {
        return None;
    }
    let front = s.split_at(to).0;
    proof {
        let part = bytes.subrange(0, to as int);
        valid_utf8_split(bytes, to as int);
        if from < to {
            is_char_boundary_iff_not_is_continuation_byte(bytes, from as int);
            is_char_boundary_iff_not_is_continuation_byte(part, from as int);
            assert(part[from as int] == bytes[from as int]);
        } else {
            is_char_boundary_start_end_of_seq(part);
        }
    }
    let middle = front.split_at(from).1;
    proof {
        let part = bytes.subrange(0, to as int);
        assert(part.subrange(from as int, part.len() as int) =~= bytes.subrange(
            from as int,
            to as int,
        ));
        encode_utf8_decode_utf8(middle@);
    }
    Some(middle.to_owned())
}

/// Trimming takes white space off both ends and nothing else: what is left stands
/// in the text between white space only, and has none at either end.
pub proof fn law_trimmed(s: Seq<char>)
    ensures
        exists|from: int, to: int|
            {
                &&& 0 <= from <= to <= s.len()
                &&& trimmed(s) == #[trigger] s.subrange(from, to)
                &&& forall|i: int| 0 <= i < from ==> is_space(#[trigger] s[i])
                &&& forall|i: int| to <= i < s.len() ==> is_space(#[trigger] s[i])
            },
        trimmed(s).len() > 0 ==> !is_space(trimmed(s)[0]) && !is_space(trimmed(s).last()),
{
    lemma_spaceless_start(s);
    let head = spaceless_start(s);
    lemma_spaceless_end(head);
    let from = s.len() - head.len();
    let to = from + trimmed(s).len();
    assert(trimmed(s) =~= s.subrange(from, to));
    assert forall|i: int| to <= i < s.len() implies is_space(#[trigger] s[i]) by {
        assert(s[i] == head[i - from]);
    }
    if trimmed(s).len() > 0 {
        assert(trimmed(s)[0] == head[0]);
    }
}

proof fn lemma_spaceless_start(s: Seq<char>)
    ensures
        spaceless_start(s).len() <= s.len(),
        spaceless_start(s) == s.skip(s.len() - spaceless_start(s).len()),
        forall|i: int|
            0 <= i < s.len() - spaceless_start(s).len() ==> is_space(#[trigger] s[i]),
        spaceless_start(s).len() > 0 ==> !is_space(spaceless_start(s)[0]),
    decreases s.len(),
{
    if s.len() > 0 && is_space(s[0]) {
        let rest = s.skip(1);
        lemma_spaceless_start(rest);
        let n = s.len() - spaceless_start(s).len();
        assert(rest.skip(n - 1) =~= s.skip(n));
        assert forall|i: int| 0 <= i < n implies is_space(#[trigger] s[i]) by {
            if i > 0 {
                assert(rest[i - 1] == s[i]);
            }
        }
    } else {
        assert(s.skip(0) =~= s);
    }
}

proof fn lemma_spaceless_end(s: Seq<char>)
    ensures
        spaceless_end(s).len() <= s.len(),
        spaceless_end(s) == s.take(spaceless_end(s).len() as int),
        forall|i: int| spaceless_end(s).len() <= i < s.len() ==> is_space(#[trigger] s[i]),
        spaceless_end(s).len() > 0 ==> !is_space(spaceless_end(s).last()),
    decreases s.len(),
{
    if s.len() > 0 && is_space(s.last()) {
        let rest = s.drop_last();
        lemma_spaceless_end(rest);
        let n = spaceless_end(s).len() as int;
        assert(rest.take(n) =~= s.take(n));
        assert forall|i: int| n <= i < s.len() implies is_space(#[trigger] s[i]) by {
            if i < rest.len() {
                assert(rest[i] == s[i]);
            }
        }
    } else {
        assert(s.take(s.len() as int) =~= s);
    }
}

/// In ASCII, white space is the space and the characters from tab to carriage
/// return.
pub proof fn law_ascii_space(c: char)
    requires
        c as u32 <= 0x7f,
    ensures
        is_space(c) <==> c == ' ' || '\t' as u32 <= c as u32 <= '\r' as u32,
{
    if is_space(c) && c as u32 == ' ' as u32 {
        vstd::utf8::char_u32_cast(c, c as u32);
        vstd::utf8::char_u32_cast(' ', ' ' as u32);
    }
}

/// Taking a leading character off takes every one of them off and nothing else.
pub proof fn law_trimmed_start(s: Seq<char>, c: char)
    ensures
        trimmed_start(s, c).is_suffix_of(s),
        forall|i: int| 0 <= i < s.len() - trimmed_start(s, c).len() ==> #[trigger] s[i] == c,
        trimmed_start(s, c).len() > 0 ==> trimmed_start(s, c)[0] != c,
    decreases s.len(),
{
    if s.len() > 0 && s[0] == c {
        let rest = s.skip(1);
        law_trimmed_start(rest, c);
        let t = trimmed_start(s, c);
        let n = s.len() - t.len();
        assert(s.subrange(n, s.len() as int) =~= rest.subrange(n - 1, rest.len() as int));
        assert forall|i: int| 0 <= i < n implies #[trigger] s[i] == c by {
            if i > 0 {
                assert(rest[i - 1] == s[i]);
            }
        }
    } else {
        assert(s.subrange(0, s.len() as int) =~= s);
    }
}

/// Taking a trailing character off takes every one of them off and nothing else.
pub proof fn law_trimmed_end(s: Seq<char>, c: char)
    ensures
        trimmed_end(s, c).is_prefix_of(s),
        forall|i: int| trimmed_end(s, c).len() <= i < s.len() ==> #[trigger] s[i] == c,
        trimmed_end(s, c).len() > 0 ==> trimmed_end(s, c).last() != c,
    decreases s.len(),
{
    if s.len() > 0 && s.last() == c {
        let rest = s.drop_last();
        law_trimmed_end(rest, c);
        let t = trimmed_end(s, c);
        assert(s.subrange(0, t.len() as int) =~= rest.subrange(0, t.len() as int));
        assert forall|i: int| t.len() <= i < s.len() implies #[trigger] s[i] == c by {
            if i < rest.len() {
                assert(rest[i] == s[i]);
            }
        }
    } else {
        assert(s.subrange(0, s.len() as int) =~= s);
    }
}

/// Joined texts stand in order with the separator between each two: two lists
/// joined on their own make the whole with one separator between them.
pub proof fn law_joined(a: Seq<Seq<char>>, b: Seq<Seq<char>>, t: Seq<char>, sep: Seq<char>)
    ensures
        joined(seq![t], sep) == t,
        joined(Seq::empty(), sep) == Seq::<char>::empty(),
        a.len() > 0 && b.len() > 0 ==> joined(a + b, sep) == joined(a, sep) + sep + joined(b, sep),
    decreases b.len(),
{
    reveal_with_fuel(joined, 2);
    if a.len() > 0 && b.len() > 0 {
        assert((a + b).drop_last() =~= a + b.drop_last());
        if b.len() > 1 {
            law_joined(a, b.drop_last(), t, sep);
            assert(joined(a + b, sep) =~= joined(a, sep) + sep + joined(b, sep));
        } else {
            assert(a + b.drop_last() =~= a);
        }
    }
}

/// Each of the texts that are joined stands in the result.
pub proof fn law_joined_holds(parts: Seq<Seq<char>>, sep: Seq<char>, i: int)
    requires
        0 <= i < parts.len(),
    ensures
        occurs(parts[i], joined(parts, sep)),
    decreases parts.len(),
{
    let all = joined(parts, sep);
    if i == parts.len() - 1 {
        let at = all.len() - parts[i].len();
        assert(all.subrange(at, at + parts[i].len()) =~= parts[i]);
        assert(stands_at(parts[i], all, at));
    } else {
        let rest = parts.drop_last();
        law_joined_holds(rest, sep, i);
        let head = joined(rest, sep);
        let at = choose|at: int| stands_at(rest[i], head, at);
        assert(all.subrange(at, at + parts[i].len()) =~= head.subrange(at, at + parts[i].len()));
        assert(stands_at(parts[i], all, at));
    }
}

/// A text occurs in another exactly where the other is made of something, the text,
/// and something.
pub proof fn law_occurs(needle: Seq<char>, s: Seq<char>)
    ensures
        occurs(needle, s) <==> exists|a: Seq<char>, b: Seq<char>| #[trigger] (a + needle + b) == s,
{
    if occurs(needle, s) {
        let at = choose|at: int| stands_at(needle, s, at);
        let a = s.take(at);
        let b = s.skip(at + needle.len());
        assert(a + needle + b =~= s);
    }
    if exists|a: Seq<char>, b: Seq<char>| #[trigger] (a + needle + b) == s {
        let (a, b) = choose|a: Seq<char>, b: Seq<char>| #[trigger] (a + needle + b) == s;
        assert(s.subrange(a.len() as int, (a.len() + needle.len()) as int) =~= needle);
        assert(stands_at(needle, s, a.len() as int));
    }
}

/// A text is cut at the first place of a character: what stands before has none,
/// and both parts with the character between them are the text.
pub proof fn law_cut_once(s: Seq<char>, c: char)
    ensures
        match cut_once(s, c) {
            Some((a, b)) => s == a + seq![c] + b && !a.contains(c),
            None => !s.contains(c),
        },
{
    lemma_position(s, c);
    if let Some((a, b)) = cut_once(s, c) {
        assert(s =~= a + seq![c] + b);
        assert forall|j: int| 0 <= j < a.len() implies a[j] != c by {
            assert(a[j] == s[j]);
        }
    }
}

/// Replacing a character goes piece by piece: each such character becomes the other
/// text, and any other character stays.
pub proof fn law_replaced(a: Seq<char>, b: Seq<char>, x: char, c: char, by: Seq<char>)
    ensures
        with_replaced(a + b, c, by) == with_replaced(a, c, by) + with_replaced(b, c, by),
        with_replaced(seq![c], c, by) == by,
        x != c ==> with_replaced(seq![x], c, by) == seq![x],
        with_replaced(Seq::empty(), c, by) == Seq::<char>::empty(),
    decreases b.len(),
{
    reveal_with_fuel(with_replaced, 2);
    assert(seq![c].drop_last() =~= Seq::empty());
    assert(seq![x].drop_last() =~= Seq::empty());
    assert(Seq::<char>::empty() + by =~= by);
    assert(Seq::<char>::empty() + seq![x] =~= seq![x]);
    if b.len() > 0 {
        law_replaced(a, b.drop_last(), x, c, by);
        assert((a + b).drop_last() =~= a + b.drop_last());
        assert(with_replaced(a + b, c, by) =~= with_replaced(a, c, by) + with_replaced(b, c, by));
    } else {
        assert(a + b =~= a);
        assert(with_replaced(a, c, by) + Seq::<char>::empty() =~= with_replaced(a, c, by));
    }
}

/// A padded text begins with the text, is at least as wide as asked for and no wider
/// than needed, and is filled up with spaces.
pub proof fn law_padded(s: Seq<char>, width: nat)
    ensures
        s.is_prefix_of(padded(s, width)),
        padded(s, width).len() == if s.len() < width {
            width
        } else {
            s.len()
        },
        forall|i: int| s.len() <= i < padded(s, width).len() ==> #[trigger] padded(s, width)[i] == ' ',
{
    assert(padded(s, width).subrange(0, s.len() as int) =~= s);
}

/// The first characters of a text begin it, and are as many as asked for unless the
/// text is shorter.
pub proof fn law_first_chars(s: Seq<char>, n: nat)
    ensures
        first_chars(s, n as int).is_prefix_of(s),
        first_chars(s, n as int).len() == if n < s.len() {
            n
        } else {
            s.len()
        },
{
    assert(s.subrange(0, s.len() as int) =~= s);
}

/// In an ASCII text bytes and characters are counted alike, so that a slice by bytes
/// is the one by characters; past the end there is none.
pub proof fn law_ascii_slice(s: Seq<char>, from: int, to: int)
    requires
        all_ascii(s),
        0 <= from <= to,
    ensures
        byte_slice(s, from, to) == if to <= s.len() {
            Some(s.subrange(from, to))
        } else {
            None
        },
{
    let bytes = encode_utf8(s);
    lemma_ascii_chars(s);
    vstd::utf8::is_ascii_chars_encode_utf8(s);
    encode_utf8_valid_utf8(s);
    if to <= s.len() {
        lemma_ascii_boundary(s, from);
        lemma_ascii_boundary(s, to);
        let part = s.subrange(from, to);
        assert(all_ascii(part));
        lemma_ascii_chars(part);
        vstd::utf8::is_ascii_chars_encode_utf8(part);
        assert forall|i: int| 0 <= i < part.len() implies encode_utf8(part)[i] == bytes.subrange(
            from,
            to,
        )[i] by {
            assert(part[i] == s[from + i]);
            assert(bytes[from + i] == s[from + i] as u8);
        }
        assert(encode_utf8(part) =~= bytes.subrange(from, to));
        encode_utf8_decode_utf8(part);
    }
}

proof fn lemma_ascii_chars(s: Seq<char>)
    requires
        all_ascii(s),
    ensures
        vstd::utf8::is_ascii_chars(s),
{
    assert forall|i: int| 0 <= i < s.len() implies '\0' <= #[trigger] s[i] <= '\u{7f}' by {
        assert(s[i] as u32 <= 0x7f);
        vstd::utf8::char_u32_cast(s[i], s[i] as u32);
    }
}

proof fn lemma_ascii_boundary(s: Seq<char>, at: int)
    requires
        all_ascii(s),
        0 <= at <= s.len(),
    ensures
        is_char_boundary(encode_utf8(s), at),
{
    let bytes = encode_utf8(s);
    lemma_ascii_chars(s);
    vstd::utf8::is_ascii_chars_encode_utf8(s);
    encode_utf8_valid_utf8(s);
    if at < s.len() {
        assert(s[at] as u32 <= 0x7f);
        let b = bytes[at];
        assert(b == s[at] as u8);
        assert(b <= 0x7f);
        assert(b <= 0x7f ==> b & 0xc0 != 0x80) by (bit_vector);
        is_char_boundary_iff_not_is_continuation_byte(bytes, at);
    } else {
        is_char_boundary_start_end_of_seq(bytes);
    }
}

/// White space beyond ASCII: the next line, the no-break spaces, the spaces of
/// typography, the line and paragraph separators, and the ideographic space.
pub proof fn law_wide_space(c: char)
    requires
        c as u32 > 0x7f,
    ensures
        ({
            let n = c as u32;
            is_space(c) <==> n == 0x85 || n == 0xa0 || n == 0x1680 || 0x2000 <= n <= 0x200a || n
                == 0x2028 || n == 0x2029 || n == 0x202f || n == 0x205f || n == 0x3000
        }),
{
}

} // verus!
