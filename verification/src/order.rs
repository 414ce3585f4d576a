//! The order of texts: by the first character in which they differ, a proper
//! prefix coming first. It is the order of the UTF-8 bytes as well.
use vstd::prelude::*;

use crate::text::chars;

verus! {

/// Whether `a` comes strictly before `b`.
pub open spec fn before(a: Seq<char>, b: Seq<char>) -> bool
    decreases a.len(),
{
    if b.len() == 0 {
        false
    } else if a.len() == 0 {
        true
    } else if a[0] == b[0] {
        before(a.skip(1), b.skip(1))
    } else {
        (a[0] as u32) < (b[0] as u32)
    }
}

/// No text comes before itself.
pub proof fn lemma_irreflexive(a: Seq<char>)
    ensures
        !before(a, a),
    decreases a.len(),
{
    if a.len() > 0 {
        lemma_irreflexive(a.skip(1));
    }
}

/// The order is transitive.
pub proof fn lemma_transitive(a: Seq<char>, b: Seq<char>, c: Seq<char>)
    requires
        before(a, b),
        before(b, c),
    ensures
        before(a, c),
    decreases a.len(),
{
    if a.len() > 0 && a[0] == b[0] && b[0] == c[0] {
        lemma_transitive(a.skip(1), b.skip(1), c.skip(1));
    }
}

/// Two texts of which neither comes before the other are the same.
pub proof fn lemma_total(a: Seq<char>, b: Seq<char>)
    ensures
        before(a, b) || before(b, a) || a == b,
    decreases a.len(),
{
    if a.len() > 0 && b.len() > 0 {
        if a[0] == b[0] {
            lemma_total(a.skip(1), b.skip(1));
            if a.skip(1) == b.skip(1) {
                assert forall|i: int| 0 <= i < a.len() implies a[i] == b[i] by {
                    if i > 0 {
                        assert(a[i] == a.skip(1)[i - 1]);
                        assert(b[i] == b.skip(1)[i - 1]);
                    }
                }
                assert(a.skip(1).len() == b.skip(1).len());
                assert(a =~= b);
            }
        } else {
            vstd::utf8::char_u32_cast(a[0], a[0] as u32);
            vstd::utf8::char_u32_cast(b[0], b[0] as u32);
        }
    } else if a.len() == 0 && b.len() == 0 {
        assert(a =~= b);
    }
}

/// Of two texts at most one comes before the other.
pub proof fn lemma_asymmetric(a: Seq<char>, b: Seq<char>)
    requires
        before(a, b),
    ensures
        !before(b, a),
{
    if before(b, a) {
        lemma_transitive(a, b, a);
        lemma_irreflexive(a);
    }
}

/// A text comes before another where the other goes on after all of it, or where
/// the first character in which they differ is the smaller one; and in no other
/// case.
pub proof fn law_order(a: Seq<char>, b: Seq<char>)
    ensures
        before(a, b) <==> exists|n: int|
            {
                &&& 0 <= n <= a.len()
                &&& n < b.len()
                &&& #[trigger] a.take(n) == b.take(n)
                &&& n < a.len() ==> (a[n] as u32) < (b[n] as u32)
            },
    decreases a.len(),
{
    if a.len() > 0 && b.len() > 0 && a[0] == b[0] {
        let x = a.skip(1);
        let y = b.skip(1);
        law_order(x, y);
        if before(a, b) {
            let n = choose|n: int|
                {
                    &&& 0 <= n <= x.len()
                    &&& n < y.len()
                    &&& #[trigger] x.take(n) == y.take(n)
                    &&& n < x.len() ==> (x[n] as u32) < (y[n] as u32)
                };
            assert forall|i: int| 0 <= i < n + 1 implies a[i] == b[i] by {
                if i > 0 {
                    assert(x.take(n)[i - 1] == y.take(n)[i - 1]);
                }
            }
            assert(a.take(n + 1) =~= b.take(n + 1));
        }
        if exists|n: int|
            {
                &&& 0 <= n <= a.len()
                &&& n < b.len()
                &&& #[trigger] a.take(n) == b.take(n)
                &&& n < a.len() ==> (a[n] as u32) < (b[n] as u32)
            } {
            let n = choose|n: int|
                {
                    &&& 0 <= n <= a.len()
                    &&& n < b.len()
                    &&& #[trigger] a.take(n) == b.take(n)
                    &&& n < a.len() ==> (a[n] as u32) < (b[n] as u32)
                };
            assert(n > 0);
            assert forall|i: int| 0 <= i < n - 1 implies x[i] == y[i] by {
                assert(a.take(n)[i + 1] == b.take(n)[i + 1]);
            }
            assert(x.take(n - 1) =~= y.take(n - 1));
        }
    } else if before(a, b) {
        assert(a.take(0) =~= b.take(0));
    } else if exists|n: int|
        {
            &&& 0 <= n <= a.len()
            &&& n < b.len()
            &&& #[trigger] a.take(n) == b.take(n)
            &&& n < a.len() ==> (a[n] as u32) < (b[n] as u32)
        } {
        let n = choose|n: int|
            {
                &&& 0 <= n <= a.len()
                &&& n < b.len()
                &&& #[trigger] a.take(n) == b.take(n)
                &&& n < a.len() ==> (a[n] as u32) < (b[n] as u32)
            };
        if n > 0 {
            assert(a.take(n)[0] == b.take(n)[0]);
        }
    }
}

/// Whether each text of the list comes before those that follow it.
pub open spec fn increasing(list: Seq<Seq<char>>) -> bool {
    forall|i: int, j: int| 0 <= i < j < list.len() ==> before(#[trigger] list[i], #[trigger] list[j])
}

/// Whether `a` comes strictly before `b`.
pub fn is_before(a: &str, b: &str) -> (r: bool)
    ensures
        r == before(a@, b@),
{
    let x = chars(a);
    let y = chars(b);
    let mut i: usize = 0;
    assert(x@.skip(0) =~= x@);
    assert(y@.skip(0) =~= y@);
    while i < x.len() && i < y.len()
        invariant
            x@ == a@,
            y@ == b@,
            i <= x@.len(),
            i <= y@.len(),
            before(a@, b@) == before(x@.skip(i as int), y@.skip(i as int)),
        decreases x@.len() - i,
    {
        assert(x@.skip(i as int).skip(1) =~= x@.skip(i + 1));
        assert(y@.skip(i as int).skip(1) =~= y@.skip(i + 1));
        if x[i] != y[i] {
            return (x[i] as u32) < (y[i] as u32);
        }
        i += 1;
    }
    i < y.len()
}

} // verus!
