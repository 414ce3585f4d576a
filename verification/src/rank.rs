//! Stable sorting: the places of a list in the order of their keys.
use vstd::prelude::*;

use crate::order::{before, is_before, lemma_asymmetric, lemma_irreflexive, lemma_total, lemma_transitive};

verus! {

/// What a list is sorted by: first the rank, then the text.
pub struct SortKey {
    pub rank: i32,
    pub text: String,
}

/// What a list is sorted by.
#[verifier::ext_equal]
pub struct KeyModel {
    pub rank: int,
    pub text: Seq<char>,
}

impl View for SortKey {
    type V = KeyModel;

    open spec fn view(&self) -> KeyModel {
        KeyModel { rank: self.rank as int, text: self.text@ }
    }
}

/// Whether key `a` goes strictly before key `b`: a lower rank does, and at the
/// same rank an earlier text, or a later one where `latest_first` is set.
pub open spec fn goes_before(a: KeyModel, b: KeyModel, latest_first: bool) -> bool {
    a.rank < b.rank || (a.rank == b.rank && if latest_first {
        before(b.text, a.text)
    } else {
        before(a.text, b.text)
    })
}

/// Whether place `i` of a list with these keys goes before place `j`: by the keys,
/// and by the places where the keys leave it open.
pub open spec fn precedes(keys: Seq<KeyModel>, latest_first: bool, i: int, j: int) -> bool {
    goes_before(keys[i], keys[j], latest_first) || (!goes_before(keys[j], keys[i], latest_first)
        && i < j)
}

/// Whether `places` holds each place of a list with these keys once, in order.
pub open spec fn is_ranking(places: Seq<int>, keys: Seq<KeyModel>, latest_first: bool) -> bool {
    &&& forall|p: int| places.contains(p) <==> 0 <= p < keys.len()
    &&& forall|i: int, j: int|
        0 <= i < j < places.len() ==> precedes(
            keys,
            latest_first,
            #[trigger] places[i],
            #[trigger] places[j],
        )
}

/// The places of a list with these keys, in order.
pub open spec fn ranking(keys: Seq<KeyModel>, latest_first: bool) -> Seq<int> {
    choose|places: Seq<int>| is_ranking(places, keys, latest_first)
}

/// The items of a list in the order of their keys.
pub open spec fn ranked<A>(list: Seq<A>, keys: Seq<KeyModel>, latest_first: bool) -> Seq<A> {
    ranking(keys, latest_first).map_values(|p: int| list[p])
}

proof fn lemma_goes_before(a: KeyModel, b: KeyModel, c: KeyModel, latest_first: bool)
    ensures
        !goes_before(a, a, latest_first),
        goes_before(a, b, latest_first) ==> !goes_before(b, a, latest_first),
        goes_before(a, b, latest_first) && goes_before(b, c, latest_first) ==> goes_before(
            a,
            c,
            latest_first,
        ),
        goes_before(a, b, latest_first) ==> goes_before(a, c, latest_first) || goes_before(
            c,
            b,
            latest_first,
        ),
{
    lemma_irreflexive(a.text);
    if before(a.text, b.text) {
        lemma_asymmetric(a.text, b.text);
        if before(b.text, c.text) {
            lemma_transitive(a.text, b.text, c.text);
        }
        if before(c.text, a.text) {
            lemma_transitive(c.text, a.text, b.text);
        }
    }
    if before(b.text, a.text) {
        lemma_asymmetric(b.text, a.text);
        if before(c.text, b.text) {
            lemma_transitive(c.text, b.text, a.text);
        }
        if before(a.text, c.text) {
            lemma_transitive(b.text, a.text, c.text);
        }
    }
    lemma_total(a.text, c.text);
    lemma_total(b.text, c.text);
    lemma_total(a.text, b.text);
}

/// The order of places is strict, transitive and total.
proof fn lemma_precedes(keys: Seq<KeyModel>, latest_first: bool, i: int, j: int, k: int)
    ensures
        !precedes(keys, latest_first, i, i),
        precedes(keys, latest_first, i, j) ==> !precedes(keys, latest_first, j, i),
        i != j ==> precedes(keys, latest_first, i, j) || precedes(keys, latest_first, j, i),
        precedes(keys, latest_first, i, j) && precedes(keys, latest_first, j, k) ==> precedes(
            keys,
            latest_first,
            i,
            k,
        ),
{
    let a = keys[i];
    let b = keys[j];
    let c = keys[k];
    lemma_goes_before(a, b, c, latest_first);
    lemma_goes_before(b, a, c, latest_first);
    lemma_goes_before(b, c, a, latest_first);
    lemma_goes_before(c, b, a, latest_first);
    lemma_goes_before(c, a, b, latest_first);
    lemma_goes_before(a, c, b, latest_first);
}

spec fn ranks_of(
    places: Seq<int>,
    keys: Seq<KeyModel>,
    latest_first: bool,
    held: Set<int>,
) -> bool {
    &&& forall|p: int| places.contains(p) <==> #[trigger] held.contains(p)
    &&& forall|i: int, j: int|
        0 <= i < j < places.len() ==> precedes(
            keys,
            latest_first,
            #[trigger] places[i],
            #[trigger] places[j],
        )
}

proof fn lemma_unique(
    a: Seq<int>,
    b: Seq<int>,
    keys: Seq<KeyModel>,
    latest_first: bool,
    held: Set<int>,
)
    requires
        ranks_of(a, keys, latest_first, held),
        ranks_of(b, keys, latest_first, held),
    ensures
        a == b,
    decreases a.len(),
{
    if a.len() == 0 {
        if b.len() > 0 {
            assert(b.contains(b[0]));
            assert(held.contains(b[0]));
            assert(a.contains(b[0]));
        }
        assert(a =~= b);
    } else {
        let last = a.last();
        assert(a.contains(last));
        assert(held.contains(last));
        let at = choose|i: int| 0 <= i < b.len() && b[i] == last;
        if at < b.len() - 1 {
            let top = b.last();
            assert(b.contains(top));
            assert(held.contains(top));
            let j = choose|j: int| 0 <= j < a.len() && a[j] == top;
            assert(precedes(keys, latest_first, b[at], b[b.len() - 1]));
            lemma_precedes(keys, latest_first, last, top, top);
            if j < a.len() - 1 {
                assert(precedes(keys, latest_first, a[j], a[a.len() - 1]));
            }
        }
        assert(b.last() == last);
        lemma_drop(a, keys, latest_first, held);
        lemma_drop(b, keys, latest_first, held);
        lemma_unique(a.drop_last(), b.drop_last(), keys, latest_first, held.remove(last));
        assert(a =~= a.drop_last().push(last));
        assert(b =~= b.drop_last().push(last));
    }
}

proof fn lemma_drop(a: Seq<int>, keys: Seq<KeyModel>, latest_first: bool, held: Set<int>)
    requires
        ranks_of(a, keys, latest_first, held),
        a.len() > 0,
    ensures
        ranks_of(a.drop_last(), keys, latest_first, held.remove(a.last())),
{
    let last = a.last();
    let rest = a.drop_last();
    assert forall|i: int, j: int| 0 <= i < j < rest.len() implies precedes(
        keys,
        latest_first,
        #[trigger] rest[i],
        #[trigger] rest[j],
    ) by {
        assert(precedes(keys, latest_first, a[i], a[j]));
    }
    assert forall|p: int| rest.contains(p) <==> #[trigger] held.remove(last).contains(p) by {
        if rest.contains(p) {
            let i = choose|i: int| 0 <= i < rest.len() && rest[i] == p;
            assert(a[i] == p);
            assert(a.contains(p));
            assert(precedes(keys, latest_first, a[i], a[a.len() - 1]));
            lemma_precedes(keys, latest_first, p, p, p);
        }
        if held.remove(last).contains(p) {
            assert(a.contains(p));
            let i = choose|i: int| 0 <= i < a.len() && a[i] == p;
            assert(rest[i] == p);
        }
    }
}

/// A list has one ranking at most.
pub proof fn lemma_one_ranking(places: Seq<int>, keys: Seq<KeyModel>, latest_first: bool)
    requires
        is_ranking(places, keys, latest_first),
    ensures
        ranking(keys, latest_first) == places,
{
    let held = Set::new(|p: int| 0 <= p < keys.len());
    let other = ranking(keys, latest_first);
    assert(is_ranking(other, keys, latest_first));
    lemma_unique(other, places, keys, latest_first, held);
}

/// The keys of a list.
pub open spec fn key_models(keys: Seq<SortKey>) -> Seq<KeyModel> {
    keys.map_values(|k: SortKey| k@)
}

/// The places that a list of positions holds.
pub open spec fn place_models(places: Seq<usize>) -> Seq<int> {
    places.map_values(|p: usize| p as int)
}

/// A ranking of the places below `i` grows by `i` where it fits.
proof fn lemma_grown(was: Seq<int>, keys: Seq<KeyModel>, latest_first: bool, i: int, at: int)
    requires
        ranks_of(was, keys, latest_first, Set::new(|p: int| 0 <= p < i)),
        0 <= i,
        0 <= at <= was.len(),
        at > 0 ==> precedes(keys, latest_first, was[at - 1], i),
        forall|j: int|
            at <= j < was.len() ==> precedes(keys, latest_first, i, #[trigger] was[j]),
    ensures
        ranks_of(was.insert(at, i), keys, latest_first, Set::new(|p: int| 0 <= p < i + 1)),
{
    let now = was.insert(at, i);
    let held = Set::new(|p: int| 0 <= p < i);
    let next = Set::new(|p: int| 0 <= p < i + 1);
    assert forall|j: int| 0 <= j < at implies precedes(
        keys,
        latest_first,
        #[trigger] was[j],
        i,
    ) by {
        if j < at - 1 {
            assert(precedes(keys, latest_first, was[j], was[at - 1]));
            lemma_precedes(keys, latest_first, was[j], was[at - 1], i);
        }
    }
    assert forall|x: int, y: int| 0 <= x < y < now.len() implies precedes(
        keys,
        latest_first,
        #[trigger] now[x],
        #[trigger] now[y],
    ) by {
        let x0 = if x < at { x } else { x - 1 };
        let y0 = if y < at { y } else { y - 1 };
        if x != at && y != at {
            assert(precedes(keys, latest_first, was[x0], was[y0]));
        } else if x == at {
            assert(precedes(keys, latest_first, i, was[y0]));
        } else {
            assert(precedes(keys, latest_first, was[x0], i));
        }
    }
    assert forall|p: int| now.contains(p) <==> #[trigger] next.contains(p) by {
        if now.contains(p) {
            let x = choose|x: int| 0 <= x < now.len() && now[x] == p;
            if x < at {
                assert(was[x] == p);
            } else if x > at {
                assert(was[x - 1] == p);
            }
            if x != at {
                assert(was.contains(p));
                assert(held.contains(p));
            }
        }
        if next.contains(p) {
            if p == i {
                assert(now[at] == p);
            } else {
                assert(held.contains(p));
                let x = choose|x: int| 0 <= x < was.len() && was[x] == p;
                if x < at {
                    assert(now[x] == p);
                } else {
                    assert(now[x + 1] == p);
                }
            }
        }
    }
}

spec fn slot(was: Seq<int>, keys: Seq<KeyModel>, latest_first: bool, i: int) -> int
    decreases was.len(),
{
    if was.len() > 0 && precedes(keys, latest_first, i, was.last()) {
        slot(was.drop_last(), keys, latest_first, i)
    } else {
        was.len() as int
    }
}

proof fn lemma_slot(was: Seq<int>, keys: Seq<KeyModel>, latest_first: bool, i: int)
    requires
        !was.contains(i),
    ensures
        ({
            let at = slot(was, keys, latest_first, i);
            &&& 0 <= at <= was.len()
            &&& at > 0 ==> precedes(keys, latest_first, was[at - 1], i)
            &&& forall|j: int|
                at <= j < was.len() ==> precedes(keys, latest_first, i, #[trigger] was[j])
        }),
    decreases was.len(),
{
    if was.len() > 0 {
        let rest = was.drop_last();
        if precedes(keys, latest_first, i, was.last()) {
            assert(!rest.contains(i)) by {
                if rest.contains(i) {
                    let j = choose|j: int| 0 <= j < rest.len() && rest[j] == i;
                    assert(was[j] == i);
                }
            }
            lemma_slot(rest, keys, latest_first, i);
            let at = slot(was, keys, latest_first, i);
            assert forall|j: int| at <= j < was.len() implies precedes(
                keys,
                latest_first,
                i,
                #[trigger] was[j],
            ) by {
                if j < rest.len() {
                    assert(rest[j] == was[j]);
                }
            }
        } else {
            assert(was[was.len() - 1] == was.last());
            assert(was.last() != i);
            lemma_precedes(keys, latest_first, i, was.last(), i);
        }
    }
}

proof fn lemma_ranks(keys: Seq<KeyModel>, latest_first: bool, n: int) -> (places: Seq<int>)
    requires
        0 <= n,
    ensures
        ranks_of(places, keys, latest_first, Set::new(|p: int| 0 <= p < n)),
        places.len() == n,
    decreases n,
{
    if n == 0 {
        let none = Seq::<int>::empty();
        assert(ranks_of(none, keys, latest_first, Set::new(|p: int| 0 <= p < n)));
        none
    } else {
        let i = n - 1;
        let was = lemma_ranks(keys, latest_first, i);
        assert(!was.contains(i)) by {
            assert(!Set::new(|p: int| 0 <= p < i).contains(i));
        }
        lemma_slot(was, keys, latest_first, i);
        let at = slot(was, keys, latest_first, i);
        lemma_grown(was, keys, latest_first, i, at);
        was.insert(at, i)
    }
}

/// Each list has its ranking: as many places as the list, each once, no place
/// going before an earlier one.
pub proof fn lemma_rankable(keys: Seq<KeyModel>, latest_first: bool)
    ensures
        is_ranking(ranking(keys, latest_first), keys, latest_first),
        ranking(keys, latest_first).len() == keys.len(),
{
    let places = lemma_ranks(keys, latest_first, keys.len() as int);
    let held = Set::new(|p: int| 0 <= p < keys.len());
    assert forall|p: int| places.contains(p) <==> 0 <= p < keys.len() by {
        assert(held.contains(p) <==> 0 <= p < keys.len());
    }
    assert(is_ranking(places, keys, latest_first));
    lemma_one_ranking(places, keys, latest_first);
}

fn key_before(a: &SortKey, b: &SortKey, latest_first: bool) -> (r: bool)
    ensures
        r == goes_before(a@, b@, latest_first),
{
    a.rank < b.rank || (a.rank == b.rank && if latest_first {
        is_before(b.text.as_str(), a.text.as_str())
    } else {
        is_before(a.text.as_str(), b.text.as_str())
    })
}

/// The places of a list with these keys, in order; places whose keys are equal
/// keep their order.
pub fn rank(keys: &Vec<SortKey>, latest_first: bool) -> (r: Vec<usize>)
    ensures
        place_models(r@) == ranking(key_models(keys@), latest_first),
        is_ranking(place_models(r@), key_models(keys@), latest_first),
        r@.len() == keys@.len(),
        forall|i: int| 0 <= i < r@.len() ==> (#[trigger] r@[i]) < keys@.len(),
{
    let mut out: Vec<usize> = Vec::new();
    let ghost all = key_models(keys@);
    for i in 0..keys.len()
        invariant
            all == key_models(keys@),
            out@.len() == i,
            ranks_of(
                place_models(out@),
                all,
                latest_first,
                Set::new(|p: int| 0 <= p < i),
            ),
    {
        let ghost start = out@;
        let ghost was = place_models(out@);
        let ghost held = Set::new(|p: int| 0 <= p < i);
        proof {
            assert forall|j: int| 0 <= j < out@.len() implies 0 <= #[trigger] out@[j] < i by {
                assert(was[j] == out@[j] as int);
                assert(was.contains(was[j]));
                assert(held.contains(was[j]));
            }
        }
        let mut at: usize = out.len();
        while at > 0 && key_before(&keys[i], &keys[out[at - 1]], latest_first)
            invariant
                all == key_models(keys@),
                i < keys@.len(),
                out@ == start,
                at <= out@.len(),
                forall|j: int| 0 <= j < out@.len() ==> 0 <= #[trigger] out@[j] < i,
                forall|j: int|
                    at <= j < out@.len() ==> precedes(
                        all,
                        latest_first,
                        i as int,
                        #[trigger] out@[j] as int,
                    ),
            decreases at,
        {
            assert(all[out@[at - 1] as int] == keys@[out@[at - 1] as int]@);
            assert(all[i as int] == keys@[i as int]@);
            at -= 1;
        }
        out.insert(at, i);
        proof {
            assert(place_models(out@) =~= was.insert(at as int, i as int));
            if at > 0 {
                let p = was[at - 1];
                assert(p == start[at - 1] as int);
                assert(all[p] == keys@[p]@);
                assert(all[i as int] == keys@[i as int]@);
            }
            assert forall|j: int| at <= j < was.len() implies precedes(
                all,
                latest_first,
                i as int,
                #[trigger] was[j],
            ) by {
                assert(was[j] == start[j] as int);
            }
            lemma_grown(was, all, latest_first, i as int, at as int);
        }
    }
    proof {
        let places = place_models(out@);
        let held = Set::new(|p: int| 0 <= p < keys@.len());
        assert forall|p: int| places.contains(p) <==> 0 <= p < all.len() by {
            assert(held.contains(p) <==> 0 <= p < all.len());
        }
        assert(is_ranking(places, all, latest_first));
        lemma_one_ranking(places, all, latest_first);
        assert forall|i: int| 0 <= i < out@.len() implies (#[trigger] out@[i]) < keys@.len() by {
            assert(places[i] == out@[i] as int);
            assert(places.contains(places[i]));
        }
    }
    out
}

} // verus!
