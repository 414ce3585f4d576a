//! Facts about filtered lists.
use vstd::prelude::*;

verus! {

/// A filtered list holds the items of the list that are kept.
pub proof fn lemma_filter_members<A>(list: Seq<A>, keep: spec_fn(A) -> bool)
    ensures
        forall|x: A| #[trigger] list.filter(keep).contains(x) <==> list.contains(x) && keep(x),
    decreases list.len(),
{
    reveal(Seq::filter);
    if list.len() > 0 {
        let rest = list.drop_last();
        let kept = rest.filter(keep);
        let all = list.filter(keep);
        lemma_filter_members(rest, keep);
        assert forall|x: A| #[trigger] all.contains(x) <==> list.contains(x) && keep(x) by {
            assert(kept.contains(x) <==> rest.contains(x) && keep(x));
            if all.contains(x) {
                let k = choose|k: int| 0 <= k < all.len() && all[k] == x;
                if k < kept.len() {
                    assert(kept[k] == x);
                    let i = choose|i: int| 0 <= i < rest.len() && rest[i] == x;
                    assert(list[i] == x);
                } else {
                    assert(list[list.len() - 1] == x);
                }
            }
            if list.contains(x) && keep(x) {
                let i = choose|i: int| 0 <= i < list.len() && list[i] == x;
                if i < rest.len() {
                    assert(rest[i] == x);
                    let k = choose|k: int| 0 <= k < kept.len() && kept[k] == x;
                    assert(all[k] == x);
                } else {
                    assert(all[kept.len() as int] == x);
                }
            }
        }
    }
}

/// Whether places go up, so that each is there once.
pub open spec fn goes_up(places: Seq<int>) -> bool {
    forall|i: int, j: int| 0 <= i < j < places.len() ==> #[trigger] places[i] < #[trigger] places[j]
}

/// A filtered list holds the items at the places that are kept, in order.
pub proof fn lemma_filter_places<A>(list: Seq<A>, keep: spec_fn(A) -> bool) -> (places: Seq<int>)
    ensures
        goes_up(places),
        forall|k: int| #[trigger] places.contains(k) <==> 0 <= k < list.len() && keep(list[k]),
        list.filter(keep).len() == places.len(),
        forall|i: int|
            0 <= i < places.len() ==> #[trigger] list.filter(keep)[i] == list[places[i]],
    decreases list.len(),
{
    reveal(Seq::filter);
    if list.len() == 0 {
        Seq::empty()
    } else {
        let rest = list.drop_last();
        let was = lemma_filter_places(rest, keep);
        assert forall|i: int| 0 <= i < was.len() implies 0 <= #[trigger] was[i] < rest.len() by {
            assert(was.contains(was[i]));
        }
        let at = list.len() - 1;
        let places = if keep(list.last()) {
            was.push(at)
        } else {
            was
        };
        assert forall|k: int| #[trigger] places.contains(k) <==> 0 <= k < list.len() && keep(
            list[k],
        ) by {
            if places.contains(k) {
                let i = choose|i: int| 0 <= i < places.len() && places[i] == k;
                if i < was.len() {
                    assert(was[i] == k);
                    assert(was.contains(k));
                    assert(rest[k] == list[k]);
                }
            }
            if 0 <= k < list.len() && keep(list[k]) {
                if k < at {
                    assert(rest[k] == list[k]);
                    assert(was.contains(k));
                    let i = choose|i: int| 0 <= i < was.len() && was[i] == k;
                    assert(places[i] == k);
                } else {
                    assert(places[was.len() as int] == k);
                }
            }
        }
        assert forall|i: int| 0 <= i < places.len() implies #[trigger] list.filter(keep)[i]
            == list[places[i]] by {
            if i < was.len() {
                assert(rest.filter(keep)[i] == rest[was[i]]);
                assert(rest[was[i]] == list[was[i]]);
            }
        }
        places
    }
}

/// A list that is filtered and mapped holds what the items at the places with a
/// result give, in order.
pub proof fn lemma_filter_map_places<A, B>(list: Seq<A>, f: spec_fn(A) -> Option<B>) -> (places: Seq<
    int,
>)
    ensures
        goes_up(places),
        forall|k: int| #[trigger]
            places.contains(k) <==> 0 <= k < list.len() && f(list[k]) is Some,
        list.filter_map(f).len() == places.len(),
        forall|i: int|
            0 <= i < places.len() ==> f(list[places[i]]) == Some(#[trigger] list.filter_map(f)[i]),
    decreases list.len(),
{
    if list.len() == 0 {
        assert(list.filter_map(f) =~= Seq::empty());
        Seq::empty()
    } else {
        let rest = list.drop_last();
        let at = list.len() - 1;
        let was = lemma_filter_map_places(rest, f);
        list.lemma_filter_map_take_succ(f, at);
        assert(list.take(at) =~= rest);
        assert(list.take(at + 1) =~= list);
        assert forall|i: int| 0 <= i < was.len() implies 0 <= #[trigger] was[i] < rest.len() by {
            assert(was.contains(was[i]));
        }
        let places = if f(list[at]) is Some {
            was.push(at)
        } else {
            was
        };
        assert forall|k: int| #[trigger] places.contains(k) <==> 0 <= k < list.len() && f(
            list[k],
        ) is Some by {
            if places.contains(k) {
                let i = choose|i: int| 0 <= i < places.len() && places[i] == k;
                if i < was.len() {
                    assert(was[i] == k);
                    assert(was.contains(k));
                    assert(rest[k] == list[k]);
                }
            }
            if 0 <= k < list.len() && f(list[k]) is Some {
                if k < at {
                    assert(rest[k] == list[k]);
                    assert(was.contains(k));
                    let i = choose|i: int| 0 <= i < was.len() && was[i] == k;
                    assert(places[i] == k);
                } else {
                    assert(places[was.len() as int] == k);
                }
            }
        }
        assert forall|i: int| 0 <= i < places.len() implies f(list[places[i]]) == Some(
            #[trigger] list.filter_map(f)[i],
        ) by {
            if i < was.len() {
                assert(f(rest[was[i]]) == Some(rest.filter_map(f)[i]));
                assert(rest[was[i]] == list[was[i]]);
            }
        }
        places
    }
}

} // verus!
