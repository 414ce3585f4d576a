//! Maps and sets keyed by text, kept in the order of their keys.
use vstd::prelude::*;

use crate::order::{
    before, increasing, is_before, lemma_asymmetric, lemma_irreflexive, lemma_total,
    lemma_transitive,
};

verus! {

/// Whether `list` holds the texts of `keys`, each once and in order.
pub open spec fn lists(list: Seq<Seq<char>>, keys: Set<Seq<char>>) -> bool {
    &&& increasing(list)
    &&& forall|k: Seq<char>| list.contains(k) <==> #[trigger] keys.contains(k)
}

/// The texts of `keys` in order.
pub open spec fn in_order(keys: Set<Seq<char>>) -> Seq<Seq<char>> {
    choose|list: Seq<Seq<char>>| lists(list, keys)
}

/// A set of texts has one listing in order at most.
pub proof fn lemma_one_listing(a: Seq<Seq<char>>, b: Seq<Seq<char>>, keys: Set<Seq<char>>)
    requires
        lists(a, keys),
        lists(b, keys),
    ensures
        a == b,
    decreases a.len(),
{
    if a.len() == 0 {
        if b.len() > 0 {
            assert(b.contains(b[0]));
            assert(keys.contains(b[0]));
            assert(a.contains(b[0]));
        }
        assert(a =~= b);
    } else {
        let last = a.last();
        assert(a.contains(last));
        assert(keys.contains(last));
        let at = choose|i: int| 0 <= i < b.len() && b[i] == last;
        if at < b.len() - 1 {
            let top = b.last();
            assert(b.contains(top));
            assert(keys.contains(top));
            let j = choose|j: int| 0 <= j < a.len() && a[j] == top;
            assert(before(b[at], b[b.len() - 1]));
            if j < a.len() - 1 {
                assert(before(a[j], a[a.len() - 1]));
                lemma_asymmetric(last, top);
            } else {
                lemma_irreflexive(last);
            }
        }
        assert(b.last() == last);
        let rest = keys.remove(last);
        let a1 = a.drop_last();
        let b1 = b.drop_last();
        lemma_without_last(a, keys);
        lemma_without_last(b, keys);
        lemma_one_listing(a1, b1, rest);
        assert(a =~= a1.push(last));
        assert(b =~= b1.push(last));
    }
}

proof fn lemma_without_last(a: Seq<Seq<char>>, keys: Set<Seq<char>>)
    requires
        lists(a, keys),
        a.len() > 0,
    ensures
        lists(a.drop_last(), keys.remove(a.last())),
{
    let last = a.last();
    let rest = a.drop_last();
    assert forall|i: int, j: int| 0 <= i < j < rest.len() implies before(
        #[trigger] rest[i],
        #[trigger] rest[j],
    ) by {
        assert(before(a[i], a[j]));
    }
    assert forall|k: Seq<char>| rest.contains(k) <==> #[trigger] keys.remove(last).contains(k) by {
        if rest.contains(k) {
            let i = choose|i: int| 0 <= i < rest.len() && rest[i] == k;
            assert(a[i] == k);
            assert(a.contains(k));
            assert(before(a[i], a[a.len() - 1]));
            lemma_irreflexive(k);
        }
        if keys.remove(last).contains(k) {
            assert(a.contains(k));
            let i = choose|i: int| 0 <= i < a.len() && a[i] == k;
            assert(rest[i] == k);
        }
    }
}

/// A listing of `keys` is the listing in order.
pub proof fn lemma_in_order(list: Seq<Seq<char>>, keys: Set<Seq<char>>)
    requires
        lists(list, keys),
    ensures
        in_order(keys) == list,
{
    lemma_one_listing(in_order(keys), list, keys);
}

/// Where `k` goes in a listing.
spec fn place_for(list: Seq<Seq<char>>, k: Seq<char>) -> int
    decreases list.len(),
{
    if list.len() > 0 && before(k, list.last()) {
        place_for(list.drop_last(), k)
    } else {
        list.len() as int
    }
}

proof fn lemma_place_for(list: Seq<Seq<char>>, k: Seq<char>)
    requires
        increasing(list),
        !list.contains(k),
    ensures
        0 <= place_for(list, k) <= list.len(),
        forall|i: int| 0 <= i < place_for(list, k) ==> before(#[trigger] list[i], k),
        forall|i: int| place_for(list, k) <= i < list.len() ==> before(k, #[trigger] list[i]),
    decreases list.len(),
{
    if list.len() > 0 {
        let last = list.last();
        let rest = list.drop_last();
        if before(k, last) {
            assert forall|i: int, j: int| 0 <= i < j < rest.len() implies before(
                #[trigger] rest[i],
                #[trigger] rest[j],
            ) by {
                assert(before(list[i], list[j]));
            }
            assert(!rest.contains(k)) by {
                if rest.contains(k) {
                    let i = choose|i: int| 0 <= i < rest.len() && rest[i] == k;
                    assert(list[i] == k);
                }
            }
            lemma_place_for(rest, k);
            assert forall|i: int| 0 <= i < place_for(list, k) implies before(
                #[trigger] list[i],
                k,
            ) by {
                assert(rest[i] == list[i]);
            }
            assert forall|i: int| place_for(list, k) <= i < list.len() implies before(
                k,
                #[trigger] list[i],
            ) by {
                if i < rest.len() {
                    assert(rest[i] == list[i]);
                }
            }
        } else {
            assert(list[list.len() - 1] == last);
            lemma_total(k, last);
            assert forall|i: int| 0 <= i < list.len() implies before(#[trigger] list[i], k) by {
                if i < list.len() - 1 {
                    assert(before(list[i], list[list.len() - 1]));
                    lemma_transitive(list[i], last, k);
                }
            }
        }
    }
}

/// Each finite set of texts has its listing in order.
pub proof fn lemma_listable(keys: Set<Seq<char>>)
    requires
        keys.finite(),
    ensures
        lists(in_order(keys), keys),
    decreases keys.len(),
{
    if keys.len() == 0 {
        let none = Seq::<Seq<char>>::empty();
        assert(keys =~= Set::empty());
        assert(lists(none, keys));
    } else {
        let k = keys.choose();
        let rest = keys.remove(k);
        lemma_listable(rest);
        let list = in_order(rest);
        assert(!list.contains(k)) by {
            assert(!rest.contains(k));
        }
        lemma_place_for(list, k);
        let at = place_for(list, k);
        let whole = list.insert(at, k);
        assert forall|i: int, j: int| 0 <= i < j < whole.len() implies before(
            #[trigger] whole[i],
            #[trigger] whole[j],
        ) by {
            let i0 = if i < at { i } else { i - 1 };
            let j0 = if j < at { j } else { j - 1 };
            if i != at && j != at {
                assert(before(list[i0], list[j0]));
            } else if i == at {
                assert(before(k, list[j0]));
            } else {
                assert(before(list[i0], k));
            }
        }
        assert forall|x: Seq<char>| whole.contains(x) <==> #[trigger] keys.contains(x) by {
            if whole.contains(x) {
                let i = choose|i: int| 0 <= i < whole.len() && whole[i] == x;
                if i < at {
                    assert(list[i] == x);
                } else if i > at {
                    assert(list[i - 1] == x);
                }
                if i != at {
                    assert(list.contains(x));
                    assert(rest.contains(x));
                }
            }
            if keys.contains(x) {
                if x == k {
                    assert(whole[at] == x);
                } else {
                    assert(rest.contains(x));
                    let i = choose|i: int| 0 <= i < list.len() && list[i] == x;
                    if i < at {
                        assert(whole[i] == x);
                    } else {
                        assert(whole[i + 1] == x);
                    }
                }
            }
        }
        assert(lists(whole, keys));
    }
}

/// A map from texts to values. Its entries stand in the order of their keys.
pub struct TextMap<V> {
    entries: Vec<(String, V)>,
}

spec fn keys_of<V>(entries: Seq<(String, V)>) -> Seq<Seq<char>> {
    Seq::new(entries.len(), |i: int| entries[i].0@)
}

spec fn as_map<V: View>(entries: Seq<(String, V)>) -> Map<Seq<char>, V::V> {
    Map::new(
        |k: Seq<char>| keys_of(entries).contains(k),
        |k: Seq<char>| entries[keys_of(entries).index_of(k)].1@,
    )
}

proof fn lemma_entry<V: View>(entries: Seq<(String, V)>, i: int)
    requires
        0 <= i < entries.len(),
        increasing(keys_of(entries)),
    ensures
        as_map(entries).contains_key(entries[i].0@),
        as_map(entries)[entries[i].0@] == entries[i].1@,
        keys_of(entries).index_of(entries[i].0@) == i,
{
    let keys = keys_of(entries);
    let k = entries[i].0@;
    assert(keys[i] == k);
    assert(keys.contains(k));
    let j = keys.index_of(k);
    if j < i {
        assert(before(keys[j], keys[i]));
        lemma_irreflexive(k);
    }
    if i < j {
        assert(before(keys[i], keys[j]));
        lemma_irreflexive(k);
    }
}

impl<V> TextMap<V> {
    #[verifier::type_invariant]
    spec fn sorted(self) -> bool {
        increasing(keys_of(self.entries@))
    }
}

impl<V: View> View for TextMap<V> {
    type V = Map<Seq<char>, V::V>;

    closed spec fn view(&self) -> Map<Seq<char>, V::V> {
        as_map(self.entries@)
    }
}

impl<V: View> TextMap<V> {
    /// The keys in order.
    pub open spec fn keys(&self) -> Seq<Seq<char>> {
        in_order(self@.dom())
    }

    /// A map without entries.
    pub fn new() -> (r: Self)
        ensures
            r@ == Map::<Seq<char>, V::V>::empty(),
    {
        let r = TextMap { entries: Vec::new() };
        assert(keys_of(r.entries@) =~= Seq::empty());
        assert(r@ =~= Map::<Seq<char>, V::V>::empty());
        r
    }

    /// How many entries the map has. Its keys are what `key_at` gives below it.
    pub fn len(&self) -> (n: usize)
        ensures
            n == self.keys().len(),
            lists(self.keys(), self@.dom()),
    {
        proof {
            use_type_invariant(self);
            lemma_listed(self.entries@);
        }
        self.entries.len()
    }

    /// The key at a place of the order.
    pub fn key_at(&self, i: usize) -> (k: &String)
        requires
            i < self.keys().len(),
        ensures
            k@ == self.keys()[i as int],
            self@.contains_key(k@),
    {
        proof {
            use_type_invariant(self);
            lemma_listed(self.entries@);
            lemma_entry(self.entries@, i as int);
        }
        &self.entries[i].0
    }

    /// The value at a place of the order of the keys.
    pub fn value_at(&self, i: usize) -> (v: &V)
        requires
            i < self.keys().len(),
        ensures
            v@ == self@[self.keys()[i as int]],
    {
        proof {
            use_type_invariant(self);
            lemma_listed(self.entries@);
            lemma_entry(self.entries@, i as int);
        }
        &self.entries[i].1
    }

    /// The value of a key, where the map has it.
    pub fn get(&self, key: &str) -> (r: Option<&V>)
        ensures
            match r {
                Some(v) => self@.contains_key(key@) && self@[key@] == v@,
                None => !self@.contains_key(key@),
            },
    {
        proof {
            use_type_invariant(self);
        }
        for i in 0..self.entries.len()
            invariant
                increasing(keys_of(self.entries@)),
                forall|j: int| 0 <= j < i ==> self.entries@[j].0@ != key@,
        {
            if crate::text::same(self.entries[i].0.as_str(), key) {
                proof {
                    lemma_entry(self.entries@, i as int);
                }
                return Some(&self.entries[i].1);
            }
        }
        assert forall|j: int| 0 <= j < keys_of(self.entries@).len() implies keys_of(
            self.entries@,
        )[j] != key@ by {}
        None
    }

    /// Gives a key a value, in place of the one it had.
    pub fn insert(&mut self, key: String, value: V)
        ensures
            final(self)@ == old(self)@.insert(key@, value@),
    {
        proof {
            use_type_invariant(&*self);
        }
        let mut entries: Vec<(String, V)> = Vec::new();
        std::mem::swap(&mut entries, &mut self.entries);
        let ghost start = entries@;
        let mut at: usize = 0;
        while at < entries.len() && is_before(entries[at].0.as_str(), key.as_str())
            invariant
                at <= entries@.len(),
                forall|j: int| 0 <= j < at ==> before(entries@[j].0@, key@),
            decreases entries@.len() - at,
        {
            at += 1;
        }
        if at < entries.len() && crate::text::same(entries[at].0.as_str(), key.as_str()) {
            let ghost k = key@;
            let ghost v = value@;
            entries.remove(at);
            entries.insert(at, (key, value));
            proof {
                assert(entries@ =~= start.update(at as int, entries@[at as int]));
                assert(keys_of(entries@) =~= keys_of(start));
                lemma_replaced(start, entries@, at as int, k, v);
            }
        } else {
            let ghost k = key@;
            let ghost v = value@;
            entries.insert(at, (key, value));
            proof {
                if at < start.len() {
                    lemma_total(start[at as int].0@, k);
                }
                lemma_inserted(start, entries@, at as int, k, v);
            }
        }
        self.entries = entries;
    }

    /// Takes a key and its value out, and says whether the map had it.
    pub fn remove(&mut self, key: &str) -> (r: bool)
        ensures
            r == old(self)@.contains_key(key@),
            final(self)@ == old(self)@.remove(key@),
    {
        proof {
            use_type_invariant(&*self);
        }
        let mut entries: Vec<(String, V)> = Vec::new();
        std::mem::swap(&mut entries, &mut self.entries);
        let ghost start = entries@;
        let mut at: usize = 0;
        while at < entries.len() && !crate::text::same(entries[at].0.as_str(), key)
            invariant
                entries@ == start,
                at <= entries@.len(),
                forall|j: int| 0 <= j < at ==> entries@[j].0@ != key@,
            decreases entries@.len() - at,
        {
            at += 1;
        }
        if at < entries.len() {
            entries.remove(at);
            proof {
                lemma_entry(start, at as int);
                lemma_removed(start, entries@, at as int);
            }
            self.entries = entries;
            true
        } else {
            proof {
                assert forall|j: int| 0 <= j < keys_of(start).len() implies keys_of(start)[j]
                    != key@ by {}
                assert(as_map(start).remove(key@) =~= as_map(start));
            }
            self.entries = entries;
            false
        }
    }
}

proof fn lemma_listed<V: View>(entries: Seq<(String, V)>)
    requires
        increasing(keys_of(entries)),
    ensures
        lists(keys_of(entries), as_map(entries).dom()),
        in_order(as_map(entries).dom()) == keys_of(entries),
{
    assert(lists(keys_of(entries), as_map(entries).dom()));
    lemma_in_order(keys_of(entries), as_map(entries).dom());
}

proof fn lemma_replaced<V: View>(
    a: Seq<(String, V)>,
    b: Seq<(String, V)>,
    at: int,
    k: Seq<char>,
    v: V::V,
)
    requires
        increasing(keys_of(a)),
        keys_of(a) == keys_of(b),
        0 <= at < a.len(),
        a.len() == b.len(),
        a[at].0@ == k,
        b[at].1@ == v,
        forall|j: int| 0 <= j < a.len() && j != at ==> a[j] == b[j],
    ensures
        as_map(b) == as_map(a).insert(k, v),
{
    assert(keys_of(a)[at] == k);
    assert forall|x: Seq<char>| #[trigger]
        as_map(b).contains_key(x) implies as_map(b)[x] == as_map(a).insert(k, v)[x] by {
        let i = keys_of(b).index_of(x);
        lemma_entry(a, i);
        lemma_entry(b, i);
        lemma_entry(a, at);
        assert(keys_of(a)[i] == x);
    }
    assert(as_map(b) =~= as_map(a).insert(k, v));
}

proof fn lemma_inserted<V: View>(
    a: Seq<(String, V)>,
    b: Seq<(String, V)>,
    at: int,
    k: Seq<char>,
    v: V::V,
)
    requires
        increasing(keys_of(a)),
        0 <= at <= a.len(),
        b.len() == a.len() + 1,
        b[at].0@ == k,
        b[at].1@ == v,
        forall|j: int| 0 <= j < at ==> a[j] == b[j],
        forall|j: int| at <= j < a.len() ==> a[j] == #[trigger] b[j + 1],
        forall|j: int| 0 <= j < at ==> before(a[j].0@, k),
        at < a.len() ==> before(k, a[at].0@),
    ensures
        increasing(keys_of(b)),
        as_map(b) == as_map(a).insert(k, v),
{
    let ka = keys_of(a);
    let kb = keys_of(b);
    assert forall|j: int| at <= j < a.len() implies before(k, #[trigger] a[j].0@) by {
        if j > at {
            assert(before(ka[at], ka[j]));
            lemma_transitive(k, ka[at], ka[j]);
        }
    }
    assert forall|i: int, j: int| 0 <= i < j < kb.len() implies before(
        #[trigger] kb[i],
        #[trigger] kb[j],
    ) by {
        if j < at {
            assert(before(ka[i], ka[j]));
        } else if j == at {
            assert(before(a[i].0@, k));
        } else if i < at {
            assert(b[j - 1 + 1] == a[j - 1]);
            assert(before(ka[i], ka[j - 1]));
        } else if i == at {
            assert(b[j - 1 + 1] == a[j - 1]);
            assert(before(k, a[j - 1].0@));
        } else {
            assert(b[j - 1 + 1] == a[j - 1]);
            assert(b[i - 1 + 1] == a[i - 1]);
            assert(before(ka[i - 1], ka[j - 1]));
        }
    }
    let want = as_map(a).insert(k, v);
    assert forall|x: Seq<char>| as_map(b).contains_key(x) <==> #[trigger] want.contains_key(x) by {
        if as_map(b).contains_key(x) {
            let i = kb.index_of(x);
            if i < at {
                assert(ka[i] == x);
            } else if i > at {
                assert(b[i - 1 + 1] == a[i - 1]);
                assert(ka[i - 1] == x);
            }
        }
        if want.contains_key(x) {
            if x == k {
                assert(kb[at] == x);
            } else {
                let i = ka.index_of(x);
                if i < at {
                    assert(kb[i] == x);
                } else {
                    assert(b[i + 1] == a[i]);
                    assert(kb[i + 1] == x);
                }
            }
        }
    }
    assert forall|x: Seq<char>| #[trigger] as_map(b).contains_key(x) implies as_map(b)[x]
        == want[x] by {
        let i = kb.index_of(x);
        assert(kb[i] == x);
        lemma_entry(b, i);
        if i < at {
            lemma_entry(a, i);
            lemma_irreflexive(x);
        } else if i > at {
            assert(b[i - 1 + 1] == a[i - 1]);
            lemma_entry(a, i - 1);
            lemma_irreflexive(x);
        }
    }
    assert(as_map(b) =~= want);
}

proof fn lemma_removed<V: View>(a: Seq<(String, V)>, b: Seq<(String, V)>, at: int)
    requires
        increasing(keys_of(a)),
        0 <= at < a.len(),
        b == a.remove(at),
    ensures
        increasing(keys_of(b)),
        as_map(b) == as_map(a).remove(a[at].0@),
{
    let ka = keys_of(a);
    let kb = keys_of(b);
    let k = a[at].0@;
    assert forall|i: int, j: int| 0 <= i < j < kb.len() implies before(
        #[trigger] kb[i],
        #[trigger] kb[j],
    ) by {
        let i0 = if i < at { i } else { i + 1 };
        let j0 = if j < at { j } else { j + 1 };
        assert(b[i] == a[i0] && b[j] == a[j0]);
        assert(before(ka[i0], ka[j0]));
    }
    let want = as_map(a).remove(k);
    assert forall|x: Seq<char>| as_map(b).contains_key(x) <==> #[trigger] want.contains_key(x) by {
        if as_map(b).contains_key(x) {
            let i = kb.index_of(x);
            let i0 = if i < at { i } else { i + 1 };
            assert(b[i] == a[i0]);
            assert(ka[i0] == x);
            lemma_entry(a, i0);
            lemma_entry(a, at);
        }
        if want.contains_key(x) {
            let i0 = ka.index_of(x);
            assert(ka[i0] == x);
            let i = if i0 < at { i0 } else { i0 - 1 };
            assert(b[i] == a[i0]);
            assert(kb[i] == x);
        }
    }
    assert forall|x: Seq<char>| #[trigger] as_map(b).contains_key(x) implies as_map(b)[x]
        == want[x] by {
        let i = kb.index_of(x);
        assert(kb[i] == x);
        let i0 = if i < at { i } else { i + 1 };
        assert(b[i] == a[i0]);
        lemma_entry(b, i);
        lemma_entry(a, i0);
        lemma_entry(a, at);
        assert(want.contains_key(x));
    }
    assert(as_map(b) =~= want);
}

/// A set of texts, listed in order.
pub struct TextSet {
    names: TextMap<()>,
}

impl View for TextSet {
    type V = Set<Seq<char>>;

    closed spec fn view(&self) -> Set<Seq<char>> {
        self.names@.dom()
    }
}

impl TextSet {
    /// The empty set.
    pub fn new() -> (r: Self)
        ensures
            r@ == Set::<Seq<char>>::empty(),
    {
        let r = TextSet { names: TextMap::new() };
        assert(r@ =~= Set::<Seq<char>>::empty());
        r
    }

    /// Whether the set holds `s`.
    pub fn contains(&self, s: &str) -> (r: bool)
        ensures
            r == self@.contains(s@),
    {
        self.names.get(s).is_some()
    }

    /// Puts a text into the set.
    pub fn insert(&mut self, s: String)
        ensures
            final(self)@ == old(self)@.insert(s@),
    {
        let ghost was = self.names@;
        self.names.insert(s, ());
        assert(self.names@.dom() =~= was.dom().insert(s@));
    }

    /// Takes a text out, and says whether the set held it.
    pub fn remove(&mut self, s: &str) -> (r: bool)
        ensures
            r == old(self)@.contains(s@),
            final(self)@ == old(self)@.remove(s@),
    {
        let ghost was = self.names@;
        let r = self.names.remove(s);
        assert(self.names@.dom() =~= was.dom().remove(s@));
        r
    }

    /// How many texts the set holds.
    pub fn len(&self) -> (n: usize)
        ensures
            n == in_order(self@).len(),
            lists(in_order(self@), self@),
    {
        self.names.len()
    }

    /// The texts of the set, in order.
    pub fn to_list(&self) -> (r: Vec<String>)
        ensures
            crate::text::texts(r@) == in_order(self@),
            lists(in_order(self@), self@),
    {
        let mut out: Vec<String> = Vec::new();
        let n = self.names.len();
        for i in 0..n
            invariant
                n == self.names.keys().len(),
                crate::text::texts(out@) == self.names.keys().take(i as int),
        {
            let ghost earlier = crate::text::texts(out@);
            let name = self.names.key_at(i).clone();
            out.push(name);
            assert(crate::text::texts(out@) =~= earlier.push(name@));
            assert(self.names.keys().take(i + 1) =~= earlier.push(name@));
        }
        assert(self.names.keys().take(n as int) =~= self.names.keys());
        out
    }
}

} // verus!
