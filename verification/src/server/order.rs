//! Listings in a fixed order: by a number, then by a text.

use vstd::prelude::*;
use crate::text::chars_of;

verus! {

/// Whether `a` comes before `b`, or is the same: by the first character that differs, a shorter
/// text before the longer ones that it starts.
pub open spec fn text_le(a: Seq<char>, b: Seq<char>) -> bool
    decreases a.len(),
{
    if a.len() == 0 {
        true
    } else if b.len() == 0 {
        false
    } else if a[0] == b[0] {
        text_le(a.skip(1), b.skip(1))
    } else {
        a[0] < b[0]
    }
}

/// What a listing is ordered by.
pub struct Key {
    pub rank: u64,
    pub name: String,
}

/// Whether key `a` comes before `b`, or is the same.
pub open spec fn key_le(a: Key, b: Key) -> bool {
    a.rank < b.rank || (a.rank == b.rank && text_le(a.name@, b.name@))
}

/// Whether `places` lists each place of `keys` once, in the order of the keys, and equal keys as
/// they came.
pub open spec fn is_order(places: Seq<usize>, keys: Seq<Key>) -> bool {
    &&& places.len() == keys.len()
    &&& forall|i: int| 0 <= i < places.len() ==> #[trigger] places[i] < keys.len()
    &&& forall|i: int, j: int|
        0 <= i < j < places.len() ==> {
            &&& key_le(keys[#[trigger] places[i] as int], keys[#[trigger] places[j] as int])
            &&& key_le(keys[places[j] as int], keys[places[i] as int]) ==> places[i] < places[j]
            &&& places[i] != places[j]
        }
}

/// Any two texts can be compared, and no two different ones are the same in the order.
pub proof fn text_le_is_total(a: Seq<char>, b: Seq<char>)
    ensures
        text_le(a, b) || text_le(b, a),
        text_le(a, b) && text_le(b, a) ==> a == b,
        text_le(a, a),
    decreases a.len(),
{
    if a.len() > 0 && b.len() > 0 && a[0] == b[0] {
        text_le_is_total(a.skip(1), b.skip(1));
        assert(a =~= seq![a[0]] + a.skip(1));
        assert(b =~= seq![b[0]] + b.skip(1));
    } else if a.len() == 0 && b.len() == 0 {
        assert(a =~= b);
    }
    if a.len() > 0 && (b.len() == 0 || a[0] != b[0]) {
        text_le_is_total(a.skip(1), a.skip(1));
    }
}

/// What comes before a text comes before all that follow it.
pub proof fn text_le_is_transitive(a: Seq<char>, b: Seq<char>, c: Seq<char>)
    requires
        text_le(a, b),
        text_le(b, c),
    ensures
        text_le(a, c),
    decreases a.len(),
{
    if a.len() > 0 && b.len() > 0 && c.len() > 0 && a[0] == b[0] && b[0] == c[0] {
        text_le_is_transitive(a.skip(1), b.skip(1), c.skip(1));
    }
}

/// Compares two texts.
pub fn text_at_most(a: &str, b: &str) -> (r: bool)
    ensures
        r == text_le(a@, b@),
{
    let x = chars_of(a);
    let y = chars_of(b);
    let mut i: usize = 0;
    assert(a@.skip(0) =~= a@);
    assert(b@.skip(0) =~= b@);
    while i < x.len()
        invariant
            x@ == a@,
            y@ == b@,
            i <= x@.len(),
            i <= y@.len(),
            text_le(a@, b@) == text_le(a@.skip(i as int), b@.skip(i as int)),
        decreases x.len() - i,
    {
        if i >= y.len() {
            return false;
        }
        if x[i] != y[i] {
            return x[i] < y[i];
        }
        assert(a@.skip(i as int).skip(1) =~= a@.skip(i + 1));
        assert(b@.skip(i as int).skip(1) =~= b@.skip(i + 1));
        i = i + 1;
    }
    true
}

/// Compares two keys.
fn key_at_most(a: &Key, b: &Key) -> (r: bool)
    ensures
        r == key_le(*a, *b),
{
    a.rank < b.rank || (a.rank == b.rank && text_at_most(a.name.as_str(), b.name.as_str()))
}

proof fn lemma_key_le(a: Key, b: Key, c: Key)
    ensures
        key_le(a, b) || key_le(b, a),
        key_le(a, a),
        key_le(a, b) && key_le(b, c) ==> key_le(a, c),
{
    text_le_is_total(a.name@, b.name@);
    text_le_is_total(a.name@, a.name@);
    if text_le(a.name@, b.name@) && text_le(b.name@, c.name@) {
        text_le_is_transitive(a.name@, b.name@, c.name@);
    }
}

/// The places of the keys in order.
pub fn order(keys: &Vec<Key>) -> (places: Vec<usize>)
    ensures
        is_order(places@, keys@),
{
    let mut places: Vec<usize> = Vec::new();
    let mut n: usize = 0;
    assert(keys@.take(0) =~= Seq::<Key>::empty());
    while n < keys.len()
        invariant
            n <= keys@.len(),
            is_order(places@, keys@.take(n as int)),
        decreases keys.len() - n,
    {
        let ghost before = places@;
        let mut at: usize = places.len();
        while at > 0 && !key_at_most(&keys[places[at - 1]], &keys[n])
            invariant
                n < keys@.len(),
                at <= places@.len(),
                places@ == before,
                is_order(before, keys@.take(n as int)),
                forall|j: int|
                    at <= j < before.len() ==> !key_le(
                        keys@[#[trigger] before[j] as int],
                        keys@[n as int],
                    ),
            decreases at,
        {
            at = at - 1;
        }
        places.insert(at, n);
        proof {
            let shorter = keys@.take(n as int);
            let longer = keys@.take(n + 1);
            let now = places@;
            assert forall|i: int| 0 <= i < before.len() implies keys@[#[trigger] before[i] as int]
                == shorter[before[i] as int] by {}
            assert forall|i: int, j: int| 0 <= i < j < now.len() implies {
                &&& key_le(longer[#[trigger] now[i] as int], longer[#[trigger] now[j] as int])
                &&& key_le(longer[now[j] as int], longer[now[i] as int]) ==> now[i] < now[j]
                &&& now[i] != now[j]
            } by {
                let bi = if i < at {
                    i
                } else {
                    i - 1
                };
                let bj = if j < at {
                    j
                } else {
                    j - 1
                };
                if i != at && j != at {
                    assert(now[i] == before[bi] && now[j] == before[bj]);
                } else if j == at {
                    assert(now[i] == before[i]);
                    assert(at > 0);
                    let last = before[at - 1];
                    assert(key_le(keys@[last as int], keys@[n as int]));
                    lemma_key_le(keys@[before[i] as int], keys@[last as int], keys@[n as int]);
                    if i < at - 1 {
                        assert(key_le(shorter[before[i] as int], shorter[last as int]));
                    }
                } else {
                    assert(now[j] == before[bj]);
                    assert(!key_le(keys@[before[bj] as int], keys@[n as int]));
                    lemma_key_le(keys@[before[bj] as int], keys@[n as int], keys@[n as int]);
                }
            }
        }
        n = n + 1;
    }
    assert(keys@.take(n as int) =~= keys@);
    places
}

/// As many different places below `n` as there are cover all of them.
pub(crate) proof fn lemma_places_cover(places: Seq<usize>, n: int, at: int) -> (i: int)
    requires
        places.len() == n,
        forall|i: int| 0 <= i < n ==> #[trigger] places[i] < n,
        forall|i: int, j: int| 0 <= i < j < n ==> #[trigger] places[i] != #[trigger] places[j],
        0 <= at < n,
    ensures
        0 <= i < n,
        places[i] == at,
{
    let values = places.map_values(|p: usize| p as int);
    assert(values.no_duplicates()) by {
        assert forall|i: int, j: int| 0 <= i < n && 0 <= j < n && i != j implies values[i]
            != values[j] by {
            if i < j {
                assert(places[i] != places[j]);
            } else {
                assert(places[j] != places[i]);
            }
        }
    }
    values.unique_seq_to_set();
    let below = vstd::set_lib::set_int_range(0, n);
    vstd::set_lib::lemma_int_range(0, n);
    assert(values.to_set().subset_of(below)) by {
        assert forall|v: int| values.to_set().contains(v) implies below.contains(v) by {
            let i = choose|i: int| 0 <= i < values.len() && values[i] == v;
            assert(places[i] < n);
        }
    }
    vstd::set_lib::lemma_subset_equality(values.to_set(), below);
    assert(below.contains(at));
    assert(values.to_set().contains(at));
    choose|i: int| 0 <= i < values.len() && values[i] == at
}

/// Whether place `p` is listed before `q`, or is the same.
spec fn listed_before(keys: Seq<Key>, p: usize, q: usize) -> bool {
    key_le(keys[p as int], keys[q as int]) && (key_le(keys[q as int], keys[p as int]) ==> p <= q)
}

proof fn lemma_listing_is_total(keys: Seq<Key>)
    ensures
        vstd::relations::total_ordering(|p: usize, q: usize| listed_before(keys, p, q)),
{
    let before = |p: usize, q: usize| listed_before(keys, p, q);
    assert forall|p: usize, q: usize, r: usize|
        #[trigger] before(p, q) && #[trigger] before(q, r) implies before(p, r) by {
        let (a, b, c) = (keys[p as int], keys[q as int], keys[r as int]);
        lemma_key_le(a, b, c);
        if key_le(c, a) {
            lemma_key_le(c, a, b);
            lemma_key_le(b, c, a);
        }
    }
    assert forall|p: usize, q: usize| #[trigger] before(p, q) || #[trigger] before(q, p) by {
        lemma_key_le(keys[p as int], keys[q as int], keys[q as int]);
    }
    assert forall|p: usize| #[trigger] before(p, p) by {
        lemma_key_le(keys[p as int], keys[p as int], keys[p as int]);
    }
}

/// There is one order: whoever lists the same keys lists them in the same way.
pub proof fn there_is_one_order(keys: Seq<Key>, a: Seq<usize>, b: Seq<usize>)
    requires
        keys.len() <= usize::MAX,
        is_order(a, keys),
        is_order(b, keys),
    ensures
        a == b,
{
    let before = |p: usize, q: usize| listed_before(keys, p, q);
    lemma_listing_is_total(keys);
    lemma_order_is_sorted(keys, a);
    lemma_order_is_sorted(keys, b);
    a.lemma_multiset_has_no_duplicates();
    b.lemma_multiset_has_no_duplicates();
    assert forall|p: usize| #[trigger] a.to_multiset().count(p) == b.to_multiset().count(p) by {
        vstd::seq_lib::to_multiset_contains(a, p);
        vstd::seq_lib::to_multiset_contains(b, p);
        let n = keys.len() as int;
        if p < n {
            let i = lemma_places_cover(a, n, p as int);
            let j = lemma_places_cover(b, n, p as int);
            assert(a.contains(p) && b.contains(p));
        } else {
            assert(!a.contains(p) && !b.contains(p));
        }
    }
    assert(a.to_multiset() =~= b.to_multiset());
    vstd::seq_lib::lemma_sorted_unique(a, b, before);
}

proof fn lemma_order_is_sorted(keys: Seq<Key>, a: Seq<usize>)
    requires
        is_order(a, keys),
    ensures
        vstd::relations::sorted_by(a, |p: usize, q: usize| listed_before(keys, p, q)),
        a.no_duplicates(),
{
    assert forall|i: int, j: int| 0 <= i < a.len() && 0 <= j < a.len() && i != j implies a[i]
        != a[j] by {
        if i < j {
            assert(a[i] != a[j]);
        } else {
            assert(a[j] != a[i]);
        }
    }
}

} // verus!
