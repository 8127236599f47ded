//! The mathematical model shared by every collection: a sequence of entries,
//! searched by the view of the key.

use vstd::prelude::*;

verus! {

/// Some entry of `entries` has a key whose view is `k`.
pub open spec fn has_key<K: View, V>(entries: Seq<(K, V)>, k: K::V) -> bool {
    exists|i: int| 0 <= i < entries.len() && (#[trigger] entries[i]).0@ == k
}

/// `i` is the position of the first entry of `entries` whose key has view `k`.
pub open spec fn is_first_match<K: View, V>(entries: Seq<(K, V)>, k: K::V, i: int) -> bool {
    &&& 0 <= i < entries.len()
    &&& entries[i].0@ == k
    &&& forall|j: int| 0 <= j < i ==> (#[trigger] entries[j]).0@ != k
}

/// The position of the first entry whose key has view `k`; meaningful where
/// `has_key(entries, k)`.
pub open spec fn first_index<K: View, V>(entries: Seq<(K, V)>, k: K::V) -> int {
    choose|i: int| is_first_match(entries, k, i)
}

/// What a lookup of `k` answers: the value of the first entry with that key.
pub open spec fn lookup<K: View, V>(entries: Seq<(K, V)>, k: K::V) -> Option<V> {
    if has_key(entries, k) {
        Some(entries[first_index(entries, k)].1)
    } else {
        None
    }
}

/// What a lookup of `k` answers when the stored key is wanted too.
pub open spec fn lookup_entry<K: View, V>(entries: Seq<(K, V)>, k: K::V) -> Option<(K, V)> {
    if has_key(entries, k) {
        Some(entries[first_index(entries, k)])
    } else {
        None
    }
}

/// No two entries have keys with the same view.
pub open spec fn distinct_keys<K: View, V>(entries: Seq<(K, V)>) -> bool {
    forall|i: int, j: int|
        0 <= i < entries.len() && 0 <= j < entries.len() && i != j ==> (#[trigger] entries[i]).0@
            != (#[trigger] entries[j]).0@
}

/// The keys of the entries, in order.
pub open spec fn keys_of<K, V>(entries: Seq<(K, V)>) -> Seq<K> {
    Seq::new(entries.len(), |i: int| entries[i].0)
}

/// The values of the entries, in order.
pub open spec fn values_of<K, V>(entries: Seq<(K, V)>) -> Seq<V> {
    Seq::new(entries.len(), |i: int| entries[i].1)
}

/// The views of the keys that occur in `entries`.
pub open spec fn key_set<K: View, V>(entries: Seq<(K, V)>) -> Set<K::V> {
    Set::new(|k: K::V| has_key(entries, k))
}

/// The entries of a set built from `items`: each item paired with the unit value.
pub open spec fn unit_entries<T>(items: Seq<T>) -> Seq<(T, ())> {
    Seq::new(items.len(), |i: int| (items[i], ()))
}

/// Some item of `items` has the view `v`.
pub open spec fn has_item<T: View>(items: Seq<T>, v: T::V) -> bool {
    exists|i: int| 0 <= i < items.len() && (#[trigger] items[i])@ == v
}

/// `i` is the position of the first item of `items` with view `v`.
pub open spec fn is_first_item<T: View>(items: Seq<T>, v: T::V, i: int) -> bool {
    &&& 0 <= i < items.len()
    &&& items[i]@ == v
    &&& forall|j: int| 0 <= j < i ==> (#[trigger] items[j])@ != v
}

/// What a set answers when asked for `v`: the first item with that view.
pub open spec fn find_item<T: View>(items: Seq<T>, v: T::V) -> Option<T> {
    if has_item(items, v) {
        Some(items[choose|i: int| is_first_item(items, v, i)])
    } else {
        None
    }
}

/// The items of a set are the keys of its entries: what is found among the
/// entries is found among the items.
pub proof fn lemma_items_of_entries<T: View>(entries: Seq<(T, ())>, v: T::V)
    ensures
        has_item(keys_of(entries), v) == has_key(entries, v),
        find_item(keys_of(entries), v) == (match lookup_entry(entries, v) {
            Some(e) => Some(e.0),
            None => None,
        }),
{
    let items = keys_of(entries);
    if has_key(entries, v) {
        let w = choose|i: int| 0 <= i < entries.len() && (#[trigger] entries[i]).0@ == v;
        assert(items[w]@ == v);
        lemma_has_key_has_first(entries, v);
        let i = first_index(entries, v);
        assert(is_first_item(items, v, i)) by {
            assert forall|j: int| 0 <= j < i implies (#[trigger] items[j])@ != v by {
                assert(entries[j].0@ != v);
            }
        }
        let c = choose|c: int| is_first_item(items, v, c);
        assert(c == i) by {
            if c < i {
                assert(entries[c].0@ != v);
            } else if i < c {
                assert(items[i]@ != v);
            }
        }
    }
    if has_item(items, v) {
        let w = choose|i: int| 0 <= i < items.len() && (#[trigger] items[i])@ == v;
        assert(entries[w].0@ == v);
    }
}

/// Pairing each item with the unit value keeps how often each item occurs.
pub proof fn lemma_unit_entries_count<T>(items: Seq<T>, t: T)
    ensures
        unit_entries(items).to_multiset().count((t, ())) == items.to_multiset().count(t),
    decreases items.len(),
{
    broadcast use vstd::multiset::group_multiset_axioms;

    if items.len() == 0 {
        items.to_multiset_ensures();
        unit_entries(items).to_multiset_ensures();
        vstd::multiset::lemma_multiset_empty_len(items.to_multiset());
        vstd::multiset::lemma_multiset_empty_len(unit_entries(items).to_multiset());
    } else {
        let front = items.drop_last();
        let last = items.last();
        lemma_unit_entries_count(front, t);
        assert(items =~= front.push(last));
        assert(unit_entries(items) =~= unit_entries(front).push((last, ())));
        vstd::seq_lib::to_multiset_build(front, last);
        vstd::seq_lib::to_multiset_build(unit_entries(front), (last, ()));
    }
}

/// Entries with unit values that are the same as a multiset have keys that
/// are the same as a multiset.
pub proof fn lemma_unit_entries_items<T>(entries: Seq<(T, ())>, items: Seq<T>)
    requires
        entries.to_multiset() == unit_entries(items).to_multiset(),
    ensures
        keys_of(entries).to_multiset() == items.to_multiset(),
        keys_of(entries).len() == items.len(),
{
    assert forall|i: int| 0 <= i < entries.len() implies #[trigger] entries[i] == unit_entries(
        keys_of(entries),
    )[i] by {
        let u: () = entries[i].1;
        assert(u == ());
        assert(entries[i] =~= (entries[i].0, ()));
    }
    assert(entries =~= unit_entries(keys_of(entries)));
    assert forall|t: T| keys_of(entries).to_multiset().count(t) == items.to_multiset().count(t) by {
        lemma_unit_entries_count(keys_of(entries), t);
        lemma_unit_entries_count(items, t);
    }
    assert(keys_of(entries).to_multiset() =~= items.to_multiset());
    keys_of(entries).to_multiset_ensures();
    items.to_multiset_ensures();
}

/// Two positions that are both the first match of one key are the same position.
pub proof fn lemma_first_match_unique<K: View, V>(entries: Seq<(K, V)>, k: K::V, i: int, j: int)
    requires
        is_first_match(entries, k, i),
        is_first_match(entries, k, j),
    ensures
        i == j,
{
    if i < j {
        assert(entries[i].0@ == k);
    } else if j < i {
        assert(entries[j].0@ == k);
    }
}

/// A first match at `i` settles what `first_index`, `lookup` and
/// `lookup_entry` answer for that key.
pub proof fn lemma_first_match_is_lookup<K: View, V>(entries: Seq<(K, V)>, k: K::V, i: int)
    requires
        is_first_match(entries, k, i),
    ensures
        has_key(entries, k),
        first_index(entries, k) == i,
        lookup(entries, k) == Some(entries[i].1),
        lookup_entry(entries, k) == Some(entries[i]),
{
    assert(entries[i].0@ == k);
    let c = first_index(entries, k);
    assert(is_first_match(entries, k, c));
    lemma_first_match_unique(entries, k, i, c);
}

/// Where a key occurs at all, it has a first occurrence.
pub proof fn lemma_has_key_has_first<K: View, V>(entries: Seq<(K, V)>, k: K::V)
    requires
        has_key(entries, k),
    ensures
        is_first_match(entries, k, first_index(entries, k)),
{
    let w = choose|i: int| 0 <= i < entries.len() && (#[trigger] entries[i]).0@ == k;
    lemma_first_match_below(entries, k, w);
}

/// An occurrence at `w` gives a first occurrence at or before `w`.
pub proof fn lemma_first_match_below<K: View, V>(entries: Seq<(K, V)>, k: K::V, w: int)
    requires
        0 <= w < entries.len(),
        entries[w].0@ == k,
    ensures
        is_first_match(entries, k, first_index(entries, k)),
        first_index(entries, k) <= w,
    decreases w,
{
    if exists|j: int| 0 <= j < w && (#[trigger] entries[j]).0@ == k {
        let j = choose|j: int| 0 <= j < w && (#[trigger] entries[j]).0@ == k;
        lemma_first_match_below(entries, k, j);
    } else {
        assert(is_first_match(entries, k, w));
        lemma_first_match_is_lookup(entries, k, w);
    }
}

} // verus!
