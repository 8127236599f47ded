//! What holds of every frozen collection, whatever representation it chose.
//!
//! Every constructor of a map ensures that the entries of the map are the
//! entries of the payload, as a multiset; every lookup answers by
//! [`lookup`](crate::model::lookup) on the entries. The laws on maps follow
//! from these two facts alone, so they hold of every map of the library. The
//! same is true of the sets, with their items and
//! [`find_item`](crate::model::find_item).

use crate::analyzers::int_key_analyzer::is_dense_range;
use crate::analyzers::int_key_analyzer::is_permutation_of_range;
use crate::analyzers::int_key_analyzer::occurs;
use crate::analyzers::slice_key_analyzer::SliceKeyAnalysisResult;
use crate::analyzers::slice_key_analyzer::discriminates;
use crate::analyzers::slice_key_analyzer::is_first_discriminator;
use crate::analyzers::slice_key_analyzer::key_bytes;
use crate::analyzers::slice_key_analyzer::lemma_choice_left;
use crate::analyzers::slice_key_analyzer::lemma_choice_right;
use crate::analyzers::slice_key_analyzer::lengths_unique;
use crate::analyzers::slice_key_analyzer::slice_choice;
use crate::analyzers::slice_key_analyzer::window;
use crate::facades::frozen_map::Representation;
use crate::facades::frozen_map::chosen_representation;
use crate::model::distinct_keys;
use crate::model::find_item;
use crate::model::has_item;
use crate::model::is_first_item;
use crate::model::has_key;
use crate::model::is_first_match;
use crate::model::key_set;
use crate::model::keys_of;
use crate::model::lemma_first_match_is_lookup;
use crate::model::lemma_has_key_has_first;
use crate::model::lookup;
use crate::model::lookup_entry;
use crate::model::values_of;
use crate::specialized_maps::integer_range_map::IntegerRangeMap;
use crate::specialized_maps::integer_range_map::key_values;
use crate::traits::key::Key;
use crate::traits::key::KeyCategory;
use crate::traits::key::KeyShape;
use vstd::prelude::*;

verus! {

/// Sequences with the same items hold the same items.
pub proof fn lemma_same_items<T>(a: Seq<T>, b: Seq<T>, x: T)
    requires
        a.to_multiset() == b.to_multiset(),
    ensures
        a.contains(x) == b.contains(x),
{
    vstd::seq_lib::to_multiset_contains(a, x);
    vstd::seq_lib::to_multiset_contains(b, x);
}

/// A collection built from a payload has exactly the keys of the payload: a
/// key is found in it if and only if it occurs in the payload.
pub proof fn law_keys_are_those_of_the_payload<K: View, V>(
    payload: Seq<(K, V)>,
    entries: Seq<(K, V)>,
    k: K::V,
)
    requires
        entries.to_multiset() == payload.to_multiset(),
    ensures
        has_key(entries, k) == has_key(payload, k),
        lookup(entries, k) is Some == has_key(payload, k),
        lookup_entry(entries, k) is Some == has_key(payload, k),
        key_set(entries) == key_set(payload),
{
    assert forall|q: K::V| has_key(entries, q) == has_key(payload, q) by {
        if has_key(payload, q) {
            let i = choose|i: int| 0 <= i < payload.len() && (#[trigger] payload[i]).0@ == q;
            lemma_same_items(entries, payload, payload[i]);
            assert(payload.contains(payload[i]));
            let j = choose|j: int| 0 <= j < entries.len() && entries[j] == payload[i];
            assert(entries[j].0@ == q);
        }
        if has_key(entries, q) {
            let i = choose|i: int| 0 <= i < entries.len() && (#[trigger] entries[i]).0@ == q;
            lemma_same_items(entries, payload, entries[i]);
            assert(entries.contains(entries[i]));
            let j = choose|j: int| 0 <= j < payload.len() && payload[j] == entries[i];
            assert(payload[j].0@ == q);
        }
    }
    assert(key_set(entries) =~= key_set(payload));
}

/// Every key of the payload is found in the collection, and the entry that is
/// found has that key.
pub proof fn law_payload_keys_are_found<K: View, V>(
    payload: Seq<(K, V)>,
    entries: Seq<(K, V)>,
    i: int,
)
    requires
        entries.to_multiset() == payload.to_multiset(),
        0 <= i < payload.len(),
    ensures
        has_key(entries, payload[i].0@),
        lookup(entries, payload[i].0@) is Some,
        lookup_entry(entries, payload[i].0@) matches Some(e) && e.0@ == payload[i].0@,
{
    let k = payload[i].0@;
    assert(has_key(payload, k));
    law_keys_are_those_of_the_payload(payload, entries, k);
    lemma_has_key_has_first(entries, k);
}

/// A key that does not occur in the payload is not found in the collection.
pub proof fn law_other_keys_are_absent<K: View, V>(
    payload: Seq<(K, V)>,
    entries: Seq<(K, V)>,
    k: K::V,
)
    requires
        entries.to_multiset() == payload.to_multiset(),
        !has_key(payload, k),
    ensures
        !has_key(entries, k),
        lookup(entries, k) is None,
        lookup_entry(entries, k) is None,
{
    law_keys_are_those_of_the_payload(payload, entries, k);
}

/// A collection built from a payload without repeated keys has no repeated
/// keys.
pub proof fn law_distinct_keys_stay_distinct<K: View, V>(payload: Seq<(K, V)>, entries: Seq<(K, V)>)
    requires
        entries.to_multiset() == payload.to_multiset(),
        distinct_keys(payload),
    ensures
        distinct_keys(entries),
        entries.no_duplicates(),
{
    assert(payload.no_duplicates()) by {
        assert forall|i: int, j: int|
            0 <= i < payload.len() && 0 <= j < payload.len() && i != j implies payload[i]
            != payload[j] by {
            assert(payload[i].0@ != payload[j].0@);
        }
    }
    payload.lemma_multiset_has_no_duplicates();
    entries.lemma_multiset_has_no_duplicates_conv();
    assert forall|a: int, b: int|
        0 <= a < entries.len() && 0 <= b < entries.len() && a != b implies (#[trigger] entries[a]).0@
        != (#[trigger] entries[b]).0@ by {
        lemma_same_items(entries, payload, entries[a]);
        lemma_same_items(entries, payload, entries[b]);
        assert(entries.contains(entries[a]));
        assert(entries.contains(entries[b]));
        let i = choose|i: int| 0 <= i < payload.len() && payload[i] == entries[a];
        let j = choose|j: int| 0 <= j < payload.len() && payload[j] == entries[b];
        assert(payload[i] != payload[j]);
        assert(payload[i].0@ != payload[j].0@);
    }
}

/// Entries without repeated keys have as many keys as entries.
pub proof fn lemma_key_set_len<K: View, V>(entries: Seq<(K, V)>)
    requires
        distinct_keys(entries),
    ensures
        key_set(entries).finite(),
        key_set(entries).len() == entries.len(),
    decreases entries.len(),
{
    if entries.len() == 0 {
        assert(key_set(entries) =~= Set::<K::V>::empty());
    } else {
        let front = entries.drop_last();
        let k = entries.last().0@;
        assert forall|i: int, j: int|
            0 <= i < front.len() && 0 <= j < front.len() && i != j implies (#[trigger] front[i]).0@
            != (#[trigger] front[j]).0@ by {
            assert(entries[i].0@ != entries[j].0@);
        }
        lemma_key_set_len(front);
        assert(!has_key(front, k)) by {
            if has_key(front, k) {
                let i = choose|i: int| 0 <= i < front.len() && (#[trigger] front[i]).0@ == k;
                assert(entries[i].0@ != entries[entries.len() - 1].0@);
            }
        }
        assert(key_set(entries) =~= key_set(front).insert(k)) by {
            assert forall|q: K::V| has_key(entries, q) == (has_key(front, q) || q == k) by {
                if has_key(entries, q) {
                    let i = choose|i: int| 0 <= i < entries.len() && (#[trigger] entries[i]).0@ == q;
                    if i < front.len() {
                        assert(front[i].0@ == q);
                    }
                }
                if has_key(front, q) {
                    let i = choose|i: int| 0 <= i < front.len() && (#[trigger] front[i]).0@ == q;
                    assert(entries[i].0@ == q);
                }
                if q == k {
                    assert(entries[entries.len() - 1].0@ == q);
                }
            }
        }
    }
}

/// The length of a collection built from a payload without repeated keys is
/// the number of keys of the payload.
pub proof fn law_len_counts_the_keys<K: View, V>(payload: Seq<(K, V)>, entries: Seq<(K, V)>)
    requires
        entries.to_multiset() == payload.to_multiset(),
        distinct_keys(payload),
    ensures
        key_set(payload).finite(),
        entries.len() == key_set(payload).len(),
{
    lemma_key_set_len(payload);
    entries.to_multiset_ensures();
    payload.to_multiset_ensures();
}

/// A walk over a collection built from a payload without repeated keys
/// visits as many entries as the collection is long, no key twice, and
/// exactly the keys of the payload. The keys and values that are visited
/// alone are those of the entries that are visited, in the same order.
pub proof fn law_walk_visits_each_key_once<K: View, V>(payload: Seq<(K, V)>, entries: Seq<(K, V)>)
    requires
        entries.to_multiset() == payload.to_multiset(),
        distinct_keys(payload),
    ensures
        distinct_keys(entries),
        key_set(entries) == key_set(payload),
        keys_of(entries).len() == entries.len(),
        values_of(entries).len() == entries.len(),
        forall|i: int| 0 <= i < entries.len() ==> #[trigger] keys_of(entries)[i] == entries[i].0,
        forall|i: int| 0 <= i < entries.len() ==> #[trigger] values_of(entries)[i] == entries[i].1,
{
    law_distinct_keys_stay_distinct(payload, entries);
    if payload.len() > 0 {
        law_keys_are_those_of_the_payload(payload, entries, payload[0].0@);
    } else {
        entries.to_multiset_ensures();
        payload.to_multiset_ensures();
        assert(key_set(entries) =~= key_set(payload));
    }
}

/// Reading back a key of a payload without repeated keys gives the value
/// that the payload has for it.
pub proof fn law_round_trip<K: View, V>(payload: Seq<(K, V)>, entries: Seq<(K, V)>, i: int)
    requires
        entries.to_multiset() == payload.to_multiset(),
        distinct_keys(payload),
        0 <= i < payload.len(),
    ensures
        lookup(entries, payload[i].0@) == Some(payload[i].1),
        lookup_entry(entries, payload[i].0@) == Some(payload[i]),
{
    law_distinct_keys_stay_distinct(payload, entries);
    lemma_same_items(entries, payload, payload[i]);
    assert(payload.contains(payload[i]));
    let j = choose|j: int| 0 <= j < entries.len() && entries[j] == payload[i];
    assert(is_first_match(entries, payload[i].0@, j)) by {
        assert forall|a: int| 0 <= a < j implies (#[trigger] entries[a]).0@ != payload[i].0@ by {
            assert(entries[a].0@ != entries[j].0@);
        }
    }
    lemma_first_match_is_lookup(entries, payload[i].0@, j);
}

/// In a map over a range of integers, every key from the least to the
/// greatest is found with the value stored at its distance from the least,
/// and the integers next below and next above the range are not found.
pub proof fn law_range_lookup<K: Key, V>(map: IntegerRangeMap<K, V>, k: K::V, x: int)
    requires
        map.wf(),
        map@.len() > 0,
        K::shape(k) == KeyShape::Integer(x),
    ensures
        map.min@ <= x <= map.max@ ==> lookup(map@, k) == Some(map@[x - map.min@].1),
        x == map.min@ - 1 || x == map.max@ + 1 ==> lookup(map@, k) is None,
{
    if map.min@ <= x <= map.max@ {
        let i = x - map.min@;
        K::lemma_shape(k, map@[i].0@);
        assert(is_first_match(map@, k, i)) by {
            assert forall|j: int| 0 <= j < i implies (#[trigger] map@[j]).0@ != k by {
                K::lemma_shape(k, map@[j].0@);
            }
        }
        lemma_first_match_is_lookup(map@, k, i);
    }
    if x == map.min@ - 1 || x == map.max@ + 1 {
        if has_key(map@, k) {
            let i = choose|i: int| 0 <= i < map@.len() && (#[trigger] map@[i]).0@ == k;
            assert(K::shape(map@[i].0@) == KeyShape::Integer(map.min@ + i));
        }
    }
}

/// A set built from a payload holds exactly the values of the payload: a
/// value is found in it if and only if it occurs in the payload.
pub proof fn law_set_holds_the_payload<T: View>(payload: Seq<T>, items: Seq<T>, v: T::V)
    requires
        items.to_multiset() == payload.to_multiset(),
    ensures
        has_item(items, v) == has_item(payload, v),
        find_item(items, v) is Some == has_item(payload, v),
        find_item(items, v) matches Some(t) ==> t@ == v,
{
    if has_item(payload, v) {
        let i = choose|i: int| 0 <= i < payload.len() && (#[trigger] payload[i])@ == v;
        lemma_same_items(items, payload, payload[i]);
        assert(payload.contains(payload[i]));
        let j = choose|j: int| 0 <= j < items.len() && items[j] == payload[i];
        assert(items[j]@ == v);
    }
    if has_item(items, v) {
        let i = choose|i: int| 0 <= i < items.len() && (#[trigger] items[i])@ == v;
        lemma_same_items(items, payload, items[i]);
        assert(items.contains(items[i]));
        let j = choose|j: int| 0 <= j < payload.len() && payload[j] == items[i];
        assert(payload[j]@ == v);
        lemma_has_item_has_first(items, v, i);
    }
}

/// An occurrence of a value at `w` gives a first occurrence.
pub proof fn lemma_has_item_has_first<T: View>(items: Seq<T>, v: T::V, w: int)
    requires
        0 <= w < items.len(),
        items[w]@ == v,
    ensures
        exists|i: int| is_first_item(items, v, i),
    decreases w,
{
    if exists|j: int| 0 <= j < w && (#[trigger] items[j])@ == v {
        let j = choose|j: int| 0 <= j < w && (#[trigger] items[j])@ == v;
        lemma_has_item_has_first(items, v, j);
    } else {
        assert(is_first_item(items, v, w));
    }
}

/// A collection built from no entries has none, and no key is found in it.
pub proof fn law_empty_payload<K: View, V>(entries: Seq<(K, V)>, k: K::V)
    requires
        entries.to_multiset() == Seq::<(K, V)>::empty().to_multiset(),
    ensures
        entries.len() == 0,
        lookup(entries, k) is None,
        lookup_entry(entries, k) is None,
{
    entries.to_multiset_ensures();
    Seq::<(K, V)>::empty().to_multiset_ensures();
}

/// Payloads of fewer than four entries are scanned, and no others.
pub proof fn law_scanning_below_four<K: Key, V>(payload: Seq<(K, V)>)
    ensures
        (chosen_representation(payload) == Representation::Scanning) == (payload.len() < 4),
{
}

/// Four entries or more are represented by the kind of their keys: integer
/// keys are indexed or hashed by their value, byte-string keys are hashed by
/// their length, by a window or as a whole, all other keys are hashed as a
/// whole.
pub proof fn law_representation_goes_by_the_kind_of_key<K: Key, V>(payload: Seq<(K, V)>)
    requires
        payload.len() >= 4,
    ensures
        K::category_spec() == KeyCategory::Integer ==> chosen_representation(payload)
            == Representation::IntegerRange || chosen_representation(payload)
            == Representation::Integer,
        K::category_spec() == KeyCategory::ByteSlice ==> chosen_representation(payload)
            == Representation::Length || chosen_representation(payload) is LeftSlice
            || chosen_representation(payload) is RightSlice || chosen_representation(payload)
            == Representation::Common,
        K::category_spec() == KeyCategory::Opaque ==> chosen_representation(payload)
            == Representation::Common,
{
}

/// Integer keys that fill a range choose the indexed representation, where
/// there are four of them or more.
pub proof fn law_dense_keys_choose_the_range<K: Key, V>(payload: Seq<(K, V)>)
    requires
        K::category_spec() == KeyCategory::Integer,
        payload.len() >= 4,
        is_dense_range(key_values(payload)),
    ensures
        chosen_representation(payload) == Representation::IntegerRange,
{
}

/// Keys that are the integers from `min` to `max` but for one between the
/// two do not fill a range.
pub proof fn lemma_hole_is_not_dense(keys: Seq<int>, min: int, max: int, hole: int)
    requires
        min < hole < max,
        keys.len() == max - min,
        forall|x: int| min <= x <= max && x != hole ==> #[trigger] occurs(keys, x),
    ensures
        !is_dense_range(keys),
{
    if is_dense_range(keys) {
        let m = choose|m: int| is_permutation_of_range(keys, m);
        assert(occurs(keys, min));
        assert(occurs(keys, max));
    }
}

/// Integer keys that fill a range but for one hole inside it choose the
/// hashed integer representation, where there are four of them or more.
pub proof fn law_a_hole_chooses_the_integer_map<K: Key, V>(
    payload: Seq<(K, V)>,
    min: int,
    max: int,
    hole: int,
)
    requires
        K::category_spec() == KeyCategory::Integer,
        payload.len() >= 4,
        min < hole < max,
        payload.len() == max - min,
        forall|x: int| min <= x <= max && x != hole ==> #[trigger] occurs(key_values(payload), x),
    ensures
        chosen_representation(payload) == Representation::Integer,
{
    lemma_hole_is_not_dense(key_values(payload), min, max, hole);
}

/// Byte-string keys of different lengths are told apart by their length.
pub proof fn law_distinct_lengths_choose_length(keys: Seq<Seq<u8>>)
    requires
        lengths_unique(keys),
    ensures
        slice_choice(keys) == SliceKeyAnalysisResult::Length,
{
}

/// Byte-string keys of different lengths choose the representation that
/// hashes by length, where there are four of them or more.
pub proof fn law_distinct_lengths_choose_the_length_map<K: Key, V>(payload: Seq<(K, V)>)
    requires
        K::category_spec() == KeyCategory::ByteSlice,
        payload.len() >= 4,
        lengths_unique(key_bytes(payload)),
    ensures
        chosen_representation(payload) == Representation::Length,
{
}

/// Two or more byte-string keys of one length that differ in their last byte
/// and in nothing else are told apart by the window of one byte at their
/// end.
pub proof fn law_last_byte_chooses_the_right_slice(keys: Seq<Seq<u8>>)
    requires
        keys.len() >= 2,
        keys[0].len() >= 2,
        forall|i: int| 0 <= i < keys.len() ==> (#[trigger] keys[i]).len() == keys[0].len(),
        forall|i: int, p: int|
            0 <= i < keys.len() && 0 <= p < keys[0].len() - 1 ==> #[trigger] keys[i][p]
                == keys[0][p],
        forall|i: int, j: int|
            0 <= i < keys.len() && 0 <= j < keys.len() && i != j ==> (#[trigger] keys[i]).last()
                != (#[trigger] keys[j]).last(),
    ensures
        slice_choice(keys) == (SliceKeyAnalysisResult::RightHandSubslice {
            subslice_index: 0,
            subslice_len: 1,
        }),
{
    assert(keys[0].len() == keys[1].len());
    assert(!lengths_unique(keys));
    assert(discriminates(keys, 0, 1, false)) by {
        assert forall|i: int, j: int|
            0 <= i < keys.len() && 0 <= j < keys.len() && i != j implies window(
            #[trigger] keys[i],
            0,
            1,
            false,
        ) != window(#[trigger] keys[j], 0, 1, false) by {
            assert(window(keys[i], 0, 1, false)[0] == keys[i].last());
            assert(window(keys[j], 0, 1, false)[0] == keys[j].last());
        }
    }
    assert(!discriminates(keys, 0, 1, true)) by {
        assert(window(keys[0], 0, 1, true) =~= window(keys[1], 0, 1, true)) by {
            assert(keys[1][0] == keys[0][0]);
        }
    }
    assert(is_first_discriminator(keys, 0, 1, false));
    lemma_choice_right(keys, 0, 1);
}

/// Byte-string keys that are not told apart by their lengths, but differ in
/// their first byte, are told apart by the window of one byte at their
/// beginning.
pub proof fn law_first_byte_chooses_the_left_slice(keys: Seq<Seq<u8>>)
    requires
        !lengths_unique(keys),
        forall|i: int| 0 <= i < keys.len() ==> (#[trigger] keys[i]).len() >= 1,
        forall|i: int, j: int|
            0 <= i < keys.len() && 0 <= j < keys.len() && i != j ==> (#[trigger] keys[i])[0] != (
            #[trigger] keys[j])[0],
    ensures
        slice_choice(keys) == (SliceKeyAnalysisResult::LeftHandSubslice {
            subslice_index: 0,
            subslice_len: 1,
        }),
{
    assert(discriminates(keys, 0, 1, true)) by {
        assert forall|i: int, j: int|
            0 <= i < keys.len() && 0 <= j < keys.len() && i != j implies window(
            #[trigger] keys[i],
            0,
            1,
            true,
        ) != window(#[trigger] keys[j], 0, 1, true) by {
            assert(window(keys[i], 0, 1, true)[0] == keys[i][0]);
            assert(window(keys[j], 0, 1, true)[0] == keys[j][0]);
        }
    }
    assert(is_first_discriminator(keys, 0, 1, true));
    lemma_choice_left(keys, 0, 1);
}

} // verus!
