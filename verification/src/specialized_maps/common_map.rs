//! The general-purpose map: a hash table over a hash of the whole key.

use core::ops::Range;
use crate::analyzers::hash_code_analyzer::analyze_hash_codes;
use crate::collect::vec_from_array;
use crate::collect::vec_from_iter;
use crate::model::first_index;
use crate::model::has_key;
use crate::model::is_first_match;
use crate::model::keys_of;
use crate::model::lemma_first_match_is_lookup;
use crate::model::lookup;
use crate::model::lookup_entry;
use crate::model::values_of;
use crate::specialized_maps::debug::debug_map_string;
use crate::specialized_maps::debug::is_map_form;
use crate::specialized_maps::equality::maps_are_equal;
use crate::specialized_maps::equality::maps_equal;
use crate::specialized_maps::equality::values_comparable;
use crate::specialized_maps::hash_table::CapacityExceeded;
use crate::specialized_maps::hash_table::HashTable;
use crate::specialized_maps::hash_table::bucket_of;
use crate::specialized_maps::hash_table::computes;
use crate::specialized_maps::hash_table::hash_codes;
use crate::specialized_maps::hash_table::lemma_wf_same_keys;
use crate::specialized_maps::iterators::Iter;
use crate::specialized_maps::iterators::Keys;
use crate::specialized_maps::iterators::Values;
use crate::specialized_maps::many_mut::all_found;
use crate::specialized_maps::many_mut::chosen;
use crate::specialized_maps::many_mut::is_target;
use crate::specialized_maps::many_mut::keys_are_distinct;
use crate::specialized_maps::many_mut::refs_at;
use crate::specialized_maps::map_ops::MapOps;
use crate::traits::byte_hasher::ByteHasher;
use crate::traits::byte_hasher::DefaultByteHasher;
use crate::traits::key::Key;
use crate::traits::len::Len;
use crate::traits::slot_index::SlotIndex;
use std::fmt::Debug;
use vstd::prelude::*;
use vstd::std_specs::iter::IteratorSpec;

verus! {

/// A general-purpose map that hashes the whole key.
///
/// `S` is the integer type of the bucket descriptors: it bounds the number of
/// entries that the map can hold.
#[derive(Clone)]
pub struct CommonMap<K, V, S = u8, BH = DefaultByteHasher> {
    pub table: HashTable<K, V, S>,
    pub bh: BH,
}

/// The hash code of the key with view `k`: the hash of all its bytes.
pub open spec fn common_code<K: Key, BH: ByteHasher>(k: K::V, bh: &BH) -> u64 {
    bh.spec_hash_bytes(K::hash_input(k))
}

/// The hash code of each key under the hasher `bh`, as a function.
pub open spec fn common_code_fn<K: Key, BH: ByteHasher>(bh: BH) -> spec_fn(K::V) -> u64 {
    |k: K::V| common_code::<K, BH>(k, &bh)
}

impl<K, V, S, BH> View for CommonMap<K, V, S, BH> {
    type V = Seq<(K, V)>;

    /// The entries, in the order in which they are stored and visited.
    open spec fn view(&self) -> Seq<(K, V)> {
        self.table.entries@
    }
}

impl<K: Key, V, S: SlotIndex, BH: ByteHasher> CommonMap<K, V, S, BH> {
    /// The hash code of each key, as a function.
    pub open spec fn code_fn(&self) -> spec_fn(K::V) -> u64 {
        common_code_fn::<K, BH>(self.bh)
    }

    /// The table is laid out for the hash codes of its keys.
    pub open spec fn wf(&self) -> bool {
        self.table.wf(self.code_fn())
    }

    /// Makes the map that holds the entries of `payload` and hashes its keys
    /// with `bh`. Fails where the payload has more entries than `S` can count.
    pub fn from_vec_with_hasher(payload: Vec<(K, V)>, bh: BH) -> (r: Result<Self, CapacityExceeded>)
        ensures
            payload@.len() > S::spec_max() ==> r == Err::<Self, CapacityExceeded>(
                CapacityExceeded { len: payload.len(), capacity: S::spec_max() as usize },
            ),
            payload@.len() <= S::spec_max() ==> r is Ok,
            r matches Ok(m) ==> {
                &&& m.wf()
                &&& m.bh == bh
                &&& m@.to_multiset() == payload@.to_multiset()
                &&& m@.len() == payload@.len()
            },
    {
        let hash = |k: &K| -> (h: u64)
            ensures
                h == common_code::<K, BH>(k@, &bh),
            { k.hash_code(&bh) };
        let codes = hash_codes(&payload, &hash);
        let code_analysis = analyze_hash_codes(codes.as_slice());
        let ghost code = common_code_fn::<K, BH>(bh);
        assert(computes(hash, code));
        match HashTable::new(payload, code_analysis.num_hash_slots, hash) {
            Ok(table) => {
                assert(table.wf(code));
                Ok(CommonMap { table, bh })
            },
            Err(e) => Err(e),
        }
    }

    /// Makes the map that holds the entries of the array `payload` and hashes
    /// its keys with `bh`. Fails where the array has more entries than `S` can
    /// count.
    pub fn with_hasher<const N: usize>(payload: [(K, V); N], bh: BH) -> (r: Result<
        Self,
        CapacityExceeded,
    >)
        ensures
            payload@.len() > S::spec_max() ==> r == Err::<Self, CapacityExceeded>(
                CapacityExceeded { len: payload.len(), capacity: S::spec_max() as usize },
            ),
            payload@.len() <= S::spec_max() ==> r is Ok,
            r matches Ok(m) ==> {
                &&& m.wf()
                &&& m.bh == bh
                &&& m@.to_multiset() == payload@.to_multiset()
                &&& m@.len() == payload@.len()
            },
    {
        Self::from_vec_with_hasher(vec_from_array(payload), bh)
    }

    /// Makes the map that holds the entries that `iter` yields and hashes its
    /// keys with `bh`. Fails where there are more entries than `S` can count.
    pub fn from_iter_with_hasher<T: Iterator<Item = (K, V)>>(iter: T, bh: BH) -> (r: Result<
        Self,
        CapacityExceeded,
    >)
        ensures
            r matches Ok(m) ==> m.wf() && m.bh == bh && m@.len() <= S::spec_max(),
            r matches Err(e) ==> e.len > S::spec_max() && e.capacity == S::spec_max(),
            iter.obeys_prophetic_iter_laws() && iter.will_return_none() ==> {
                &&& r is Ok == (iter.remaining().len() <= S::spec_max())
                &&& r matches Ok(c) ==> c@.to_multiset() == iter.remaining().to_multiset() && c@.len()
                    == iter.remaining().len()
                &&& r matches Err(e) ==> e.len == iter.remaining().len()
            },
    {
        Self::from_vec_with_hasher(vec_from_iter(iter), bh)
    }

    /// The hash code of `key` in this map.
    pub fn hash_key(&self, key: &K) -> (h: u64)
        ensures
            h == (self.code_fn())(key@),
    {
        key.hash_code(&self.bh)
    }

    /// Returns the range of entries that belong to the bucket of `key`: every
    /// entry with that key lies in it.
    pub fn get_hash_info(&self, key: &K) -> (r: Range<usize>)
        requires
            self.wf(),
        ensures
            r.start == self.table.slot_range(
                bucket_of((self.code_fn())(key@), self.table.num_slots()),
            ).0,
            r.end == self.table.slot_range(
                bucket_of((self.code_fn())(key@), self.table.num_slots()),
            ).1,
            r.start <= r.end <= self@.len(),
            forall|i: int|
                0 <= i < self@.len() && (#[trigger] self@[i]).0@ == key@ ==> r.start <= i < r.end,
    {
        let hash_code = self.hash_key(key);
        self.table.get_hash_info(hash_code)
    }

    /// Returns the position of the first entry with the key, if there is one.
    pub fn position(&self, key: &K) -> (r: Option<usize>)
        requires
            self.wf(),
        ensures
            match r {
                Some(i) => is_first_match(self@, key@, i as int),
                None => !has_key(self@, key@),
            },
    {
        let hash_code = self.hash_key(key);
        self.table.find(hash_code, key)
    }

    /// Returns a reference to the value of the first entry with the key.
    pub fn get(&self, key: &K) -> (r: Option<&V>)
        requires
            self.wf(),
        ensures
            match r {
                Some(v) => lookup(self@, key@) == Some(*v),
                None => lookup(self@, key@) is None,
            },
    {
        match self.position(key) {
            Some(i) => {
                proof {
                    lemma_first_match_is_lookup(self@, key@, i as int);
                }
                Some(&self.table.entries[i].1)
            },
            None => None,
        }
    }

    /// Returns the first entry with the key: the stored key and its value.
    pub fn get_key_value(&self, key: &K) -> (r: Option<(&K, &V)>)
        requires
            self.wf(),
        ensures
            match r {
                Some((k, v)) => lookup_entry(self@, key@) == Some((*k, *v)),
                None => lookup_entry(self@, key@) is None,
            },
    {
        match self.position(key) {
            Some(i) => {
                proof {
                    lemma_first_match_is_lookup(self@, key@, i as int);
                }
                Some((&self.table.entries[i].0, &self.table.entries[i].1))
            },
            None => None,
        }
    }

    /// Returns a mutable reference to the value of the first entry with the
    /// key. Nothing but that value can change through it.
    pub fn get_mut(&mut self, key: &K) -> (r: Option<&mut V>)
        requires
            old(self).wf(),
        ensures
            final(self).wf(),
            final(self).bh == old(self).bh,
            match r {
                Some(v) => {
                    let i = first_index(old(self)@, key@);
                    &&& has_key(old(self)@, key@)
                    &&& *v == old(self)@[i].1
                    &&& final(self)@ == old(self)@.update(i, (old(self)@[i].0, *final(v)))
                },
                None => !has_key(old(self)@, key@) && final(self)@ == old(self)@,
            },
    {
        match self.position(key) {
            Some(i) => {
                proof {
                    lemma_first_match_is_lookup(self@, key@, i as int);
                    self.lemma_values_only();
                }
                Some(&mut self.table.entries[i].1)
            },
            None => None,
        }
    }

    /// A table with the same buckets and the same keys is laid out for the
    /// same hash codes.
    proof fn lemma_values_only(&self)
        requires
            self.wf(),
        ensures
            forall|after: HashTable<K, V, S>|
                after.slots == self.table.slots && after.entries@.len() == self@.len() && (forall|
                    p: int,
                |
                    0 <= p < self@.len() ==> (#[trigger] after.entries@[p]).0 == self@[p].0)
                    ==> #[trigger] after.wf(self.code_fn()),
    {
        assert forall|after: HashTable<K, V, S>|
            after.slots == self.table.slots && after.entries@.len() == self@.len() && (forall|
                p: int,
            |
                0 <= p < self@.len() ==> (#[trigger] after.entries@[p]).0 == self@[p].0)
            implies #[trigger] after.wf(self.code_fn()) by {
            lemma_wf_same_keys(self.table, after, self.code_fn());
        }
    }

    /// Returns the positions of the first entries with the keys, where the
    /// keys are all different and all present.
    pub fn positions<const N: usize>(&self, keys: &[&K; N]) -> (r: Option<Vec<usize>>)
        requires
            self.wf(),
        ensures
            r is Some == all_found(self@, keys@),
            r matches Some(idx) ==> idx@.len() == N && forall|i: int|
                0 <= i < N ==> is_first_match(self@, keys@[i]@, (#[trigger] idx@[i]) as int),
    {
        if !keys_are_distinct(keys) {
            return None;
        }
        let mut idx: Vec<usize> = Vec::new();
        let mut i: usize = 0;
        while i < N
            invariant
                i <= N,
                idx@.len() == i,
                self.wf(),
                forall|a: int| 0 <= a < i ==> has_key(self@, (#[trigger] keys@[a])@),
                forall|a: int|
                    0 <= a < i ==> is_first_match(self@, keys@[a]@, (#[trigger] idx@[a]) as int),
            decreases N - i,
        {
            match self.position(keys[i]) {
                Some(p) => {
                    proof {
                        lemma_first_match_is_lookup(self@, keys@[i as int]@, p as int);
                    }
                    idx.push(p);
                },
                None => {
                    return None;
                },
            }
            i += 1;
        }
        Some(idx)
    }

    /// Attempts to get mutable references to the values of `N` keys at once.
    ///
    /// Returns the references in the order of the keys where the keys are all
    /// different and all present, and `None` otherwise. Nothing but those
    /// values can change through them.
    pub fn get_many_mut<const N: usize>(&mut self, keys: [&K; N]) -> (r: Option<[&mut V; N]>)
        requires
            old(self).wf(),
        ensures
            final(self).wf(),
            final(self).bh == old(self).bh,
            r is Some == all_found(old(self)@, keys@),
            r is None ==> final(self)@ == old(self)@,
            r matches Some(refs) ==> {
                &&& final(self)@.len() == old(self)@.len()
                &&& forall|p: int|
                    0 <= p < old(self)@.len() ==> (#[trigger] final(self)@[p]).0 == old(self)@[p].0
                &&& forall|i: int|
                    0 <= i < N ==> *(#[trigger] refs@[i]) == old(self)@[first_index(
                        old(self)@,
                        keys@[i]@,
                    )].1
                &&& forall|i: int|
                    0 <= i < N ==> final(self)@[first_index(old(self)@, (#[trigger] keys@[i])@)].1
                        == *final(refs@[i])
                &&& forall|p: int|
                    0 <= p < old(self)@.len() && !is_target(old(self)@, keys@, p)
                        ==> #[trigger] final(self)@[p] == old(self)@[p]
            },
    {
        match self.positions(&keys) {
            None => None,
            Some(idx) => {
                proof {
                    self.lemma_values_only();
                    assert forall|i: int| 0 <= i < N implies first_index(
                        self@,
                        (#[trigger] keys@[i])@,
                    ) == idx@[i] by {
                        lemma_first_match_is_lookup(self@, keys@[i]@, idx@[i] as int);
                    }
                    assert forall|p: int| chosen(idx@, N as int, p) implies is_target(
                        self@,
                        keys@,
                        p,
                    ) by {
                        let c = choose|c: int| 0 <= c < N && #[trigger] idx@[c] == p;
                        assert(first_index(self@, keys@[c]@) == p);
                    }
                    assert forall|a: int, b: int|
                        0 <= a < idx@.len() && 0 <= b < idx@.len() && a != b implies idx@[a]
                        != idx@[b] by {
                        assert(keys@[a]@ != keys@[b]@);
                    }
                }
                Some(refs_at(&mut self.table.entries, &idx))
            },
        }
    }

    /// Returns whether the two maps are equally long and every entry of this
    /// map has its key in the other, with an equal value.
    pub fn equals<M: MapOps<K, V>>(&self, other: &M) -> (b: bool) where V: PartialEq
        requires
            self.wf(),
            other.valid(),
        ensures
            values_comparable::<V>() ==> b == maps_equal(self@, other.entries()),
    {
        maps_are_equal(self, other)
    }

    /// Returns a reference to the value of a key that the map has.
    pub fn index(&self, key: &K) -> (r: &V)
        requires
            self.wf(),
            has_key(self@, key@),
        ensures
            lookup(self@, key@) == Some(*r),
    {
        match self.get(key) {
            Some(v) => v,
            None => vstd::pervasive::unreached(),
        }
    }

    /// Returns a mutable reference to the value of a key that the map has.
    /// Nothing but that value can change through it.
    pub fn index_mut(&mut self, key: &K) -> (r: &mut V)
        requires
            old(self).wf(),
            has_key(old(self)@, key@),
        ensures
            final(self).wf(),
            final(self).bh == old(self).bh,
            *r == old(self)@[first_index(old(self)@, key@)].1,
            final(self)@ == old(self)@.update(
                first_index(old(self)@, key@),
                (old(self)@[first_index(old(self)@, key@)].0, *final(r)),
            ),
    {
        match self.get_mut(key) {
            Some(v) => v,
            None => vstd::pervasive::unreached(),
        }
    }

    /// Returns whether the map has an entry with the key.
    pub fn contains_key(&self, key: &K) -> (b: bool)
        requires
            self.wf(),
        ensures
            b == has_key(self@, key@),
    {
        self.get(key).is_some()
    }
}

impl<K, V, S, BH> CommonMap<K, V, S, BH> {
    /// Returns the entry at `index` in the order of the map, if there is one.
    pub fn get_by_index(&self, index: usize) -> (r: Option<(&K, &V)>)
        ensures
            index < self@.len() ==> r == Some((&self@[index as int].0, &self@[index as int].1)),
            index >= self@.len() ==> r is None,
    {
        if index < self.table.entries.len() {
            Some((&self.table.entries[index].0, &self.table.entries[index].1))
        } else {
            None
        }
    }

    /// Returns the number of entries.
    pub fn len(&self) -> (n: usize)
        ensures
            n == self@.len(),
    {
        self.table.entries.len()
    }

    /// Returns whether the map has no entries.
    pub fn is_empty(&self) -> (b: bool)
        ensures
            b == (self@.len() == 0),
    {
        self.table.entries.len() == 0
    }

    /// The entries in the form of a map: each key and value in its `Debug`
    /// form with a colon between them, the entries separated by commas, all
    /// between braces.
    pub fn debug_string(&self) -> (r: String) where K: Debug, V: Debug
        ensures
            is_map_form(r@, self@.len()),
    {
        debug_map_string(self.table.entries.as_slice())
    }

    /// A cursor over all entries, in the order of the map.
    pub fn iter(&self) -> (r: Iter<'_, K, V>)
        ensures
            r.remaining() == self@,
    {
        Iter::new(self.table.entries.as_slice())
    }

    /// A cursor over all keys, in the order of the map.
    pub fn keys(&self) -> (r: Keys<'_, K, V>)
        ensures
            r.remaining() == keys_of(self@),
    {
        Keys::new(self.table.entries.as_slice())
    }

    /// A cursor over all values, in the order of the map.
    pub fn values(&self) -> (r: Values<'_, K, V>)
        ensures
            r.remaining() == values_of(self@),
    {
        Values::new(self.table.entries.as_slice())
    }

    /// Returns the hasher of this map.
    pub fn hasher(&self) -> (r: &BH)
        ensures
            *r == self.bh,
    {
        &self.bh
    }
}

impl<K: Key, V, S: SlotIndex> CommonMap<K, V, S, DefaultByteHasher> {
    /// Makes the map that holds the entries of the array `payload`, with the
    /// default hasher. Fails where the array has more entries than `S` can
    /// count.
    pub fn from<const N: usize>(payload: [(K, V); N]) -> (r: Result<Self, CapacityExceeded>)
        ensures
            payload@.len() > S::spec_max() ==> r == Err::<Self, CapacityExceeded>(
                CapacityExceeded { len: payload.len(), capacity: S::spec_max() as usize },
            ),
            payload@.len() <= S::spec_max() ==> r is Ok,
            r matches Ok(m) ==> {
                &&& m.wf()
                &&& m@.to_multiset() == payload@.to_multiset()
                &&& m@.len() == payload@.len()
            },
    {
        Self::with_hasher(payload, DefaultByteHasher::new())
    }

    /// Makes the map that holds the entries that `iter` yields, with the
    /// default hasher. Fails where there are more entries than `S` can count.
    pub fn from_iter<T: Iterator<Item = (K, V)>>(iter: T) -> (r: Result<Self, CapacityExceeded>)
        ensures
            r matches Ok(m) ==> m.wf() && m@.len() <= S::spec_max(),
            r matches Err(e) ==> e.len > S::spec_max() && e.capacity == S::spec_max(),
            iter.obeys_prophetic_iter_laws() && iter.will_return_none() ==> {
                &&& r is Ok == (iter.remaining().len() <= S::spec_max())
                &&& r matches Ok(c) ==> c@.to_multiset() == iter.remaining().to_multiset() && c@.len()
                    == iter.remaining().len()
                &&& r matches Err(e) ==> e.len == iter.remaining().len()
            },
    {
        Self::from_vec_with_hasher(vec_from_iter(iter), DefaultByteHasher::new())
    }

    /// Makes the map that holds the entries of `payload`, with the default
    /// hasher. Fails where the payload has more entries than `S` can count.
    pub fn from_vec(payload: Vec<(K, V)>) -> (r: Result<Self, CapacityExceeded>)
        ensures
            payload@.len() > S::spec_max() ==> r == Err::<Self, CapacityExceeded>(
                CapacityExceeded { len: payload.len(), capacity: S::spec_max() as usize },
            ),
            payload@.len() <= S::spec_max() ==> r is Ok,
            r matches Ok(m) ==> {
                &&& m.wf()
                &&& m@.to_multiset() == payload@.to_multiset()
                &&& m@.len() == payload@.len()
            },
    {
        Self::from_vec_with_hasher(payload, DefaultByteHasher::new())
    }
}

impl<K, V, S, BH> Len for CommonMap<K, V, S, BH> {
    open spec fn spec_len(&self) -> nat {
        self@.len()
    }

    fn len(&self) -> (n: usize) {
        CommonMap::len(self)
    }
}

impl<K: Key, V, S: SlotIndex, BH: ByteHasher> MapOps<K, V> for CommonMap<K, V, S, BH> {
    open spec fn entries(&self) -> Seq<(K, V)> {
        self@
    }

    open spec fn valid(&self) -> bool {
        self.wf()
    }

    fn get(&self, key: &K) -> (r: Option<&V>) {
        CommonMap::get(self, key)
    }

    fn get_by_index(&self, index: usize) -> (r: Option<(&K, &V)>) {
        CommonMap::get_by_index(self, index)
    }

    proof fn lemma_len(&self) {
    }
}

} // verus!
