//! The compact hash table behind the hashed maps: the entries of one bucket
//! lie side by side, and each bucket is described by the range they occupy.

use core::ops::Range;
use crate::casts::u64_as_usize;
use crate::model::has_key;
use crate::model::is_first_match;
use crate::traits::key::Key;
use crate::traits::slot_index::SlotIndex;
use vstd::multiset::Multiset;
use vstd::prelude::*;

verus! {

/// The error of a construction that was handed more entries than the bucket
/// descriptors of the table can count.
#[derive(Clone, Copy, Debug, PartialEq, Eq)]
pub struct CapacityExceeded {
    /// The number of entries that were handed in.
    pub len: usize,
    /// The largest number of entries that the descriptors can count.
    pub capacity: usize,
}

/// The half-open range of entries that belong to one bucket.
#[derive(Clone)]
pub struct HashTableSlot<S> {
    min_index: S,
    max_index: S,
}

/// A build-once hash table with contiguous entries.
#[derive(Clone)]
pub struct HashTable<K, V, S> {
    pub slots: Vec<HashTableSlot<S>>,
    pub entries: Vec<(K, V)>,
}

/// The bucket that a hash code falls into, of `num_slots` buckets.
pub open spec fn bucket_of(code: u64, num_slots: int) -> int {
    (code as int) % num_slots
}

/// The hash function `hash` can give `entry` a code that falls into bucket `b`
/// of `n`.
pub open spec fn placed<K, V, F: Fn(&K) -> u64>(hash: F, entry: (K, V), b: int, n: int) -> bool {
    exists|h: u64| #[trigger] call_ensures(hash, (&entry.0,), h) && bucket_of(h, n) == b
}

/// The hash function `hash` computes the codes that `code` names.
pub open spec fn computes<K: View, F: Fn(&K) -> u64>(hash: F, code: spec_fn(K::V) -> u64) -> bool {
    forall|k: &K, h: u64| #[trigger] call_ensures(hash, (k,), h) ==> h == code(k@)
}

/// The hash codes of the keys of `payload`, in order.
pub fn hash_codes<K, V, F: Fn(&K) -> u64>(payload: &Vec<(K, V)>, hash: &F) -> (codes: Vec<u64>)
    requires
        forall|k: &K| call_requires(*hash, (k,)),
    ensures
        codes@.len() == payload@.len(),
        forall|i: int|
            0 <= i < payload@.len() ==> call_ensures(*hash, (&payload@[i].0,), #[trigger] codes@[i]),
{
    let mut codes: Vec<u64> = Vec::new();
    let mut i: usize = 0;
    while i < payload.len()
        invariant
            i <= payload@.len(),
            codes@.len() == i,
            forall|k: &K| call_requires(*hash, (k,)),
            forall|j: int|
                0 <= j < i ==> call_ensures(*hash, (&payload@[j].0,), #[trigger] codes@[j]),
        decreases payload@.len() - i,
    {
        let h = hash(&payload[i].0);
        codes.push(h);
        i += 1;
    }
    codes
}

/// A table keeps its layout when only values change.
pub proof fn lemma_wf_same_keys<K: View, V, S: SlotIndex>(
    before: HashTable<K, V, S>,
    after: HashTable<K, V, S>,
    code: spec_fn(K::V) -> u64,
)
    requires
        before.wf(code),
        after.slots == before.slots,
        after.entries@.len() == before.entries@.len(),
        forall|p: int|
            0 <= p < before.entries@.len() ==> (#[trigger] after.entries@[p]).0
                == before.entries@[p].0,
    ensures
        after.wf(code),
{
    assert forall|b: int| 0 <= b < after.num_slots() implies 0 <= (#[trigger] after.slot_range(
        b,
    )).0 <= after.slot_range(b).1 <= after.entries@.len() by {
        assert(after.slot_range(b) == before.slot_range(b));
    }
    assert forall|p: int| 0 <= p < after.entries@.len() implies {
        let b = bucket_of(code((#[trigger] after.entries@[p]).0@), after.num_slots());
        after.slot_range(b).0 <= p < after.slot_range(b).1
    } by {
        assert(after.entries@[p].0 == before.entries@[p].0);
        let b = bucket_of(code(before.entries@[p].0@), before.num_slots());
        assert(after.slot_range(b) == before.slot_range(b));
    }
    assert forall|b: int, p: int|
        0 <= b < after.num_slots() && (#[trigger] after.slot_range(b)).0 <= p < after.slot_range(
            b,
        ).1 implies bucket_of(code((#[trigger] after.entries@[p]).0@), after.num_slots()) == b by {
        assert(after.slot_range(b) == before.slot_range(b));
        assert(after.entries@[p].0 == before.entries@[p].0);
    }
}

/// All the sequences of `parts`, one after another.
pub open spec fn concat_all<T>(parts: Seq<Seq<T>>) -> Seq<T>
    decreases parts.len(),
{
    if parts.len() == 0 {
        Seq::empty()
    } else {
        concat_all(parts.drop_last()) + parts.last()
    }
}

/// The contents of each of the vectors.
pub open spec fn views_of<T>(parts: Seq<Vec<T>>) -> Seq<Seq<T>> {
    Seq::new(parts.len(), |i: int| parts[i]@)
}

/// Position `p` lies in the range of one of the first `b` buckets.
spec fn covered<S: SlotIndex>(slots: Seq<HashTableSlot<S>>, p: int, b: int) -> bool {
    exists|c: int|
        0 <= c < b && (#[trigger] slots[c]).min_index.spec_value() <= p
            < slots[c].max_index.spec_value()
}

/// A sequence without items has no items as a multiset either.
pub proof fn lemma_empty_to_multiset<T>(s: Seq<T>)
    requires
        s.len() == 0,
    ensures
        s.to_multiset() == Multiset::<T>::empty(),
{
    s.to_multiset_ensures();
    vstd::multiset::lemma_multiset_empty_len(s.to_multiset());
    assert(s.to_multiset() =~= Multiset::<T>::empty());
}

/// Adding an item to one of the parts adds it to the whole.
pub proof fn lemma_concat_all_push<T>(parts: Seq<Seq<T>>, b: int, x: T)
    requires
        0 <= b < parts.len(),
    ensures
        concat_all(parts.update(b, parts[b].push(x))).to_multiset() == concat_all(
            parts,
        ).to_multiset().insert(x),
    decreases parts.len(),
{
    let next = parts.update(b, parts[b].push(x));
    let front = concat_all(parts.drop_last());
    if b == parts.len() - 1 {
        assert(next.drop_last() =~= parts.drop_last());
        assert(concat_all(next) =~= concat_all(parts).push(x));
        concat_all(parts).to_multiset_ensures();
    } else {
        assert(next.drop_last() =~= parts.drop_last().update(b, parts[b].push(x)));
        assert(next.last() == parts.last());
        lemma_concat_all_push(parts.drop_last(), b, x);
        vstd::seq_lib::lemma_multiset_commutative(concat_all(next.drop_last()), parts.last());
        vstd::seq_lib::lemma_multiset_commutative(front, parts.last());
        assert(concat_all(next).to_multiset() =~= concat_all(parts).to_multiset().insert(x));
    }
}

/// Empty parts make an empty whole.
pub proof fn lemma_concat_all_empty<T>(parts: Seq<Seq<T>>)
    requires
        forall|i: int| 0 <= i < parts.len() ==> (#[trigger] parts[i]).len() == 0,
    ensures
        concat_all(parts) == Seq::<T>::empty(),
    decreases parts.len(),
{
    if parts.len() > 0 {
        lemma_concat_all_empty(parts.drop_last());
        assert(concat_all(parts) =~= Seq::<T>::empty());
    }
}

/// The first parts together are no longer than all of them.
pub proof fn lemma_concat_all_prefix<T>(parts: Seq<Seq<T>>, b: int)
    requires
        0 <= b <= parts.len(),
    ensures
        concat_all(parts.subrange(0, b)).len() <= concat_all(parts).len(),
    decreases parts.len() - b,
{
    if b < parts.len() {
        lemma_concat_all_prefix(parts, b + 1);
        assert(parts.subrange(0, b + 1).drop_last() =~= parts.subrange(0, b));
    } else {
        assert(parts.subrange(0, b) =~= parts);
    }
}

impl<K: View, V, S: SlotIndex> HashTable<K, V, S> {
    /// The number of buckets.
    pub closed spec fn num_slots(&self) -> int {
        self.slots@.len() as int
    }

    /// The range of entries that bucket `b` describes.
    pub closed spec fn slot_range(&self, b: int) -> (int, int) {
        (self.slots@[b].min_index.spec_value() as int, self.slots@[b].max_index.spec_value() as int)
    }

    /// The table has a bucket, and every bucket describes a range of entries.
    pub open spec fn wf_slots(&self) -> bool {
        &&& self.num_slots() >= 1
        &&& forall|b: int|
            0 <= b < self.num_slots() ==> 0 <= (#[trigger] self.slot_range(b)).0
                <= self.slot_range(b).1 <= self.entries@.len()
    }

    /// The table is laid out for the hash codes that `code` names: every entry
    /// lies in the range of the bucket of its key, and every range holds
    /// entries of its own bucket only.
    pub open spec fn wf(&self, code: spec_fn(K::V) -> u64) -> bool {
        &&& self.wf_slots()
        &&& forall|p: int|
            0 <= p < self.entries@.len() ==> {
                let b = bucket_of(code((#[trigger] self.entries@[p]).0@), self.num_slots());
                self.slot_range(b).0 <= p < self.slot_range(b).1
            }
        &&& forall|b: int, p: int|
            0 <= b < self.num_slots() && (#[trigger] self.slot_range(b)).0 <= p < self.slot_range(
                b,
            ).1 ==> bucket_of(code((#[trigger] self.entries@[p]).0@), self.num_slots()) == b
    }

    /// Builds the table for `payload` with `num_hash_slots` buckets, where
    /// `hash` gives the hash code of a key. An empty payload gets one bucket.
    ///
    /// The entries are kept, in an order that puts each bucket's entries side
    /// by side. The construction fails where the payload has more entries than
    /// `S` can count.
    pub fn new<F: Fn(&K) -> u64>(payload: Vec<(K, V)>, num_hash_slots: usize, hash: F) -> (r:
        Result<Self, CapacityExceeded>)
        requires
            num_hash_slots >= 1,
            forall|k: &K| call_requires(hash, (k,)),
        ensures
            payload@.len() > S::spec_max() ==> r == Err::<Self, CapacityExceeded>(
                CapacityExceeded { len: payload.len(), capacity: S::spec_max() as usize },
            ),
            payload@.len() <= S::spec_max() ==> r is Ok,
            r matches Ok(t) ==> {
                &&& t.entries@.to_multiset() == payload@.to_multiset()
                &&& t.entries@.len() == payload@.len()
                &&& t.wf_slots()
                &&& t.num_slots() == (if payload@.len() == 0 {
                    1
                } else {
                    num_hash_slots as int
                })
                &&& forall|b: int|
                    0 <= b < t.num_slots() && (#[trigger] t.slot_range(b)).0 == t.slot_range(b).1
                        ==> t.slot_range(b) == (0int, 0int)
                &&& forall|code: spec_fn(K::V) -> u64| computes(hash, code) ==> #[trigger] t.wf(code)
            },
    {
        let n = payload.len();
        let max = S::max_value();
        if n > max {
            return Err(CapacityExceeded { len: n, capacity: max });
        }
        if n == 0 {
            let mut slots: Vec<HashTableSlot<S>> = Vec::new();
            slots.push(HashTableSlot { min_index: S::from_usize(0), max_index: S::from_usize(0) });
            let t = HashTable { slots, entries: Vec::new() };
            assert(t.entries@ =~= payload@);
            return Ok(t);
        }
        let ghost orig = payload@;
        let ghost nb = num_hash_slots as int;
        let mut payload = payload;

        // the bucket of each entry
        let mut idx: Vec<usize> = Vec::new();
        let mut i: usize = 0;
        while i < n
            invariant
                i <= n,
                n == payload@.len(),
                payload@ == orig,
                idx@.len() == i,
                num_hash_slots >= 1,
                nb == num_hash_slots,
                forall|k: &K| call_requires(hash, (k,)),
                forall|j: int|
                    0 <= j < i ==> 0 <= (#[trigger] idx@[j]) < nb && placed(
                        hash,
                        orig[j],
                        idx@[j] as int,
                        nb,
                    ),
            decreases n - i,
        {
            let h = hash(&payload[i].0);
            let b = u64_as_usize(h % (num_hash_slots as u64));
            assert(bucket_of(h, nb) == b);
            idx.push(b);
            i += 1;
        }

        // one vector per bucket
        let mut buckets: Vec<Vec<(K, V)>> = Vec::new();
        let mut b: usize = 0;
        while b < num_hash_slots
            invariant
                b <= num_hash_slots,
                buckets@.len() == b,
                forall|c: int| 0 <= c < b ==> (#[trigger] buckets@[c])@.len() == 0,
            decreases num_hash_slots - b,
        {
            buckets.push(Vec::new());
            b += 1;
        }
        proof {
            assert forall|c: int| 0 <= c < views_of(buckets@).len() implies (#[trigger] views_of(
                buckets@,
            )[c]).len() == 0 by {
                assert(buckets@[c]@.len() == 0);
            }
            lemma_concat_all_empty(views_of(buckets@));
            lemma_empty_to_multiset(concat_all(views_of(buckets@)));
            assert(Multiset::<(K, V)>::empty().add(orig.to_multiset()) =~= orig.to_multiset());
        }

        // move each entry into its bucket
        while payload.len() > 0
            invariant
                payload@.len() <= n,
                payload@ == orig.subrange(0, payload@.len() as int),
                n == orig.len(),
                idx@.len() == n,
                buckets@.len() == nb,
                nb == num_hash_slots,
                forall|j: int|
                    0 <= j < n ==> 0 <= (#[trigger] idx@[j]) < nb && placed(
                        hash,
                        orig[j],
                        idx@[j] as int,
                        nb,
                    ),
                forall|c: int, q: int|
                    0 <= c < nb && 0 <= q < buckets@[c]@.len() ==> placed(
                        hash,
                        #[trigger] buckets@[c]@[q],
                        c,
                        nb,
                    ),
                concat_all(views_of(buckets@)).to_multiset().add(payload@.to_multiset())
                    == orig.to_multiset(),
            decreases payload@.len(),
        {
            let j = payload.len() - 1;
            let ghost before = payload@;
            let ghost parts = views_of(buckets@);
            let item = payload.pop().unwrap();
            let slot = idx[j];
            assert(item == orig[j as int]);
            buckets[slot].push(item);
            proof {
                assert(views_of(buckets@) =~= parts.update(slot as int, parts[slot as int].push(item)));
                lemma_concat_all_push(parts, slot as int, item);
                assert(before =~= payload@.push(item));
                payload@.to_multiset_ensures();
                assert(concat_all(views_of(buckets@)).to_multiset().add(payload@.to_multiset())
                    =~= concat_all(parts).to_multiset().add(before.to_multiset()));
            }
        }
        let ghost filled = views_of(buckets@);
        proof {
            lemma_empty_to_multiset(payload@);
            assert(concat_all(filled).to_multiset() =~= orig.to_multiset());
            concat_all(filled).to_multiset_ensures();
            orig.to_multiset_ensures();
        }

        // lay the buckets out one after another
        let mut entries: Vec<(K, V)> = Vec::new();
        let mut slots: Vec<HashTableSlot<S>> = Vec::new();
        let mut b: usize = 0;
        assert(filled.subrange(0, 0) =~= Seq::<Seq<(K, V)>>::empty());
        while b < num_hash_slots
            invariant
                b <= num_hash_slots,
                nb == num_hash_slots,
                buckets@.len() == nb,
                filled.len() == nb,
                slots@.len() == b,
                n <= S::spec_max(),
                concat_all(filled).len() == n,
                forall|c: int| b <= c < nb ==> (#[trigger] buckets@[c])@ == filled[c],
                entries@ == concat_all(filled.subrange(0, b as int)),
                forall|c: int, q: int|
                    0 <= c < nb && 0 <= q < filled[c].len() ==> placed(
                        hash,
                        #[trigger] filled[c][q],
                        c,
                        nb,
                    ),
                forall|c: int|
                    0 <= c < b ==> {
                        let lo = (#[trigger] slots@[c]).min_index.spec_value() as int;
                        let hi = slots@[c].max_index.spec_value() as int;
                        &&& 0 <= lo <= hi <= entries@.len()
                        &&& hi - lo == filled[c].len()
                        &&& forall|q: int| 0 <= q < hi - lo ==> entries@[lo + q] == filled[c][q]
                    },
                forall|p: int| 0 <= p < entries@.len() ==> #[trigger] covered(slots@, p, b as int),
                forall|c: int|
                    0 <= c < b && (#[trigger] slots@[c]).min_index.spec_value()
                        == slots@[c].max_index.spec_value() ==> slots@[c].min_index.spec_value()
                        == 0,
            decreases num_hash_slots - b,
        {
            let start = entries.len();
            let ghost before = entries@;
            let ghost old_slots = slots@;
            entries.append(&mut buckets[b]);
            let end = entries.len();
            proof {
                assert(filled.subrange(0, b + 1).drop_last() =~= filled.subrange(0, b as int));
                assert(filled.subrange(0, b + 1).last() == filled[b as int]);
                assert(entries@ =~= concat_all(filled.subrange(0, b + 1)));
                lemma_concat_all_prefix(filled, b + 1);
            }
            if end == start {
                // an empty bucket is described by the empty range at the front
                slots.push(HashTableSlot { min_index: S::from_usize(0), max_index: S::from_usize(0) });
            } else {
                slots.push(
                    HashTableSlot { min_index: S::from_usize(start), max_index: S::from_usize(end) },
                );
            }
            proof {
                assert forall|p: int| 0 <= p < entries@.len() implies #[trigger] covered(
                    slots@,
                    p,
                    b + 1,
                ) by {
                    if p < start {
                        assert(covered(old_slots, p, b as int));
                        let c = choose|c: int|
                            0 <= c < b && (#[trigger] old_slots[c]).min_index.spec_value() <= p
                                < old_slots[c].max_index.spec_value();
                        assert(slots@[c] == old_slots[c]);
                    } else {
                        assert(slots@[b as int].min_index.spec_value() <= p);
                    }
                }
            }
            b += 1;
        }
        let t = HashTable { slots, entries };
        proof {
            assert(filled.subrange(0, nb) =~= filled);
            assert forall|code: spec_fn(K::V) -> u64| computes(hash, code) implies #[trigger] t.wf(
                code,
            ) by {
                assert forall|c: int, p: int|
                    0 <= c < t.num_slots() && (#[trigger] t.slot_range(c)).0 <= p < t.slot_range(
                        c,
                    ).1 implies bucket_of(code((#[trigger] t.entries@[p]).0@), t.num_slots())
                    == c by {
                    let lo = t.slots@[c].min_index.spec_value() as int;
                    assert(t.entries@[lo + (p - lo)] == filled[c][p - lo]);
                    assert(placed(hash, filled[c][p - lo], c, nb));
                }
                assert forall|p: int| 0 <= p < t.entries@.len() implies {
                    let c = bucket_of(code((#[trigger] t.entries@[p]).0@), t.num_slots());
                    t.slot_range(c).0 <= p < t.slot_range(c).1
                } by {
                    assert(covered(t.slots@, p, nb));
                    let c = choose|c: int|
                        0 <= c < nb && (#[trigger] t.slots@[c]).min_index.spec_value() <= p
                            < t.slots@[c].max_index.spec_value();
                    assert(t.slot_range(c).0 <= p < t.slot_range(c).1);
                }
            }
        }
        Ok(t)
    }

    /// Returns the range of entries that belong to the bucket of `hash_code`.
    pub fn get_hash_info(&self, hash_code: u64) -> (r: Range<usize>)
        requires
            self.wf_slots(),
        ensures
            r.start == self.slot_range(bucket_of(hash_code, self.num_slots())).0,
            r.end == self.slot_range(bucket_of(hash_code, self.num_slots())).1,
            r.start <= r.end <= self.entries@.len(),
    {
        let n = self.slots.len();
        let hash_slot_index = u64_as_usize(hash_code % (n as u64));
        assert(self.slot_range(hash_slot_index as int).1 <= self.entries@.len());
        let hash_slot = &self.slots[hash_slot_index];
        hash_slot.min_index.to_usize()..hash_slot.max_index.to_usize()
    }

    /// Returns the entry at `index`, if there is one.
    pub fn get_by_index(&self, index: usize) -> (r: Option<(&K, &V)>)
        ensures
            index < self.entries@.len() ==> r == Some(
                (&self.entries@[index as int].0, &self.entries@[index as int].1),
            ),
            index >= self.entries@.len() ==> r is None,
    {
        if index < self.len() {
            Some((&self.entries[index].0, &self.entries[index].1))
        } else {
            None
        }
    }

    /// Returns the number of entries.
    pub fn len(&self) -> (n: usize)
        ensures
            n == self.entries@.len(),
    {
        self.entries.len()
    }
}

impl<K: View, V, S: SlotIndex> HashTable<K, V, S> {
    /// The first entry with view `k` in the bucket of its code is the first one
    /// in the whole table.
    proof fn lemma_found(&self, hash_code: u64, k: K::V, i: int)
        requires
            self.wf_slots(),
            self.slot_range(bucket_of(hash_code, self.num_slots())).0 <= i < self.slot_range(
                bucket_of(hash_code, self.num_slots()),
            ).1,
            self.entries@[i].0@ == k,
            forall|j: int|
                self.slot_range(bucket_of(hash_code, self.num_slots())).0 <= j < i ==> (
                #[trigger] self.entries@[j]).0@ != k,
        ensures
            forall|code: spec_fn(K::V) -> u64|
                #[trigger] self.wf(code) && hash_code == code(k) ==> is_first_match(
                    self.entries@,
                    k,
                    i,
                ),
    {
        assert forall|code: spec_fn(K::V) -> u64| #[trigger]
            self.wf(code) && hash_code == code(k) implies is_first_match(self.entries@, k, i) by {
            assert forall|j: int| 0 <= j < i implies (#[trigger] self.entries@[j]).0@ != k by {
                if self.entries@[j].0@ == k {
                    let c = bucket_of(code(self.entries@[j].0@), self.num_slots());
                    assert(self.slot_range(c).0 <= j);
                }
            }
        }
    }

    /// A key that is absent from the bucket of its code is absent from the
    /// whole table.
    proof fn lemma_not_found(&self, hash_code: u64, k: K::V)
        requires
            self.wf_slots(),
            forall|j: int|
                self.slot_range(bucket_of(hash_code, self.num_slots())).0 <= j < self.slot_range(
                    bucket_of(hash_code, self.num_slots()),
                ).1 ==> (#[trigger] self.entries@[j]).0@ != k,
        ensures
            forall|code: spec_fn(K::V) -> u64|
                #[trigger] self.wf(code) && hash_code == code(k) ==> !has_key(self.entries@, k),
    {
        assert forall|code: spec_fn(K::V) -> u64| #[trigger]
            self.wf(code) && hash_code == code(k) implies !has_key(self.entries@, k) by {
            if has_key(self.entries@, k) {
                let j = choose|j: int|
                    0 <= j < self.entries@.len() && (#[trigger] self.entries@[j]).0@ == k;
                let c = bucket_of(code(self.entries@[j].0@), self.num_slots());
                assert(self.slot_range(c).0 <= j < self.slot_range(c).1);
            }
        }
    }
}

/// In a table that is laid out for its hash codes the ranges of the buckets
/// share no entry and leave none out: every entry lies in the range of the
/// bucket of its key and in no other.
pub proof fn lemma_ranges_partition<K: View, V, S: SlotIndex>(
    table: HashTable<K, V, S>,
    code: spec_fn(K::V) -> u64,
    p: int,
    b: int,
)
    requires
        table.wf(code),
        0 <= p < table.entries@.len(),
        0 <= b < table.num_slots(),
    ensures
        (table.slot_range(b).0 <= p < table.slot_range(b).1) == (b == bucket_of(
            code(table.entries@[p].0@),
            table.num_slots(),
        )),
{
}

impl<K: Key, V, S: SlotIndex> HashTable<K, V, S> {
    /// Searches the bucket of `hash_code` for `key` and returns the position
    /// of the first entry with that key.
    ///
    /// In a table laid out for the codes of its keys, and with `hash_code` the
    /// code of `key`, that entry is the first one with the key in the whole
    /// table.
    pub fn find(&self, hash_code: u64, key: &K) -> (r: Option<usize>)
        requires
            self.wf_slots(),
        ensures
            ({
                let lo = self.slot_range(bucket_of(hash_code, self.num_slots())).0;
                let hi = self.slot_range(bucket_of(hash_code, self.num_slots())).1;
                match r {
                    Some(i) => lo <= i < hi && self.entries@[i as int].0@ == key@ && forall|j: int|
                        lo <= j < i ==> (#[trigger] self.entries@[j]).0@ != key@,
                    None => forall|j: int| lo <= j < hi ==> (#[trigger] self.entries@[j]).0@ != key@,
                }
            }),
            forall|code: spec_fn(K::V) -> u64|
                #[trigger] self.wf(code) && hash_code == code(key@) ==> (match r {
                    Some(i) => is_first_match(self.entries@, key@, i as int),
                    None => !has_key(self.entries@, key@),
                }),
    {
        let range = self.get_hash_info(hash_code);
        let mut i = range.start;
        let end = range.end;
        let ghost b = bucket_of(hash_code, self.num_slots());
        while i < end
            invariant
                self.wf_slots(),
                range.start <= i <= end <= self.entries@.len(),
                range.start == self.slot_range(b).0,
                end == self.slot_range(b).1,
                b == bucket_of(hash_code, self.num_slots()),
                forall|j: int| range.start <= j < i ==> (#[trigger] self.entries@[j]).0@ != key@,
            decreases end - i,
        {
            if key.key_eq(&self.entries[i].0) {
                proof {
                    self.lemma_found(hash_code, key@, i as int);
                }
                return Some(i);
            }
            i += 1;
        }
        proof {
            self.lemma_not_found(hash_code, key@);
        }
        None
    }
}

} // verus!
