//! The map for integer keys that fill a range: the entries lie in the order
//! of their keys, and a lookup is a subtraction.

use crate::analyzers::int_key_analyzer::IntKeyAnalysisResult;
use crate::analyzers::int_key_analyzer::analyze_int_keys;
use crate::analyzers::int_key_analyzer::is_permutation_of_range;
use crate::analyzers::int_key_analyzer::key_bounds;
use crate::analyzers::int_key_analyzer::lemma_range_bounds;
use crate::analyzers::int_key_analyzer::occurs;
use crate::collect::vec_from_array;
use crate::collect::vec_from_iter;
use crate::model::first_index;
use crate::model::has_key;
use crate::model::is_first_match;
use crate::model::keys_of;
use crate::model::lemma_first_match_is_lookup;
use crate::model::lookup;
use crate::model::lookup_entry;
use crate::model::values_of;
use crate::specialized_maps::debug::debug_map_string;
use crate::specialized_maps::debug::is_map_form;
use crate::specialized_maps::equality::maps_are_equal;
use crate::specialized_maps::equality::maps_equal;
use crate::specialized_maps::equality::values_comparable;
use crate::specialized_maps::hash_table::concat_all;
use crate::specialized_maps::hash_table::lemma_concat_all_empty;
use crate::specialized_maps::hash_table::lemma_concat_all_push;
use crate::specialized_maps::hash_table::lemma_empty_to_multiset;
use crate::specialized_maps::iterators::Iter;
use crate::specialized_maps::iterators::Keys;
use crate::specialized_maps::iterators::Values;
use crate::specialized_maps::many_mut::all_found;
use crate::specialized_maps::many_mut::chosen;
use crate::specialized_maps::many_mut::is_target;
use crate::specialized_maps::many_mut::keys_are_distinct;
use crate::specialized_maps::many_mut::refs_at;
use crate::specialized_maps::map_ops::MapOps;
use crate::traits::key::Key;
use crate::traits::key::KeyCategory;
use crate::traits::key::KeyForm;
use crate::traits::key::KeyShape;
use crate::traits::int_value::ints;
use crate::traits::int_value::IntValue;
use crate::traits::key::int_value_of;
use crate::traits::len::Len;
use std::fmt::Debug;
use vstd::multiset::Multiset;
use vstd::prelude::*;
use vstd::std_specs::iter::IteratorSpec;

verus! {

/// A map whose keys are a continuous range of integers.
#[derive(Clone)]
pub struct IntegerRangeMap<K, V> {
    pub min: IntValue,
    pub max: IntValue,
    pub entries: Vec<(K, V)>,
}

/// The integer values of the keys of `entries`, in order; zero for a key that
/// is no integer.
pub open spec fn key_values<K: Key, V>(entries: Seq<(K, V)>) -> Seq<int> {
    Seq::new(entries.len(), |i: int| int_value_of(K::shape(entries[i].0@)))
}

/// All keys are integers, and they fill a range without gaps or repetitions.
pub open spec fn fills_a_range<K: Key, V>(entries: Seq<(K, V)>) -> bool {
    &&& forall|i: int| 0 <= i < entries.len() ==> K::shape((#[trigger] entries[i]).0@) is Integer
    &&& exists|min: int| is_permutation_of_range(key_values(entries), min)
}

/// Each slot as a sequence of no item or of one.
spec fn parts_of<T>(slots: Seq<Option<T>>) -> Seq<Seq<T>> {
    Seq::new(
        slots.len(),
        |i: int|
            match slots[i] {
                Some(x) => seq![x],
                None => Seq::empty(),
            },
    )
}

/// The integer values of the keys of `payload`, in order.
pub fn int_values<K: Key, V>(payload: &Vec<(K, V)>) -> (r: Vec<IntValue>)
    ensures
        ints(r@) == key_values(payload@),
{
    let mut values: Vec<IntValue> = Vec::new();
    let mut i: usize = 0;
    while i < payload.len()
        invariant
            i <= payload@.len(),
            values@.len() == i,
            forall|j: int| 0 <= j < i ==> (#[trigger] values@[j])@ == key_values(payload@)[j],
        decreases payload@.len() - i,
    {
        let x = match payload[i].0.form() {
            KeyForm::Integer(x) => x,
            _ => IntValue::Signed(0),
        };
        values.push(x);
        i += 1;
    }
    assert(ints(values@) =~= key_values(payload@));
    values
}

impl<K, V> View for IntegerRangeMap<K, V> {
    type V = Seq<(K, V)>;

    /// The entries, in the order in which they are stored and visited.
    open spec fn view(&self) -> Seq<(K, V)> {
        self.entries@
    }
}

impl<K: Key, V> IntegerRangeMap<K, V> {
    /// The entries lie in the order of their keys: the entry at offset `i` has
    /// the key `min + i`, and the last one has the key `max`. An empty map has
    /// zero for both bounds.
    pub open spec fn wf(&self) -> bool {
        &&& self@.len() == 0 ==> self.min@ == 0 && self.max@ == 0
        &&& self@.len() > 0 ==> self.max@ - self.min@ + 1 == self@.len()
        &&& forall|i: int|
            0 <= i < self@.len() ==> K::shape((#[trigger] self@[i]).0@) == KeyShape::Integer(
                self.min@ + i,
            )
    }

    /// Makes the map that holds the entries of `payload`, ordered by key.
    ///
    /// The keys of a payload that is not empty must be integers that fill a
    /// range, each once.
    pub fn from_vec(payload: Vec<(K, V)>) -> (r: Self)
        requires
            payload@.len() > 0 ==> fills_a_range(payload@),
        ensures
            r.wf(),
            r@.to_multiset() == payload@.to_multiset(),
            r@.len() == payload@.len(),
    {
        let n = payload.len();
        if n == 0 {
            let r = IntegerRangeMap {
                min: IntValue::Signed(0),
                max: IntValue::Signed(0),
                entries: Vec::new(),
            };
            assert(r@ =~= payload@);
            return r;
        }
        let ghost orig = payload@;
        let mut payload = payload;
        let keys = int_values(&payload);
        let ghost ks = ints(keys@);
        assert(keys@.len() == ks.len());
        let (min, max) = key_bounds(keys.as_slice());
        proof {
            let m = choose|m: int| is_permutation_of_range(key_values(orig), m);
            lemma_range_bounds(ks, m, min@, max@);
        }

        // one slot per key of the range
        let mut slots: Vec<Option<(K, V)>> = Vec::new();
        let mut i: usize = 0;
        while i < n
            invariant
                i <= n,
                slots@.len() == i,
                forall|c: int| 0 <= c < i ==> (#[trigger] slots@[c]) is None,
            decreases n - i,
        {
            slots.push(None);
            i += 1;
        }
        proof {
            assert forall|c: int| 0 <= c < parts_of(slots@).len() implies (#[trigger] parts_of(
                slots@,
            )[c]).len() == 0 by {
                assert(slots@[c] is None);
            }
            lemma_concat_all_empty(parts_of(slots@));
            lemma_empty_to_multiset(concat_all(parts_of(slots@)));
            assert(Multiset::<(K, V)>::empty().add(orig.to_multiset()) =~= orig.to_multiset());
        }

        // move each entry into the slot of its key
        while payload.len() > 0
            invariant
                payload@.len() <= n,
                payload@ == orig.subrange(0, payload@.len() as int),
                n == orig.len(),
                ks == ints(keys@),
                ks == key_values(orig),
                slots@.len() == n,
                is_permutation_of_range(ks, min@),
                forall|j: int|
                    payload@.len() <= j < n ==> slots@[#[trigger] ks[j] - min@] == Some(orig[j]),
                forall|c: int|
                    0 <= c < n && (forall|j: int|
                        payload@.len() <= j < n ==> #[trigger] ks[j] - min@ != c) ==> (
                    #[trigger] slots@[c]) is None,
                concat_all(parts_of(slots@)).to_multiset().add(payload@.to_multiset())
                    == orig.to_multiset(),
            decreases payload@.len(),
        {
            let j = payload.len() - 1;
            let ghost before = payload@;
            let ghost old_slots = slots@;
            let ghost parts = parts_of(slots@);
            let item = payload.pop().unwrap();
            assert(item == orig[j as int]);
            assert(ks[j as int] == keys@[j as int]@);
            let off = match keys[j].offset_from(&min) {
                Some(off) => off,
                None => 0,
            };
            assert(off == ks[j as int] - min@);
            assert(old_slots[off as int] is None) by {
                assert forall|a: int| j < a < n implies #[trigger] ks[a] - min@ != off by {
                    assert(ks[a] != ks[j as int]);
                }
            }
            slots[off] = Some(item);
            proof {
                assert(seq![item] =~= Seq::<(K, V)>::empty().push(item));
                assert(parts_of(slots@) =~= parts.update(off as int, parts[off as int].push(item)));
                lemma_concat_all_push(parts, off as int, item);
                assert(before =~= payload@.push(item));
                payload@.to_multiset_ensures();
                assert(concat_all(parts_of(slots@)).to_multiset().add(payload@.to_multiset())
                    =~= concat_all(parts).to_multiset().add(before.to_multiset()));
                assert forall|a: int| j <= a < n implies slots@[#[trigger] ks[a] - min@] == Some(
                    orig[a],
                ) by {
                    if a != j {
                        assert(ks[a] != ks[j as int]);
                        assert(old_slots[ks[a] - min@] == Some(orig[a]));
                    }
                }
            }
        }
        let ghost filled = slots@;
        proof {
            lemma_empty_to_multiset(payload@);
            assert(concat_all(parts_of(filled)).to_multiset() =~= orig.to_multiset());
            concat_all(parts_of(filled)).to_multiset_ensures();
            orig.to_multiset_ensures();
            assert forall|c: int| 0 <= c < n implies exists|j: int|
                0 <= j < n && ks[j] == min@ + c && #[trigger] filled[c] == Some(orig[j]) by {
                assert(occurs(ks, min@ + c));
                let j = choose|j: int| 0 <= j < ks.len() && #[trigger] ks[j] == min@ + c;
                assert(filled[ks[j] - min@] == Some(orig[j]));
            }
        }

        // take the entries out in the order of their keys
        let mut entries: Vec<(K, V)> = Vec::new();
        let mut i: usize = 0;
        assert(parts_of(filled).subrange(0, 0) =~= Seq::<Seq<(K, V)>>::empty());
        while i < n
            invariant
                i <= n,
                slots@.len() == n,
                filled.len() == n,
                concat_all(parts_of(filled)).len() == n,
                forall|c: int| i <= c < n ==> #[trigger] slots@[c] == filled[c],
                forall|c: int| 0 <= c < n ==> (#[trigger] filled[c]) is Some,
                entries@ == concat_all(parts_of(filled).subrange(0, i as int)),
                entries@.len() == i,
                forall|c: int| 0 <= c < i ==> Some(#[trigger] entries@[c]) == filled[c],
            decreases n - i,
        {
            let taken = slots[i].take();
            let entry = taken.unwrap();
            entries.push(entry);
            proof {
                let parts = parts_of(filled);
                assert(parts.subrange(0, i + 1).drop_last() =~= parts.subrange(0, i as int));
                assert(parts.subrange(0, i + 1).last() == parts[i as int]);
                assert(parts[i as int] =~= seq![entry]);
                assert(entries@ =~= concat_all(parts.subrange(0, i + 1)));
            }
            i += 1;
        }
        let r = IntegerRangeMap { min, max, entries };
        proof {
            assert(parts_of(filled).subrange(0, n as int) =~= parts_of(filled));
            assert forall|c: int| 0 <= c < r@.len() implies K::shape((#[trigger] r@[c]).0@)
                == KeyShape::Integer(min@ + c) by {
                let j = choose|j: int|
                    0 <= j < n && ks[j] == min@ + c && #[trigger] filled[c] == Some(orig[j]);
                assert(key_values(orig)[j] == int_value_of(K::shape(orig[j].0@)));
                assert(K::shape(orig[j].0@) is Integer);
            }
        }
        r
    }

    /// Makes the map that holds the entries of the array `payload`, ordered by
    /// key.
    ///
    /// The keys of an array that is not empty must be integers that fill a
    /// range, each once.
    pub fn from<const N: usize>(payload: [(K, V); N]) -> (r: Self)
        requires
            payload@.len() > 0 ==> fills_a_range(payload@),
        ensures
            r.wf(),
            r@.to_multiset() == payload@.to_multiset(),
            r@.len() == payload@.len(),
    {
        Self::from_vec(vec_from_array(payload))
    }

    /// Makes the map that holds the entries of `payload`, ordered by key,
    /// where the payload is empty or its keys are integers that fill a range,
    /// each once. Hands the payload back otherwise.
    pub fn try_from_vec(payload: Vec<(K, V)>) -> (r: Result<Self, Vec<(K, V)>>)
        ensures
            r is Ok == (payload@.len() == 0 || fills_a_range(payload@)),
            r matches Ok(m) ==> {
                &&& m.wf()
                &&& m@.to_multiset() == payload@.to_multiset()
                &&& m@.len() == payload@.len()
            },
            r matches Err(p) ==> p@ == payload@,
    {
        if payload.len() == 0 {
            return Ok(Self::from_vec(payload));
        }
        match K::category() {
            KeyCategory::Integer => {},
            _ => {
                proof {
                    K::lemma_shape(payload@[0].0@, payload@[0].0@);
                }
                return Err(payload);
            },
        }
        proof {
            assert forall|i: int| 0 <= i < payload@.len() implies K::shape(
                (#[trigger] payload@[i]).0@,
            ) is Integer by {
                K::lemma_shape(payload@[i].0@, payload@[i].0@);
            }
        }
        let keys = int_values(&payload);
        if payload.len() == 1 {
            proof {
                let min = ints(keys@)[0];
                assert(occurs(ints(keys@), min));
                assert(is_permutation_of_range(ints(keys@), min));
            }
            return Ok(Self::from_vec(payload));
        }
        match analyze_int_keys(keys.as_slice()) {
            IntKeyAnalysisResult::Range => Ok(Self::from_vec(payload)),
            IntKeyAnalysisResult::Normal => Err(payload),
        }
    }

    /// Makes the map that holds the entries that `iter` yields, ordered by
    /// key, where there are none or their keys are integers that fill a range,
    /// each once. Hands the entries back otherwise.
    pub fn from_iter<T: Iterator<Item = (K, V)>>(iter: T) -> (r: Result<Self, Vec<(K, V)>>)
        ensures
            r matches Ok(m) ==> m.wf(),
            r matches Err(p) ==> p@.len() > 0 && !fills_a_range(p@),
            iter.obeys_prophetic_iter_laws() && iter.will_return_none() ==> {
                &&& r is Ok == (iter.remaining().len() == 0 || fills_a_range(iter.remaining()))
                &&& r matches Ok(c) ==> c@.to_multiset() == iter.remaining().to_multiset() && c@.len()
                    == iter.remaining().len()
                &&& r matches Err(p) ==> p@ == iter.remaining()
            },
    {
        Self::try_from_vec(vec_from_iter(iter))
    }

    /// Returns the position of the entry with the key, if there is one.
    pub fn position(&self, key: &K) -> (r: Option<usize>)
        requires
            self.wf(),
        ensures
            match r {
                Some(i) => is_first_match(self@, key@, i as int),
                None => !has_key(self@, key@),
            },
    {
        let n = self.entries.len();
        let found = match key.form() {
            KeyForm::Integer(x) => {
                // the distance from the least key is the place of the key,
                // where the key is not beyond the greatest
                match x.offset_from(&self.min) {
                    Some(index) => if index < n {
                        Some(index)
                    } else {
                        None
                    },
                    None => None,
                }
            },
            _ => None,
        };
        proof {
            match found {
                Some(i) => {
                    K::lemma_shape(key@, self@[i as int].0@);
                    assert forall|j: int| 0 <= j < i implies (#[trigger] self@[j]).0@ != key@ by {
                        K::lemma_shape(key@, self@[j].0@);
                    }
                },
                None => {
                    if has_key(self@, key@) {
                        let i = choose|i: int| 0 <= i < self@.len() && (#[trigger] self@[i]).0@ == key@;
                        assert(K::shape(self@[i].0@) == KeyShape::Integer(self.min@ + i));
                    }
                },
            }
        }
        found
    }

    /// Returns a reference to the value of the entry with the key.
    pub fn get(&self, key: &K) -> (r: Option<&V>)
        requires
            self.wf(),
        ensures
            match r {
                Some(v) => lookup(self@, key@) == Some(*v),
                None => lookup(self@, key@) is None,
            },
    {
        match self.position(key) {
            Some(i) => {
                proof {
                    lemma_first_match_is_lookup(self@, key@, i as int);
                }
                Some(&self.entries[i].1)
            },
            None => None,
        }
    }

    /// Returns a mutable reference to the value of the entry with the key.
    /// Nothing but that value can change through it.
    pub fn get_mut(&mut self, key: &K) -> (r: Option<&mut V>)
        requires
            old(self).wf(),
        ensures
            final(self).wf(),
            final(self).min == old(self).min,
            final(self).max == old(self).max,
            match r {
                Some(v) => {
                    let i = first_index(old(self)@, key@);
                    &&& has_key(old(self)@, key@)
                    &&& *v == old(self)@[i].1
                    &&& final(self)@ == old(self)@.update(i, (old(self)@[i].0, *final(v)))
                },
                None => !has_key(old(self)@, key@) && final(self)@ == old(self)@,
            },
    {
        match self.position(key) {
            Some(i) => {
                proof {
                    lemma_first_match_is_lookup(self@, key@, i as int);
                }
                Some(&mut self.entries[i].1)
            },
            None => None,
        }
    }

    /// Returns the entry with the key: the stored key and its value.
    pub fn get_key_value(&self, key: &K) -> (r: Option<(&K, &V)>)
        requires
            self.wf(),
        ensures
            match r {
                Some((k, v)) => lookup_entry(self@, key@) == Some((*k, *v)),
                None => lookup_entry(self@, key@) is None,
            },
    {
        match self.position(key) {
            Some(i) => {
                proof {
                    lemma_first_match_is_lookup(self@, key@, i as int);
                }
                Some((&self.entries[i].0, &self.entries[i].1))
            },
            None => None,
        }
    }

    /// Returns the positions of the first entries with the keys, where the
    /// keys are all different and all present.
    pub fn positions<const N: usize>(&self, keys: &[&K; N]) -> (r: Option<Vec<usize>>)
        requires
            self.wf(),
        ensures
            r is Some == all_found(self@, keys@),
            r matches Some(idx) ==> idx@.len() == N && forall|i: int|
                0 <= i < N ==> is_first_match(self@, keys@[i]@, (#[trigger] idx@[i]) as int),
    {
        if !keys_are_distinct(keys) {
            return None;
        }
        let mut idx: Vec<usize> = Vec::new();
        let mut i: usize = 0;
        while i < N
            invariant
                i <= N,
                idx@.len() == i,
                self.wf(),
                forall|a: int| 0 <= a < i ==> has_key(self@, (#[trigger] keys@[a])@),
                forall|a: int|
                    0 <= a < i ==> is_first_match(self@, keys@[a]@, (#[trigger] idx@[a]) as int),
            decreases N - i,
        {
            match self.position(keys[i]) {
                Some(p) => {
                    proof {
                        lemma_first_match_is_lookup(self@, keys@[i as int]@, p as int);
                    }
                    idx.push(p);
                },
                None => {
                    return None;
                },
            }
            i += 1;
        }
        Some(idx)
    }

    /// Attempts to get mutable references to the values of `N` keys at once.
    ///
    /// Returns the references in the order of the keys where the keys are all
    /// different and all present, and `None` otherwise. Nothing but those
    /// values can change through them.
    pub fn get_many_mut<const N: usize>(&mut self, keys: [&K; N]) -> (r: Option<[&mut V; N]>)
        requires
            old(self).wf(),
        ensures
            final(self).wf(),
            final(self).min == old(self).min,
            final(self).max == old(self).max,
            r is Some == all_found(old(self)@, keys@),
            r is None ==> final(self)@ == old(self)@,
            r matches Some(refs) ==> {
                &&& final(self)@.len() == old(self)@.len()
                &&& forall|p: int|
                    0 <= p < old(self)@.len() ==> (#[trigger] final(self)@[p]).0 == old(self)@[p].0
                &&& forall|i: int|
                    0 <= i < N ==> *(#[trigger] refs@[i]) == old(self)@[first_index(
                        old(self)@,
                        keys@[i]@,
                    )].1
                &&& forall|i: int|
                    0 <= i < N ==> final(self)@[first_index(old(self)@, (#[trigger] keys@[i])@)].1
                        == *final(refs@[i])
                &&& forall|p: int|
                    0 <= p < old(self)@.len() && !is_target(old(self)@, keys@, p)
                        ==> #[trigger] final(self)@[p] == old(self)@[p]
            },
    {
        match self.positions(&keys) {
            None => None,
            Some(idx) => {
                proof {
                    assert forall|i: int| 0 <= i < N implies first_index(
                        self@,
                        (#[trigger] keys@[i])@,
                    ) == idx@[i] by {
                        lemma_first_match_is_lookup(self@, keys@[i]@, idx@[i] as int);
                    }
                    assert forall|p: int| chosen(idx@, N as int, p) implies is_target(
                        self@,
                        keys@,
                        p,
                    ) by {
                        let c = choose|c: int| 0 <= c < N && #[trigger] idx@[c] == p;
                        assert(first_index(self@, keys@[c]@) == p);
                    }
                    assert forall|a: int, b: int|
                        0 <= a < idx@.len() && 0 <= b < idx@.len() && a != b implies idx@[a]
                        != idx@[b] by {
                        assert(keys@[a]@ != keys@[b]@);
                    }
                }
                Some(refs_at(&mut self.entries, &idx))
            },
        }
    }

    /// Returns whether the two maps are equally long and every entry of this
    /// map has its key in the other, with an equal value.
    pub fn equals<M: MapOps<K, V>>(&self, other: &M) -> (b: bool) where V: PartialEq
        requires
            self.wf(),
            other.valid(),
        ensures
            values_comparable::<V>() ==> b == maps_equal(self@, other.entries()),
    {
        maps_are_equal(self, other)
    }

    /// Returns a reference to the value of a key that the map has.
    pub fn index(&self, key: &K) -> (r: &V)
        requires
            self.wf(),
            has_key(self@, key@),
        ensures
            lookup(self@, key@) == Some(*r),
    {
        match self.get(key) {
            Some(v) => v,
            None => vstd::pervasive::unreached(),
        }
    }

    /// Returns a mutable reference to the value of a key that the map has.
    /// Nothing but that value can change through it.
    pub fn index_mut(&mut self, key: &K) -> (r: &mut V)
        requires
            old(self).wf(),
            has_key(old(self)@, key@),
        ensures
            final(self).wf(),
            final(self).min == old(self).min,
            final(self).max == old(self).max,
            *r == old(self)@[first_index(old(self)@, key@)].1,
            final(self)@ == old(self)@.update(
                first_index(old(self)@, key@),
                (old(self)@[first_index(old(self)@, key@)].0, *final(r)),
            ),
    {
        match self.get_mut(key) {
            Some(v) => v,
            None => vstd::pervasive::unreached(),
        }
    }

    /// Returns whether the map has an entry with the key.
    pub fn contains_key(&self, key: &K) -> (b: bool)
        requires
            self.wf(),
        ensures
            b == has_key(self@, key@),
    {
        self.get(key).is_some()
    }
}

impl<K, V> IntegerRangeMap<K, V> {
    /// Returns the entry at `index` in the order of the map, if there is one.
    pub fn get_by_index(&self, index: usize) -> (r: Option<(&K, &V)>)
        ensures
            index < self@.len() ==> r == Some((&self@[index as int].0, &self@[index as int].1)),
            index >= self@.len() ==> r is None,
    {
        if index < self.entries.len() {
            Some((&self.entries[index].0, &self.entries[index].1))
        } else {
            None
        }
    }

    /// The entries in the form of a map: each key and value in its `Debug`
    /// form with a colon between them, the entries separated by commas, all
    /// between braces.
    pub fn debug_string(&self) -> (r: String) where K: Debug, V: Debug
        ensures
            is_map_form(r@, self@.len()),
    {
        debug_map_string(self.entries.as_slice())
    }

    /// Returns the number of entries.
    pub fn len(&self) -> (n: usize)
        ensures
            n == self@.len(),
    {
        self.entries.len()
    }

    /// Returns whether the map has no entries.
    pub fn is_empty(&self) -> (b: bool)
        ensures
            b == (self@.len() == 0),
    {
        self.entries.len() == 0
    }

    /// A cursor over all entries, in the order of their keys.
    pub fn iter(&self) -> (r: Iter<'_, K, V>)
        ensures
            r.remaining() == self@,
    {
        Iter::new(self.entries.as_slice())
    }

    /// A cursor over all keys, in their order.
    pub fn keys(&self) -> (r: Keys<'_, K, V>)
        ensures
            r.remaining() == keys_of(self@),
    {
        Keys::new(self.entries.as_slice())
    }

    /// A cursor over all values, in the order of their keys.
    pub fn values(&self) -> (r: Values<'_, K, V>)
        ensures
            r.remaining() == values_of(self@),
    {
        Values::new(self.entries.as_slice())
    }
}

impl<K, V> Len for IntegerRangeMap<K, V> {
    open spec fn spec_len(&self) -> nat {
        self@.len()
    }

    fn len(&self) -> (n: usize) {
        IntegerRangeMap::len(self)
    }
}

impl<K: Key, V> MapOps<K, V> for IntegerRangeMap<K, V> {
    open spec fn entries(&self) -> Seq<(K, V)> {
        self@
    }

    open spec fn valid(&self) -> bool {
        self.wf()
    }

    fn get(&self, key: &K) -> (r: Option<&V>) {
        IntegerRangeMap::get(self, key)
    }

    fn get_by_index(&self, index: usize) -> (r: Option<(&K, &V)>) {
        IntegerRangeMap::get_by_index(self, index)
    }

    proof fn lemma_len(&self) {
    }
}

} // verus!
