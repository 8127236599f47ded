//! The set for byte strings that differ in a window at a fixed place from
//! their beginning.

use core::ops::Range;
use crate::collect::vec_from_array;
use crate::collect::vec_from_iter;
use crate::model::find_item;
use crate::model::has_item;
use crate::model::keys_of;
use crate::model::lemma_items_of_entries;
use crate::model::lemma_unit_entries_items;
use crate::specialized_maps::hash_table::CapacityExceeded;
use crate::specialized_maps::left_slice_map::LeftSliceMap;
use crate::specialized_sets::iterators::Difference;
use crate::specialized_sets::iterators::Intersection;
use crate::specialized_sets::iterators::Iter;
use crate::specialized_sets::iterators::SymmetricDifference;
use crate::specialized_sets::iterators::Union;
use crate::specialized_maps::debug::is_map_form;
use crate::specialized_sets::iterators::difference_order;
use crate::specialized_sets::iterators::intersection_order;
use crate::specialized_sets::iterators::symmetric_difference_order;
use crate::specialized_sets::iterators::union_order;
use crate::specialized_sets::set::SetOps;
use crate::specialized_sets::set::pair_with_unit;
use crate::specialized_sets::set::strip_unit;
use crate::specialized_sets::set_ops::clones_of;
use crate::specialized_sets::set_ops::difference_of;
use crate::specialized_sets::set_ops::intersection_of;
use crate::specialized_sets::set_ops::symmetric_difference_of;
use crate::specialized_sets::set_ops::union_of;
use crate::specialized_sets::set_ops::all_contained;
use crate::specialized_sets::set_ops::all_in;
use crate::specialized_sets::set_ops::is_disjoint;
use crate::specialized_sets::set_ops::is_subset;
use crate::specialized_sets::set_ops::is_superset;
use crate::specialized_sets::set_ops::none_in;
use crate::traits::byte_hasher::ByteHasher;
use crate::traits::byte_hasher::DefaultByteHasher;
use crate::traits::key::Key;
use crate::traits::len::Len;
use crate::traits::slot_index::SlotIndex;
use std::fmt::Debug;
use vstd::prelude::*;
use vstd::std_specs::iter::IteratorSpec;

verus! {

/// A set that hashes left-aligned slices of its values.
///
/// `S` is the integer type of the bucket descriptors: it bounds the number of
/// items that the set can hold.
#[derive(Clone)]
pub struct LeftSliceSet<T, S = u8, BH = DefaultByteHasher> {
    pub map: LeftSliceMap<T, (), S, BH>,
}

impl<T, S, BH> View for LeftSliceSet<T, S, BH> {
    type V = Seq<T>;

    /// The items, in the order in which they are stored and visited.
    open spec fn view(&self) -> Seq<T> {
        keys_of(self.map@)
    }
}

impl<T: Key, S: SlotIndex, BH: ByteHasher> LeftSliceSet<T, S, BH> {
    /// The map behind the set is well formed.
    pub open spec fn wf(&self) -> bool {
        self.map.wf()
    }

    /// Creates a new set which hashes the window `range` of its values with
    /// `bh`. Fails where the payload has more items than `S` can count.
    pub fn from_vec_with_hasher(payload: Vec<T>, range: Range<usize>, bh: BH) -> (r: Result<Self, CapacityExceeded>)
        ensures
            payload@.len() > S::spec_max() ==> r == Err::<Self, CapacityExceeded>(
                CapacityExceeded { len: payload.len(), capacity: S::spec_max() as usize },
            ),
            payload@.len() <= S::spec_max() ==> r is Ok,
            r matches Ok(s) ==> {
                &&& s.wf()
                &&& s.map.bh == bh
                &&& s.map.range == range
                &&& s@.to_multiset() == payload@.to_multiset()
                &&& s@.len() == payload@.len()
            },
    {
        let entries = pair_with_unit(payload);
        match LeftSliceMap::from_vec_with_hasher(entries, range, bh) {
            Ok(map) => {
                proof {
                    lemma_unit_entries_items(map@, payload@);
                }
                Ok(Self { map })
            },
            Err(e) => Err(e),
        }
    }

    /// Creates a new set from an array, which hashes the window `range` of its
    /// values with `bh`. Fails where the array has more items than `S` can
    /// count.
    pub fn with_hasher<const N: usize>(payload: [T; N], range: Range<usize>, bh: BH) -> (r: Result<Self, CapacityExceeded>)
        ensures
            payload@.len() > S::spec_max() ==> r == Err::<Self, CapacityExceeded>(
                CapacityExceeded { len: payload.len(), capacity: S::spec_max() as usize },
            ),
            payload@.len() <= S::spec_max() ==> r is Ok,
            r matches Ok(s) ==> {
                &&& s.wf()
                &&& s.map.bh == bh
                &&& s.map.range == range
                &&& s@.to_multiset() == payload@.to_multiset()
                &&& s@.len() == payload@.len()
            },
    {
        let entries = pair_with_unit(vec_from_array(payload));
        match LeftSliceMap::from_vec_with_hasher(entries, range, bh) {
            Ok(map) => {
                proof {
                    lemma_unit_entries_items(map@, payload@);
                }
                Ok(Self { map })
            },
            Err(e) => Err(e),
        }
    }

    /// Creates a new set from the items that `iter` yields, which hashes the
    /// window `range` of its values with `bh`. Fails where there are more
    /// items than `S` can count.
    pub fn from_iter_with_hasher<I: Iterator<Item = T>>(
        iter: I,
        range: Range<usize>,
        bh: BH,
    ) -> (r: Result<Self, CapacityExceeded>)
        ensures
            r matches Ok(s) ==> s.wf() && s.map.bh == bh && s.map.range == range && s@.len() <= S::spec_max(),
            r matches Err(e) ==> e.len > S::spec_max() && e.capacity == S::spec_max(),
            iter.obeys_prophetic_iter_laws() && iter.will_return_none() ==> {
                &&& r is Ok == (iter.remaining().len() <= S::spec_max())
                &&& r matches Ok(c) ==> c@.to_multiset() == iter.remaining().to_multiset() && c@.len()
                    == iter.remaining().len()
                &&& r matches Err(e) ==> e.len == iter.remaining().len()
            },
    {
        Self::from_vec_with_hasher(vec_from_iter(iter), range, bh)
    }

    /// Returns a reference to the item of the set that is equal to the given
    /// value, if there is one.
    pub fn get(&self, value: &T) -> (r: Option<&T>)
        requires
            self.wf(),
        ensures
            match r {
                Some(t) => find_item(self@, value@) == Some(*t),
                None => find_item(self@, value@) is None,
            },
    {
        proof {
            lemma_items_of_entries(self.map@, value@);
        }
        match self.map.get_key_value(value) {
            Some((item, _)) => Some(item),
            None => None,
        }
    }

    /// Returns `true` if the set contains the value.
    pub fn contains(&self, value: &T) -> (b: bool)
        requires
            self.wf(),
        ensures
            b == has_item(self@, value@),
    {
        self.get(value).is_some()
    }

    /// A cursor over the union with `other`: all the values in `self` or
    /// `other`, those in both only once.
    pub fn union<'a, ST: SetOps<T>>(&'a self, other: &'a ST) -> (r: Union<'a, Self, ST, T>)
        requires
            self.wf(),
            other.valid(),
        ensures
            r.wf(),
            r.remaining() == union_order(self@, other.items()),
    {
        Union::new(self, other)
    }

    /// A cursor over the symmetric difference with `other`: the values that
    /// are in `self` or in `other` but not in both.
    pub fn symmetric_difference<'a, ST: SetOps<T>>(&'a self, other: &'a ST) -> (r:
        SymmetricDifference<'a, Self, ST, T>)
        requires
            self.wf(),
            other.valid(),
        ensures
            r.wf(),
            r.remaining() == symmetric_difference_order(self@, other.items()),
    {
        SymmetricDifference::new(self, other)
    }

    /// A cursor over the difference with `other`: the values that are in
    /// `self` but not in `other`.
    pub fn difference<'a, ST: SetOps<T>>(&'a self, other: &'a ST) -> (r: Difference<
        'a,
        Self,
        ST,
        T,
    >)
        requires
            self.wf(),
            other.valid(),
        ensures
            r.wf(),
            r.remaining() == difference_order(self@, other.items()),
    {
        Difference::new(self, other)
    }

    /// A cursor over the intersection with `other`: the values that are both
    /// in `self` and `other`.
    pub fn intersection<'a, ST: SetOps<T>>(&'a self, other: &'a ST) -> (r: Intersection<
        'a,
        Self,
        ST,
        T,
    >)
        requires
            self.wf(),
            other.valid(),
        ensures
            r.wf(),
            r.remaining() == intersection_order(self@, other.items()),
    {
        Intersection::new(self, other)
    }

    /// Returns whether the two sets are equally long and `other` contains all
    /// the values of `self`.
    pub fn equals<ST: SetOps<T>>(&self, other: &ST) -> (b: bool)
        requires
            self.wf(),
            other.valid(),
        ensures
            b == (self@.len() == other.items().len() && all_in(self@, other.items())),
    {
        proof {
            other.lemma_len();
        }
        if self.len() != other.len() {
            return false;
        }
        all_contained(self, other)
    }

    /// Returns `true` if `self` has no elements in common with `other`.
    pub fn is_disjoint<ST: SetOps<T>>(&self, other: &ST) -> (b: bool)
        requires
            self.wf(),
            other.valid(),
        ensures
            b == none_in(self@, other.items()),
    {
        is_disjoint(self, other)
    }

    /// Returns `true` if `self` is not longer than `other` and `other`
    /// contains all the values of `self`: for sets without repeated values,
    /// if `self` is a subset of `other`.
    pub fn is_subset<ST: SetOps<T>>(&self, other: &ST) -> (b: bool)
        requires
            self.wf(),
            other.valid(),
        ensures
            b == (self@.len() <= other.items().len() && all_in(self@, other.items())),
    {
        is_subset(self, other)
    }

    /// Returns `true` if `other` is not longer than `self` and `self`
    /// contains all the values of `other`: for sets without repeated values,
    /// if `self` is a superset of `other`.
    pub fn is_superset<ST: SetOps<T>>(&self, other: &ST) -> (b: bool)
        requires
            self.wf(),
            other.valid(),
        ensures
            b == (other.items().len() <= self@.len() && all_in(other.items(), self@)),
    {
        is_superset(self, other)
    }

    /// Clones of the values of the union with `other`, as the operator `|`
    /// gives them: all the values in `self` or `other`, those in both only
    /// once.
    pub fn union_vec<ST: SetOps<T>>(&self, other: &ST) -> (r: Vec<T>) where T: Clone
        requires
            self.wf(),
            other.valid(),
        ensures
            clones_of(union_order(self@, other.items()), r@),
    {
        union_of(self, other)
    }

    /// Clones of the values of the intersection with `other`, as the operator
    /// `&` gives them: the values that are both in `self` and `other`.
    pub fn intersection_vec<ST: SetOps<T>>(&self, other: &ST) -> (r: Vec<T>) where T: Clone
        requires
            self.wf(),
            other.valid(),
        ensures
            clones_of(intersection_order(self@, other.items()), r@),
    {
        intersection_of(self, other)
    }

    /// Clones of the values of the symmetric difference with `other`, as the
    /// operator `^` gives them: the values that are in `self` or in `other`
    /// but not in both.
    pub fn symmetric_difference_vec<ST: SetOps<T>>(&self, other: &ST) -> (r: Vec<T>) where
        T: Clone,

        requires
            self.wf(),
            other.valid(),
        ensures
            clones_of(symmetric_difference_order(self@, other.items()), r@),
    {
        symmetric_difference_of(self, other)
    }

    /// Clones of the values of the difference with `other`, as the operator
    /// `-` gives them: the values that are in `self` but not in `other`.
    pub fn difference_vec<ST: SetOps<T>>(&self, other: &ST) -> (r: Vec<T>) where T: Clone
        requires
            self.wf(),
            other.valid(),
        ensures
            clones_of(difference_order(self@, other.items()), r@),
    {
        difference_of(self, other)
    }
}

impl<T, S, BH> LeftSliceSet<T, S, BH> {
    /// Returns the item at `index` in the order of the set, if there is one.
    pub fn get_by_index(&self, index: usize) -> (r: Option<&T>)
        ensures
            index < self@.len() ==> r == Some(&self@[index as int]),
            index >= self@.len() ==> r is None,
    {
        match self.map.get_by_index(index) {
            Some((item, _)) => Some(item),
            None => None,
        }
    }

    /// Takes the set apart and returns its items, in the order of the set.
    pub fn into_vec(self) -> (r: Vec<T>)
        ensures
            r@ == self@,
    {
        strip_unit(self.map.table.entries)
    }

    /// Returns the number of items.
    pub fn len(&self) -> (n: usize)
        ensures
            n == self@.len(),
    {
        self.map.len()
    }

    /// Returns whether the set has no items.
    pub fn is_empty(&self) -> (b: bool)
        ensures
            b == (self@.len() == 0),
    {
        self.map.len() == 0
    }

    /// The items in the form of a map, as the map behind the set shows
    /// itself: each item in its `Debug` form with the unit value behind a
    /// colon, the items separated by commas, all between braces.
    pub fn debug_string(&self) -> (r: String) where T: Debug
        ensures
            is_map_form(r@, self@.len()),
    {
        self.map.debug_string()
    }

    /// A cursor over all items, in the order of the set.
    pub fn iter(&self) -> (r: Iter<'_, T>)
        ensures
            r.remaining() == self@,
    {
        Iter::new(self.map.table.entries.as_slice())
    }

    /// Returns the hasher of this set.
    pub fn hasher(&self) -> (r: &BH)
        ensures
            *r == self.map.bh,
    {
        self.map.hasher()
    }
}

impl<T: Key, S: SlotIndex> LeftSliceSet<T, S, DefaultByteHasher> {
    /// Creates a new set which hashes the window `range` of its values with
    /// the default hasher. Fails where the payload has more items than `S`
    /// can count.
    pub fn from_vec(payload: Vec<T>, range: Range<usize>) -> (r: Result<Self, CapacityExceeded>)
        ensures
            payload@.len() > S::spec_max() ==> r == Err::<Self, CapacityExceeded>(
                CapacityExceeded { len: payload.len(), capacity: S::spec_max() as usize },
            ),
            payload@.len() <= S::spec_max() ==> r is Ok,
            r matches Ok(s) ==> {
                &&& s.wf()
                &&& s.map.range == range
                &&& s@.to_multiset() == payload@.to_multiset()
                &&& s@.len() == payload@.len()
            },
    {
        Self::from_vec_with_hasher(payload, range, DefaultByteHasher::new())
    }

    /// Creates a new set from an array, which hashes the window `range` of its
    /// values with the default hasher. Fails where the array has more items
    /// than `S` can count.
    pub fn from<const N: usize>(payload: [T; N], range: Range<usize>) -> (r: Result<
        Self,
        CapacityExceeded,
    >)
        ensures
            payload@.len() > S::spec_max() ==> r == Err::<Self, CapacityExceeded>(
                CapacityExceeded { len: payload.len(), capacity: S::spec_max() as usize },
            ),
            payload@.len() <= S::spec_max() ==> r is Ok,
            r matches Ok(s) ==> {
                &&& s.wf()
                &&& s.map.range == range
                &&& s@.to_multiset() == payload@.to_multiset()
                &&& s@.len() == payload@.len()
            },
    {
        Self::with_hasher(payload, range, DefaultByteHasher::new())
    }

    /// Creates a new set from the items that `iter` yields, which hashes the
    /// window `range` of its values with the default hasher. Fails where
    /// there are more items than `S` can count.
    pub fn from_iter<I: Iterator<Item = T>>(iter: I, range: Range<usize>) -> (r: Result<
        Self,
        CapacityExceeded,
    >)
        ensures
            r matches Ok(s) ==> s.wf() && s.map.range == range && s@.len() <= S::spec_max(),
            r matches Err(e) ==> e.len > S::spec_max() && e.capacity == S::spec_max(),
            iter.obeys_prophetic_iter_laws() && iter.will_return_none() ==> {
                &&& r is Ok == (iter.remaining().len() <= S::spec_max())
                &&& r matches Ok(c) ==> c@.to_multiset() == iter.remaining().to_multiset() && c@.len()
                    == iter.remaining().len()
                &&& r matches Err(e) ==> e.len == iter.remaining().len()
            },
    {
        Self::from_iter_with_hasher(iter, range, DefaultByteHasher::new())
    }
}

impl<T, S, BH> Len for LeftSliceSet<T, S, BH> {
    open spec fn spec_len(&self) -> nat {
        self@.len()
    }

    fn len(&self) -> (n: usize) {
        LeftSliceSet::len(self)
    }
}

impl<T: Key, S: SlotIndex, BH: ByteHasher> SetOps<T> for LeftSliceSet<T, S, BH> {
    open spec fn items(&self) -> Seq<T> {
        self@
    }

    open spec fn valid(&self) -> bool {
        self.wf()
    }

    fn iter(&self) -> (r: Iter<'_, T>) {
        LeftSliceSet::iter(self)
    }

    fn contains(&self, value: &T) -> (b: bool) {
        LeftSliceSet::contains(self, value)
    }

    proof fn lemma_len(&self) {
    }
}

} // verus!
