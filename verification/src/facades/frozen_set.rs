//! The set that picks its own representation.

use crate::analyzers::int_key_analyzer::IntKeyAnalysisResult;
use crate::analyzers::int_key_analyzer::analyze_int_keys;
use crate::analyzers::int_key_analyzer::is_dense_range;
use crate::analyzers::slice_key_analyzer::SliceKeyAnalysisResult;
use crate::analyzers::slice_key_analyzer::analyze_slice_keys;
use crate::analyzers::slice_key_analyzer::byte_keys;
use crate::analyzers::slice_key_analyzer::key_bytes;
use crate::analyzers::slice_key_analyzer::slice_choice;
use crate::casts::u8_as_usize;
use crate::collect::vec_from_array;
use crate::collect::vec_from_iter;
use crate::facades::frozen_map::Representation;
use crate::facades::frozen_map::chosen_representation;
use crate::facades::frozen_map::slice_representation;
use crate::model::find_item;
use crate::model::has_item;
use crate::model::keys_of;
use crate::model::lemma_unit_entries_items;
use crate::model::unit_entries;
use crate::specialized_maps::common_map::CommonMap;
use crate::specialized_maps::debug::is_list_form;
use crate::specialized_maps::debug::is_map_form;
use crate::specialized_maps::integer_map::IntegerMap;
use crate::specialized_maps::integer_range_map::IntegerRangeMap;
use crate::specialized_maps::integer_range_map::int_values;
use crate::specialized_maps::integer_range_map::key_values;
use crate::specialized_maps::left_slice_map::LeftSliceMap;
use crate::specialized_maps::length_map::LengthMap;
use crate::specialized_maps::right_slice_map::RightSliceMap;
use crate::specialized_sets::common_set::CommonSet;
use crate::specialized_sets::integer_range_set::IntegerRangeSet;
use crate::specialized_sets::integer_set::IntegerSet;
use crate::specialized_sets::iterators::Difference;
use crate::specialized_sets::iterators::Intersection;
use crate::specialized_sets::iterators::Iter;
use crate::specialized_sets::iterators::SymmetricDifference;
use crate::specialized_sets::iterators::Union;
use crate::specialized_sets::iterators::difference_order;
use crate::specialized_sets::iterators::intersection_order;
use crate::specialized_sets::iterators::symmetric_difference_order;
use crate::specialized_sets::iterators::union_order;
use crate::specialized_sets::left_slice_set::LeftSliceSet;
use crate::specialized_sets::length_set::LengthSet;
use crate::specialized_sets::right_slice_set::RightSliceSet;
use crate::specialized_sets::scanning_set::ScanningSet;
use crate::specialized_sets::set::SetOps;
use crate::specialized_sets::set::pair_with_unit;
use crate::specialized_sets::set_ops::clones_of;
use crate::specialized_sets::set_ops::difference_of;
use crate::specialized_sets::set_ops::intersection_of;
use crate::specialized_sets::set_ops::symmetric_difference_of;
use crate::specialized_sets::set_ops::union_of;
use crate::specialized_sets::set_ops::all_contained;
use crate::specialized_sets::set_ops::all_in;
use crate::specialized_sets::set_ops::is_disjoint;
use crate::specialized_sets::set_ops::is_subset;
use crate::specialized_sets::set_ops::is_superset;
use crate::specialized_sets::set_ops::none_in;
use crate::traits::byte_hasher::ByteHasher;
use crate::traits::byte_hasher::DefaultByteHasher;
use crate::traits::key::Key;
use crate::traits::key::KeyCategory;
use crate::traits::len::Len;
use std::fmt::Debug;
use vstd::prelude::*;
use vstd::std_specs::iter::IteratorSpec;

verus! {

/// The different implementations available for use, depending on the type and
/// content of the payload.
#[derive(Clone)]
pub enum SetTypes<T, BH> {
    Scanning(ScanningSet<T>),
    CommonSmall(CommonSet<T, u8, BH>),
    CommonLarge(CommonSet<T, usize, BH>),
    IntegerSmall(IntegerSet<T, u8>),
    IntegerLarge(IntegerSet<T, usize>),
    IntegerRange(IntegerRangeSet<T>),
    LeftSliceSmall(LeftSliceSet<T, u8, BH>),
    LeftSliceLarge(LeftSliceSet<T, usize, BH>),
    RightSliceSmall(RightSliceSet<T, u8, BH>),
    RightSliceLarge(RightSliceSet<T, usize, BH>),
    LengthSmall(LengthSet<T, u8>),
    LengthLarge(LengthSet<T, usize>),
}

impl<T, BH> SetTypes<T, BH> {
    /// The items of the implementation in use.
    pub open spec fn items(&self) -> Seq<T> {
        match self {
            SetTypes::Scanning(s) => s@,
            SetTypes::CommonSmall(s) => s@,
            SetTypes::CommonLarge(s) => s@,
            SetTypes::IntegerSmall(s) => s@,
            SetTypes::IntegerLarge(s) => s@,
            SetTypes::IntegerRange(s) => s@,
            SetTypes::LeftSliceSmall(s) => s@,
            SetTypes::LeftSliceLarge(s) => s@,
            SetTypes::RightSliceSmall(s) => s@,
            SetTypes::RightSliceLarge(s) => s@,
            SetTypes::LengthSmall(s) => s@,
            SetTypes::LengthLarge(s) => s@,
        }
    }
}

impl<T: Key, BH: ByteHasher> SetTypes<T, BH> {
    /// The implementation in use is well formed.
    pub open spec fn wf(&self) -> bool {
        match self {
            SetTypes::Scanning(s) => s.wf(),
            SetTypes::CommonSmall(s) => s.wf(),
            SetTypes::CommonLarge(s) => s.wf(),
            SetTypes::IntegerSmall(s) => s.wf(),
            SetTypes::IntegerLarge(s) => s.wf(),
            SetTypes::IntegerRange(s) => s.wf(),
            SetTypes::LeftSliceSmall(s) => s.wf(),
            SetTypes::LeftSliceLarge(s) => s.wf(),
            SetTypes::RightSliceSmall(s) => s.wf(),
            SetTypes::RightSliceLarge(s) => s.wf(),
            SetTypes::LengthSmall(s) => s.wf(),
            SetTypes::LengthLarge(s) => s.wf(),
        }
    }

    /// The representation of the implementation in use.
    pub open spec fn representation(&self) -> Representation {
        match self {
            SetTypes::Scanning(s) => Representation::Scanning,
            SetTypes::CommonSmall(s) => Representation::Common,
            SetTypes::CommonLarge(s) => Representation::Common,
            SetTypes::IntegerSmall(s) => Representation::Integer,
            SetTypes::IntegerLarge(s) => Representation::Integer,
            SetTypes::IntegerRange(s) => Representation::IntegerRange,
            SetTypes::LeftSliceSmall(s) => Representation::LeftSlice {
                subslice_index: s.map.range.start,
                subslice_len: (s.map.range.end - s.map.range.start) as usize,
            },
            SetTypes::LeftSliceLarge(s) => Representation::LeftSlice {
                subslice_index: s.map.range.start,
                subslice_len: (s.map.range.end - s.map.range.start) as usize,
            },
            SetTypes::RightSliceSmall(s) => Representation::RightSlice {
                subslice_index: s.map.range.start,
                subslice_len: (s.map.range.end - s.map.range.start) as usize,
            },
            SetTypes::RightSliceLarge(s) => Representation::RightSlice {
                subslice_index: s.map.range.start,
                subslice_len: (s.map.range.end - s.map.range.start) as usize,
            },
            SetTypes::LengthSmall(s) => Representation::Length,
            SetTypes::LengthLarge(s) => Representation::Length,
        }
    }

    /// The implementation in use was given a window that ends behind its
    /// beginning, where it has a window.
    pub open spec fn window_ordered(&self) -> bool {
        match self {
            SetTypes::LeftSliceSmall(s) => s.map.range.start <= s.map.range.end,
            SetTypes::LeftSliceLarge(s) => s.map.range.start <= s.map.range.end,
            SetTypes::RightSliceSmall(s) => s.map.range.start <= s.map.range.end,
            SetTypes::RightSliceLarge(s) => s.map.range.start <= s.map.range.end,
            _ => true,
        }
    }
}

/// A set optimized for fast read access.
///
/// Creating a frozen set takes longer than creating an ordinary hash set:
/// the values are analyzed to find the representation that answers lookups
/// fastest. Once created, a frozen set cannot change.
#[derive(Clone)]
pub struct FrozenSet<T, BH = DefaultByteHasher> {
    set_impl: SetTypes<T, BH>,
}

impl<T, BH> View for FrozenSet<T, BH> {
    type V = Seq<T>;

    /// The items, in the order in which they are stored and visited.
    open spec fn view(&self) -> Seq<T> {
        self.stored()
    }
}

impl<T: Key, BH: ByteHasher> FrozenSet<T, BH> {
    /// The set is laid out as its representation asks.
    pub closed spec fn wf(&self) -> bool {
        self.set_impl.wf() && self.set_impl.window_ordered()
    }

    /// The representation of the set.
    pub closed spec fn representation_spec(&self) -> Representation {
        self.set_impl.representation()
    }

    /// Creates a new frozen set which will use the given hasher to hash
    /// values.
    pub fn from_vec_with_hasher(payload: Vec<T>, bh: BH) -> (r: Self)
        ensures
            r.wf(),
            r@.to_multiset() == payload@.to_multiset(),
            r@.len() == payload@.len(),
            payload@.len() < 4 ==> r@ == payload@,
            r.representation_spec() == chosen_representation(unit_entries(payload@)),
    {
        Self::new(payload, bh)
    }

    /// Creates a new frozen set from an array, which will use the given hasher
    /// to hash values.
    pub fn with_hasher<const N: usize>(payload: [T; N], bh: BH) -> (r: Self)
        ensures
            r.wf(),
            r@.to_multiset() == payload@.to_multiset(),
            r@.len() == payload@.len(),
            payload@.len() < 4 ==> r@ == payload@,
            r.representation_spec() == chosen_representation(unit_entries(payload@)),
    {
        Self::new(vec_from_array(payload), bh)
    }

    /// Creates a new frozen set from the items that `iter` yields, which will
    /// use the given hasher to hash values.
    pub fn from_iter_with_hasher<U: Iterator<Item = T>>(iter: U, bh: BH) -> (r: Self)
        ensures
            r.wf(),
            iter.obeys_prophetic_iter_laws() && iter.will_return_none() ==> {
                &&& r@.to_multiset() == iter.remaining().to_multiset()
                &&& r@.len() == iter.remaining().len()
                &&& iter.remaining().len() < 4 ==> r@ == iter.remaining()
                &&& r.representation_spec() == chosen_representation(unit_entries(iter.remaining()))
            },
    {
        Self::new(vec_from_iter(iter), bh)
    }

    /// Chooses the representation for `payload` and builds it.
    pub fn new(payload: Vec<T>, bh: BH) -> (r: Self)
        ensures
            r.wf(),
            r@.to_multiset() == payload@.to_multiset(),
            r@.len() == payload@.len(),
            payload@.len() < 4 ==> r@ == payload@,
            r.representation_spec() == chosen_representation(unit_entries(payload@)),
    {
        let r = FrozenSet {
            set_impl: if payload.len() < 4 {
                SetTypes::Scanning(ScanningSet::from_vec(payload))
            } else {
                let entries = pair_with_unit(payload);
                match T::category() {
                    KeyCategory::Integer => Self::new_integer_set(entries),
                    KeyCategory::ByteSlice => Self::new_slice_set(entries, bh),
                    KeyCategory::Opaque => Self::new_common_set(entries, bh),
                }
            },
        };
        proof {
            if payload@.len() >= 4 {
                lemma_unit_entries_items(unit_entries(r@), payload@);
                assert(keys_of(unit_entries(r@)) =~= r@);
            }
        }
        r
    }

    /// Builds the representation for integers: indexed where they fill a
    /// range, hashed by the integer itself otherwise.
    pub fn new_integer_set(payload: Vec<(T, ())>) -> (r: SetTypes<T, BH>)
        requires
            T::category_spec() == KeyCategory::Integer,
        ensures
            r.wf(),
            r.window_ordered(),
            unit_entries(r.items()).to_multiset() == payload@.to_multiset(),
            r.representation() == (if is_dense_range(key_values(payload@)) {
                Representation::IntegerRange
            } else {
                Representation::Integer
            }),
    {
        let keys = int_values(&payload);
        let key_analysis = analyze_int_keys(keys.as_slice());
        let r = match key_analysis {
            IntKeyAnalysisResult::Range => {
                proof {
                    assert forall|i: int| 0 <= i < payload@.len() implies T::shape(
                        (#[trigger] payload@[i]).0@,
                    ) is Integer by {
                        T::lemma_shape(payload@[i].0@, payload@[i].0@);
                    }
                }
                SetTypes::IntegerRange(IntegerRangeSet { map: IntegerRangeMap::from_vec(payload) })
            },
            IntKeyAnalysisResult::Normal => {
                if payload.len() <= u8_as_usize(u8::MAX) {
                    SetTypes::IntegerSmall(IntegerSet { map: IntegerMap::from_vec(payload).unwrap() })
                } else {
                    SetTypes::IntegerLarge(IntegerSet { map: IntegerMap::from_vec(payload).unwrap() })
                }
            },
        };
        proof {
            lemma_same_entries(r, payload@);
        }
        r
    }

    /// Builds the representation for byte strings: hashed by length, by the
    /// window that the analysis found, or as a whole.
    pub fn new_slice_set(payload: Vec<(T, ())>, bh: BH) -> (r: SetTypes<T, BH>)
        ensures
            r.wf(),
            r.window_ordered(),
            unit_entries(r.items()).to_multiset() == payload@.to_multiset(),
            r.representation() == slice_representation(slice_choice(key_bytes(payload@))),
    {
        let keys = byte_keys(&payload);
        let key_analysis = analyze_slice_keys(&keys, &bh);
        let r = if payload.len() <= u8_as_usize(u8::MAX) {
            match key_analysis {
                SliceKeyAnalysisResult::Normal => {
                    SetTypes::CommonSmall(CommonSet { map: CommonMap::from_vec_with_hasher(payload, bh).unwrap() })
                },
                SliceKeyAnalysisResult::LeftHandSubslice { subslice_index, subslice_len } => {
                    SetTypes::LeftSliceSmall(
                        LeftSliceSet {
                            map: LeftSliceMap::from_vec_with_hasher(
                                payload,
                                subslice_index..subslice_index + subslice_len,
                                bh,
                            ).unwrap(),
                        },
                    )
                },
                SliceKeyAnalysisResult::RightHandSubslice { subslice_index, subslice_len } => {
                    SetTypes::RightSliceSmall(
                        RightSliceSet {
                            map: RightSliceMap::from_vec_with_hasher(
                                payload,
                                subslice_index..subslice_index + subslice_len,
                                bh,
                            ).unwrap(),
                        },
                    )
                },
                SliceKeyAnalysisResult::Length => {
                    SetTypes::LengthSmall(LengthSet { map: LengthMap::from_vec(payload).unwrap() })
                },
            }
        } else {
            match key_analysis {
                SliceKeyAnalysisResult::Normal => {
                    SetTypes::CommonLarge(
                        CommonSet { map: CommonMap::from_vec_with_hasher(payload, bh).unwrap() },
                    )
                },
                SliceKeyAnalysisResult::Length => {
                    SetTypes::LengthLarge(LengthSet { map: LengthMap::from_vec(payload).unwrap() })
                },
                SliceKeyAnalysisResult::LeftHandSubslice { subslice_index, subslice_len } => {
                    SetTypes::LeftSliceLarge(
                        LeftSliceSet {
                            map: LeftSliceMap::from_vec_with_hasher(
                                payload,
                                subslice_index..subslice_index + subslice_len,
                                bh,
                            ).unwrap(),
                        },
                    )
                },
                SliceKeyAnalysisResult::RightHandSubslice { subslice_index, subslice_len } => {
                    SetTypes::RightSliceLarge(
                        RightSliceSet {
                            map: RightSliceMap::from_vec_with_hasher(
                                payload,
                                subslice_index..subslice_index + subslice_len,
                                bh,
                            ).unwrap(),
                        },
                    )
                },
            }
        };
        proof {
            lemma_same_entries(r, payload@);
        }
        r
    }

    /// Builds the representation for values of no special kind.
    pub fn new_common_set(payload: Vec<(T, ())>, bh: BH) -> (r: SetTypes<T, BH>)
        ensures
            r.wf(),
            r.window_ordered(),
            unit_entries(r.items()).to_multiset() == payload@.to_multiset(),
            r.representation() == Representation::Common,
    {
        let r = if payload.len() <= u8_as_usize(u8::MAX) {
            SetTypes::CommonSmall(CommonSet { map: CommonMap::from_vec_with_hasher(payload, bh).unwrap() })
        } else {
            SetTypes::CommonLarge(CommonSet { map: CommonMap::from_vec_with_hasher(payload, bh).unwrap() })
        };
        proof {
            lemma_same_entries(r, payload@);
        }
        r
    }

    /// The sets that show themselves as a list are those of the
    /// general-purpose representation.
    pub proof fn lemma_shown_as_list(&self)
        ensures
            self.shown_as_list() == (self.representation_spec() == Representation::Common),
    {
    }

    /// Returns the representation that the set chose.
    pub fn representation(&self) -> (r: Representation)
        requires
            self.wf(),
        ensures
            r == self.representation_spec(),
    {
        match &self.set_impl {
            SetTypes::Scanning(s) => Representation::Scanning,
            SetTypes::CommonSmall(s) => Representation::Common,
            SetTypes::CommonLarge(s) => Representation::Common,
            SetTypes::IntegerSmall(s) => Representation::Integer,
            SetTypes::IntegerLarge(s) => Representation::Integer,
            SetTypes::IntegerRange(s) => Representation::IntegerRange,
            SetTypes::LeftSliceSmall(s) => Representation::LeftSlice {
                subslice_index: s.map.range.start,
                subslice_len: s.map.range.end - s.map.range.start,
            },
            SetTypes::LeftSliceLarge(s) => Representation::LeftSlice {
                subslice_index: s.map.range.start,
                subslice_len: s.map.range.end - s.map.range.start,
            },
            SetTypes::RightSliceSmall(s) => Representation::RightSlice {
                subslice_index: s.map.range.start,
                subslice_len: s.map.range.end - s.map.range.start,
            },
            SetTypes::RightSliceLarge(s) => Representation::RightSlice {
                subslice_index: s.map.range.start,
                subslice_len: s.map.range.end - s.map.range.start,
            },
            SetTypes::LengthSmall(s) => Representation::Length,
            SetTypes::LengthLarge(s) => Representation::Length,
        }
    }

    /// Returns `true` if the set contains a value.
    pub fn contains(&self, value: &T) -> (b: bool)
        requires
            self.wf(),
        ensures
            b == has_item(self@, value@),
    {
        match &self.set_impl {
            SetTypes::Scanning(s) => s.contains(value),
            SetTypes::CommonSmall(s) => s.contains(value),
            SetTypes::CommonLarge(s) => s.contains(value),
            SetTypes::IntegerSmall(s) => s.contains(value),
            SetTypes::IntegerLarge(s) => s.contains(value),
            SetTypes::IntegerRange(s) => s.contains(value),
            SetTypes::LeftSliceSmall(s) => s.contains(value),
            SetTypes::LeftSliceLarge(s) => s.contains(value),
            SetTypes::RightSliceSmall(s) => s.contains(value),
            SetTypes::RightSliceLarge(s) => s.contains(value),
            SetTypes::LengthSmall(s) => s.contains(value),
            SetTypes::LengthLarge(s) => s.contains(value),
        }
    }

    /// A cursor over the union with `other`: all the values in `self` or
    /// `other`, those in both only once.
    pub fn union<'a, ST: SetOps<T>>(&'a self, other: &'a ST) -> (r: Union<'a, Self, ST, T>)
        requires
            self.wf(),
            other.valid(),
        ensures
            r.wf(),
            r.remaining() == union_order(self@, other.items()),
    {
        Union::new(self, other)
    }

    /// A cursor over the symmetric difference with `other`: the values that
    /// are in `self` or in `other` but not in both.
    pub fn symmetric_difference<'a, ST: SetOps<T>>(&'a self, other: &'a ST) -> (r:
        SymmetricDifference<'a, Self, ST, T>)
        requires
            self.wf(),
            other.valid(),
        ensures
            r.wf(),
            r.remaining() == symmetric_difference_order(self@, other.items()),
    {
        SymmetricDifference::new(self, other)
    }

    /// A cursor over the difference with `other`: the values that are in
    /// `self` but not in `other`.
    pub fn difference<'a, ST: SetOps<T>>(&'a self, other: &'a ST) -> (r: Difference<
        'a,
        Self,
        ST,
        T,
    >)
        requires
            self.wf(),
            other.valid(),
        ensures
            r.wf(),
            r.remaining() == difference_order(self@, other.items()),
    {
        Difference::new(self, other)
    }

    /// A cursor over the intersection with `other`: the values that are both
    /// in `self` and `other`.
    pub fn intersection<'a, ST: SetOps<T>>(&'a self, other: &'a ST) -> (r: Intersection<
        'a,
        Self,
        ST,
        T,
    >)
        requires
            self.wf(),
            other.valid(),
        ensures
            r.wf(),
            r.remaining() == intersection_order(self@, other.items()),
    {
        Intersection::new(self, other)
    }

    /// Returns whether the two sets are equally long and `other` contains all
    /// the values of `self`.
    pub fn equals<ST: SetOps<T>>(&self, other: &ST) -> (b: bool)
        requires
            self.wf(),
            other.valid(),
        ensures
            b == (self@.len() == other.items().len() && all_in(self@, other.items())),
    {
        proof {
            other.lemma_len();
        }
        if self.len() != other.len() {
            return false;
        }
        all_contained(self, other)
    }

    /// Returns `true` if `self` has no elements in common with `other`.
    pub fn is_disjoint<ST: SetOps<T>>(&self, other: &ST) -> (b: bool)
        requires
            self.wf(),
            other.valid(),
        ensures
            b == none_in(self@, other.items()),
    {
        is_disjoint(self, other)
    }

    /// Returns `true` if `self` is not longer than `other` and `other`
    /// contains all the values of `self`: for sets without repeated values,
    /// if `self` is a subset of `other`.
    pub fn is_subset<ST: SetOps<T>>(&self, other: &ST) -> (b: bool)
        requires
            self.wf(),
            other.valid(),
        ensures
            b == (self@.len() <= other.items().len() && all_in(self@, other.items())),
    {
        is_subset(self, other)
    }

    /// Returns `true` if `other` is not longer than `self` and `self`
    /// contains all the values of `other`: for sets without repeated values,
    /// if `self` is a superset of `other`.
    pub fn is_superset<ST: SetOps<T>>(&self, other: &ST) -> (b: bool)
        requires
            self.wf(),
            other.valid(),
        ensures
            b == (other.items().len() <= self@.len() && all_in(other.items(), self@)),
    {
        is_superset(self, other)
    }

    /// Clones of the values of the union with `other`, as the operator `|`
    /// gives them: all the values in `self` or `other`, those in both only
    /// once.
    pub fn union_vec<ST: SetOps<T>>(&self, other: &ST) -> (r: Vec<T>) where T: Clone
        requires
            self.wf(),
            other.valid(),
        ensures
            clones_of(union_order(self@, other.items()), r@),
    {
        union_of(self, other)
    }

    /// Clones of the values of the intersection with `other`, as the operator
    /// `&` gives them: the values that are both in `self` and `other`.
    pub fn intersection_vec<ST: SetOps<T>>(&self, other: &ST) -> (r: Vec<T>) where T: Clone
        requires
            self.wf(),
            other.valid(),
        ensures
            clones_of(intersection_order(self@, other.items()), r@),
    {
        intersection_of(self, other)
    }

    /// Clones of the values of the symmetric difference with `other`, as the
    /// operator `^` gives them: the values that are in `self` or in `other`
    /// but not in both.
    pub fn symmetric_difference_vec<ST: SetOps<T>>(&self, other: &ST) -> (r: Vec<T>) where
        T: Clone,

        requires
            self.wf(),
            other.valid(),
        ensures
            clones_of(symmetric_difference_order(self@, other.items()), r@),
    {
        symmetric_difference_of(self, other)
    }

    /// Clones of the values of the difference with `other`, as the operator
    /// `-` gives them: the values that are in `self` but not in `other`.
    pub fn difference_vec<ST: SetOps<T>>(&self, other: &ST) -> (r: Vec<T>) where T: Clone
        requires
            self.wf(),
            other.valid(),
        ensures
            clones_of(difference_order(self@, other.items()), r@),
    {
        difference_of(self, other)
    }

    /// Returns a reference to the value in the set, if any, that is equal to
    /// the given value.
    pub fn get(&self, value: &T) -> (r: Option<&T>)
        requires
            self.wf(),
        ensures
            match r {
                Some(t) => find_item(self@, value@) == Some(*t),
                None => find_item(self@, value@) is None,
            },
    {
        match &self.set_impl {
            SetTypes::Scanning(s) => s.get(value),
            SetTypes::CommonSmall(s) => s.get(value),
            SetTypes::CommonLarge(s) => s.get(value),
            SetTypes::IntegerSmall(s) => s.get(value),
            SetTypes::IntegerLarge(s) => s.get(value),
            SetTypes::IntegerRange(s) => s.get(value),
            SetTypes::LeftSliceSmall(s) => s.get(value),
            SetTypes::LeftSliceLarge(s) => s.get(value),
            SetTypes::RightSliceSmall(s) => s.get(value),
            SetTypes::RightSliceLarge(s) => s.get(value),
            SetTypes::LengthSmall(s) => s.get(value),
            SetTypes::LengthLarge(s) => s.get(value),
        }
    }
}

/// The entries of the map behind an implementation are the items of the
/// implementation, each with the unit value.
proof fn lemma_same_entries<T: Key, BH: ByteHasher>(r: SetTypes<T, BH>, payload: Seq<(T, ())>)
    requires
        match r {
            SetTypes::Scanning(s) => s.map@.to_multiset() == payload.to_multiset(),
            SetTypes::CommonSmall(s) => s.map@.to_multiset() == payload.to_multiset(),
            SetTypes::CommonLarge(s) => s.map@.to_multiset() == payload.to_multiset(),
            SetTypes::IntegerSmall(s) => s.map@.to_multiset() == payload.to_multiset(),
            SetTypes::IntegerLarge(s) => s.map@.to_multiset() == payload.to_multiset(),
            SetTypes::IntegerRange(s) => s.map@.to_multiset() == payload.to_multiset(),
            SetTypes::LeftSliceSmall(s) => s.map@.to_multiset() == payload.to_multiset(),
            SetTypes::LeftSliceLarge(s) => s.map@.to_multiset() == payload.to_multiset(),
            SetTypes::RightSliceSmall(s) => s.map@.to_multiset() == payload.to_multiset(),
            SetTypes::RightSliceLarge(s) => s.map@.to_multiset() == payload.to_multiset(),
            SetTypes::LengthSmall(s) => s.map@.to_multiset() == payload.to_multiset(),
            SetTypes::LengthLarge(s) => s.map@.to_multiset() == payload.to_multiset(),
        },
    ensures
        unit_entries(r.items()).to_multiset() == payload.to_multiset(),
{
    let entries = match r {
        SetTypes::Scanning(s) => s.map@,
        SetTypes::CommonSmall(s) => s.map@,
        SetTypes::CommonLarge(s) => s.map@,
        SetTypes::IntegerSmall(s) => s.map@,
        SetTypes::IntegerLarge(s) => s.map@,
        SetTypes::IntegerRange(s) => s.map@,
        SetTypes::LeftSliceSmall(s) => s.map@,
        SetTypes::LeftSliceLarge(s) => s.map@,
        SetTypes::RightSliceSmall(s) => s.map@,
        SetTypes::RightSliceLarge(s) => s.map@,
        SetTypes::LengthSmall(s) => s.map@,
        SetTypes::LengthLarge(s) => s.map@,
    };
    assert forall|i: int| 0 <= i < entries.len() implies #[trigger] entries[i] == unit_entries(
        keys_of(entries),
    )[i] by {
        let u: () = entries[i].1;
        assert(u == ());
        assert(entries[i] =~= (entries[i].0, ()));
    }
    assert(entries =~= unit_entries(keys_of(entries)));
}

impl<T, BH> FrozenSet<T, BH> {
    /// The items, in the order in which they are stored and visited.
    pub closed spec fn stored(&self) -> Seq<T> {
        self.set_impl.items()
    }

    /// The items in their `Debug` form, as the set that was chosen shows
    /// itself: the general-purpose set as a list between square brackets, the
    /// others as a map from each item to the unit value, between braces.
    pub fn debug_string(&self) -> (r: String) where T: Debug
        ensures
            self.shown_as_list() ==> is_list_form(r@, self@.len()),
            !self.shown_as_list() ==> is_map_form(r@, self@.len()),
    {
        match &self.set_impl {
            SetTypes::Scanning(s) => s.debug_string(),
            SetTypes::CommonSmall(s) => s.debug_string(),
            SetTypes::CommonLarge(s) => s.debug_string(),
            SetTypes::IntegerSmall(s) => s.debug_string(),
            SetTypes::IntegerLarge(s) => s.debug_string(),
            SetTypes::IntegerRange(s) => s.debug_string(),
            SetTypes::LeftSliceSmall(s) => s.debug_string(),
            SetTypes::LeftSliceLarge(s) => s.debug_string(),
            SetTypes::RightSliceSmall(s) => s.debug_string(),
            SetTypes::RightSliceLarge(s) => s.debug_string(),
            SetTypes::LengthSmall(s) => s.debug_string(),
            SetTypes::LengthLarge(s) => s.debug_string(),
        }
    }

    /// The set shows itself as a list in its `Debug` form: it does where it
    /// chose the general-purpose representation.
    pub closed spec fn shown_as_list(&self) -> bool {
        self.set_impl is CommonSmall || self.set_impl is CommonLarge
    }

    /// Takes the set apart and returns its items, in the order of the set.
    pub fn into_vec(self) -> (r: Vec<T>)
        ensures
            r@ == self@,
    {
        match self.set_impl {
            SetTypes::Scanning(s) => s.into_vec(),
            SetTypes::CommonSmall(s) => s.into_vec(),
            SetTypes::CommonLarge(s) => s.into_vec(),
            SetTypes::IntegerSmall(s) => s.into_vec(),
            SetTypes::IntegerLarge(s) => s.into_vec(),
            SetTypes::IntegerRange(s) => s.into_vec(),
            SetTypes::LeftSliceSmall(s) => s.into_vec(),
            SetTypes::LeftSliceLarge(s) => s.into_vec(),
            SetTypes::RightSliceSmall(s) => s.into_vec(),
            SetTypes::RightSliceLarge(s) => s.into_vec(),
            SetTypes::LengthSmall(s) => s.into_vec(),
            SetTypes::LengthLarge(s) => s.into_vec(),
        }
    }

    /// Returns the number of elements in the set.
    pub fn len(&self) -> (n: usize)
        ensures
            n == self@.len(),
    {
        match &self.set_impl {
            SetTypes::Scanning(s) => s.len(),
            SetTypes::CommonSmall(s) => s.len(),
            SetTypes::CommonLarge(s) => s.len(),
            SetTypes::IntegerSmall(s) => s.len(),
            SetTypes::IntegerLarge(s) => s.len(),
            SetTypes::IntegerRange(s) => s.len(),
            SetTypes::LeftSliceSmall(s) => s.len(),
            SetTypes::LeftSliceLarge(s) => s.len(),
            SetTypes::RightSliceSmall(s) => s.len(),
            SetTypes::RightSliceLarge(s) => s.len(),
            SetTypes::LengthSmall(s) => s.len(),
            SetTypes::LengthLarge(s) => s.len(),
        }
    }

    /// Returns `true` if the set contains no elements.
    pub fn is_empty(&self) -> (b: bool)
        ensures
            b == (self@.len() == 0),
    {
        self.len() == 0
    }

    /// A cursor visiting all elements, in the order of the set.
    pub fn iter(&self) -> (r: Iter<'_, T>)
        ensures
            r.remaining() == self@,
    {
        match &self.set_impl {
            SetTypes::Scanning(s) => s.iter(),
            SetTypes::CommonSmall(s) => s.iter(),
            SetTypes::CommonLarge(s) => s.iter(),
            SetTypes::IntegerSmall(s) => s.iter(),
            SetTypes::IntegerLarge(s) => s.iter(),
            SetTypes::IntegerRange(s) => s.iter(),
            SetTypes::LeftSliceSmall(s) => s.iter(),
            SetTypes::LeftSliceLarge(s) => s.iter(),
            SetTypes::RightSliceSmall(s) => s.iter(),
            SetTypes::RightSliceLarge(s) => s.iter(),
            SetTypes::LengthSmall(s) => s.iter(),
            SetTypes::LengthLarge(s) => s.iter(),
        }
    }

    /// Returns the item at `index` in the order of the set, if there is one.
    pub fn get_by_index(&self, index: usize) -> (r: Option<&T>)
        ensures
            index < self@.len() ==> r == Some(&self@[index as int]),
            index >= self@.len() ==> r is None,
    {
        match &self.set_impl {
            SetTypes::Scanning(s) => s.get_by_index(index),
            SetTypes::CommonSmall(s) => s.get_by_index(index),
            SetTypes::CommonLarge(s) => s.get_by_index(index),
            SetTypes::IntegerSmall(s) => s.get_by_index(index),
            SetTypes::IntegerLarge(s) => s.get_by_index(index),
            SetTypes::IntegerRange(s) => s.get_by_index(index),
            SetTypes::LeftSliceSmall(s) => s.get_by_index(index),
            SetTypes::LeftSliceLarge(s) => s.get_by_index(index),
            SetTypes::RightSliceSmall(s) => s.get_by_index(index),
            SetTypes::RightSliceLarge(s) => s.get_by_index(index),
            SetTypes::LengthSmall(s) => s.get_by_index(index),
            SetTypes::LengthLarge(s) => s.get_by_index(index),
        }
    }
}

impl<T: Key> FrozenSet<T, DefaultByteHasher> {
    /// Creates a new frozen set with the default hasher.
    pub fn from_vec(payload: Vec<T>) -> (r: Self)
        ensures
            r.wf(),
            r@.to_multiset() == payload@.to_multiset(),
            r@.len() == payload@.len(),
            payload@.len() < 4 ==> r@ == payload@,
            r.representation_spec() == chosen_representation(unit_entries(payload@)),
    {
        Self::new(payload, DefaultByteHasher::new())
    }

    /// Creates a new frozen set from an array, with the default hasher.
    pub fn from<const N: usize>(payload: [T; N]) -> (r: Self)
        ensures
            r.wf(),
            r@.to_multiset() == payload@.to_multiset(),
            r@.len() == payload@.len(),
            payload@.len() < 4 ==> r@ == payload@,
            r.representation_spec() == chosen_representation(unit_entries(payload@)),
    {
        Self::with_hasher(payload, DefaultByteHasher::new())
    }

    /// Creates a new frozen set from the items that `iter` yields, with the
    /// default hasher.
    pub fn from_iter<U: Iterator<Item = T>>(iter: U) -> (r: Self)
        ensures
            r.wf(),
            iter.obeys_prophetic_iter_laws() && iter.will_return_none() ==> {
                &&& r@.to_multiset() == iter.remaining().to_multiset()
                &&& r@.len() == iter.remaining().len()
                &&& iter.remaining().len() < 4 ==> r@ == iter.remaining()
                &&& r.representation_spec() == chosen_representation(unit_entries(iter.remaining()))
            },
    {
        Self::from_iter_with_hasher(iter, DefaultByteHasher::new())
    }
}

impl<T: Key, BH: ByteHasher> Default for FrozenSet<T, BH> {
    /// The set without items.
    fn default() -> (r: Self)
        ensures
            r.wf(),
            r@ == Seq::<T>::empty(),
            r.representation_spec() == Representation::Scanning,
    {
        FrozenSet { set_impl: SetTypes::Scanning(ScanningSet::from_vec(Vec::new())) }
    }
}

impl<T, BH> Len for FrozenSet<T, BH> {
    open spec fn spec_len(&self) -> nat {
        self@.len()
    }

    fn len(&self) -> (n: usize) {
        FrozenSet::len(self)
    }
}

impl<T: Key, BH: ByteHasher> SetOps<T> for FrozenSet<T, BH> {
    open spec fn items(&self) -> Seq<T> {
        self@
    }

    open spec fn valid(&self) -> bool {
        self.wf()
    }

    fn iter(&self) -> (r: Iter<'_, T>) {
        FrozenSet::iter(self)
    }

    fn contains(&self, value: &T) -> (b: bool) {
        FrozenSet::contains(self, value)
    }

    proof fn lemma_len(&self) {
    }
}

} // verus!
