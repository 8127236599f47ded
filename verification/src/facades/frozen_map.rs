//! The map that picks its own representation.

use crate::analyzers::int_key_analyzer::IntKeyAnalysisResult;
use crate::analyzers::int_key_analyzer::analyze_int_keys;
use crate::analyzers::int_key_analyzer::is_dense_range;
use crate::analyzers::slice_key_analyzer::SliceKeyAnalysisResult;
use crate::analyzers::slice_key_analyzer::analyze_slice_keys;
use crate::analyzers::slice_key_analyzer::byte_keys;
use crate::analyzers::slice_key_analyzer::key_bytes;
use crate::analyzers::slice_key_analyzer::slice_choice;
use crate::casts::u8_as_usize;
use crate::collect::vec_from_array;
use crate::collect::vec_from_iter;
use crate::model::first_index;
use crate::model::has_key;
use crate::model::keys_of;
use crate::model::lookup;
use crate::model::lookup_entry;
use crate::model::values_of;
use crate::specialized_maps::common_map::CommonMap;
use crate::specialized_maps::debug::is_map_form;
use crate::specialized_maps::equality::maps_are_equal;
use crate::specialized_maps::equality::maps_equal;
use crate::specialized_maps::equality::values_comparable;
use crate::specialized_maps::integer_map::IntegerMap;
use crate::specialized_maps::integer_range_map::IntegerRangeMap;
use crate::specialized_maps::integer_range_map::int_values;
use crate::specialized_maps::integer_range_map::key_values;
use crate::specialized_maps::iterators::Iter;
use crate::specialized_maps::iterators::Keys;
use crate::specialized_maps::iterators::Values;
use crate::specialized_maps::left_slice_map::LeftSliceMap;
use crate::specialized_maps::length_map::LengthMap;
use crate::specialized_maps::many_mut::all_found;
use crate::specialized_maps::many_mut::is_target;
use crate::specialized_maps::map_ops::MapOps;
use crate::specialized_maps::right_slice_map::RightSliceMap;
use crate::specialized_maps::scanning_map::ScanningMap;
use crate::traits::byte_hasher::ByteHasher;
use crate::traits::byte_hasher::DefaultByteHasher;
use crate::traits::key::Key;
use crate::traits::key::KeyCategory;
use crate::traits::len::Len;
use std::fmt::Debug;
use vstd::prelude::*;
use vstd::std_specs::iter::IteratorSpec;

verus! {

/// The storage strategies that a frozen collection chooses from.
#[derive(Clone, Copy, Debug, PartialEq, Eq, Structural)]
pub enum Representation {
    /// A plain array, searched from the front.
    Scanning,
    /// A hash table with the integer key as the hash code.
    Integer,
    /// An array indexed by the distance of the key from the least key.
    IntegerRange,
    /// A hash table over a hash of the whole key.
    Common,
    /// A hash table with the length of the key as the hash code.
    Length,
    /// A hash table over a hash of the `subslice_len` bytes that begin
    /// `subslice_index` bytes after the beginning of the key.
    LeftSlice { subslice_index: usize, subslice_len: usize },
    /// A hash table over a hash of the `subslice_len` bytes that end
    /// `subslice_index` bytes before the end of the key.
    RightSlice { subslice_index: usize, subslice_len: usize },
}

/// The representation that suits byte-string keys, by what their analysis
/// found.
pub open spec fn slice_representation(choice: SliceKeyAnalysisResult) -> Representation {
    match choice {
        SliceKeyAnalysisResult::Normal => Representation::Common,
        SliceKeyAnalysisResult::Length => Representation::Length,
        SliceKeyAnalysisResult::LeftHandSubslice { subslice_index, subslice_len } => {
            Representation::LeftSlice { subslice_index, subslice_len }
        },
        SliceKeyAnalysisResult::RightHandSubslice { subslice_index, subslice_len } => {
            Representation::RightSlice { subslice_index, subslice_len }
        },
    }
}

/// The representation that a frozen collection chooses for `payload`.
///
/// Fewer than four entries are scanned. Integer keys that fill a range are
/// indexed, other integer keys are their own hash codes. Byte-string keys are
/// hashed by their length or by the first window that tells them apart, where
/// there is one. All other keys are hashed as a whole.
pub open spec fn chosen_representation<K: Key, V>(payload: Seq<(K, V)>) -> Representation {
    if payload.len() < 4 {
        Representation::Scanning
    } else {
        match K::category_spec() {
            KeyCategory::Integer => if is_dense_range(key_values(payload)) {
                Representation::IntegerRange
            } else {
                Representation::Integer
            },
            KeyCategory::ByteSlice => slice_representation(slice_choice(key_bytes(payload))),
            KeyCategory::Opaque => Representation::Common,
        }
    }
}

/// The different implementations available for use, depending on the type and
/// content of the payload.
#[derive(Clone)]
pub enum MapTypes<K, V, BH> {
    Scanning(ScanningMap<K, V>),
    CommonSmall(CommonMap<K, V, u8, BH>),
    CommonLarge(CommonMap<K, V, usize, BH>),
    IntegerSmall(IntegerMap<K, V, u8>),
    IntegerLarge(IntegerMap<K, V, usize>),
    IntegerRange(IntegerRangeMap<K, V>),
    LeftSliceSmall(LeftSliceMap<K, V, u8, BH>),
    LeftSliceLarge(LeftSliceMap<K, V, usize, BH>),
    RightSliceSmall(RightSliceMap<K, V, u8, BH>),
    RightSliceLarge(RightSliceMap<K, V, usize, BH>),
    LengthSmall(LengthMap<K, V, u8>),
    LengthLarge(LengthMap<K, V, usize>),
}

impl<K, V, BH> MapTypes<K, V, BH> {
    /// The entries of the implementation in use.
    pub open spec fn entries(&self) -> Seq<(K, V)> {
        match self {
            MapTypes::Scanning(m) => m@,
            MapTypes::CommonSmall(m) => m@,
            MapTypes::CommonLarge(m) => m@,
            MapTypes::IntegerSmall(m) => m@,
            MapTypes::IntegerLarge(m) => m@,
            MapTypes::IntegerRange(m) => m@,
            MapTypes::LeftSliceSmall(m) => m@,
            MapTypes::LeftSliceLarge(m) => m@,
            MapTypes::RightSliceSmall(m) => m@,
            MapTypes::RightSliceLarge(m) => m@,
            MapTypes::LengthSmall(m) => m@,
            MapTypes::LengthLarge(m) => m@,
        }
    }

}

impl<K: Key, V, BH: ByteHasher> MapTypes<K, V, BH> {
    /// The implementation in use is well formed.
    pub open spec fn wf(&self) -> bool {
        match self {
            MapTypes::Scanning(m) => true,
            MapTypes::CommonSmall(m) => m.wf(),
            MapTypes::CommonLarge(m) => m.wf(),
            MapTypes::IntegerSmall(m) => m.wf(),
            MapTypes::IntegerLarge(m) => m.wf(),
            MapTypes::IntegerRange(m) => m.wf(),
            MapTypes::LeftSliceSmall(m) => m.wf(),
            MapTypes::LeftSliceLarge(m) => m.wf(),
            MapTypes::RightSliceSmall(m) => m.wf(),
            MapTypes::RightSliceLarge(m) => m.wf(),
            MapTypes::LengthSmall(m) => m.wf(),
            MapTypes::LengthLarge(m) => m.wf(),
        }
    }

    /// The representation of the implementation in use.
    pub open spec fn representation(&self) -> Representation {
        match self {
            MapTypes::Scanning(m) => Representation::Scanning,
            MapTypes::CommonSmall(m) => Representation::Common,
            MapTypes::CommonLarge(m) => Representation::Common,
            MapTypes::IntegerSmall(m) => Representation::Integer,
            MapTypes::IntegerLarge(m) => Representation::Integer,
            MapTypes::IntegerRange(m) => Representation::IntegerRange,
            MapTypes::LeftSliceSmall(m) => Representation::LeftSlice {
                subslice_index: m.range.start,
                subslice_len: (m.range.end - m.range.start) as usize,
            },
            MapTypes::LeftSliceLarge(m) => Representation::LeftSlice {
                subslice_index: m.range.start,
                subslice_len: (m.range.end - m.range.start) as usize,
            },
            MapTypes::RightSliceSmall(m) => Representation::RightSlice {
                subslice_index: m.range.start,
                subslice_len: (m.range.end - m.range.start) as usize,
            },
            MapTypes::RightSliceLarge(m) => Representation::RightSlice {
                subslice_index: m.range.start,
                subslice_len: (m.range.end - m.range.start) as usize,
            },
            MapTypes::LengthSmall(m) => Representation::Length,
            MapTypes::LengthLarge(m) => Representation::Length,
        }
    }

    /// The implementation in use was given a window that ends behind its
    /// beginning, where it has a window.
    pub open spec fn window_ordered(&self) -> bool {
        match self {
            MapTypes::LeftSliceSmall(m) => m.range.start <= m.range.end,
            MapTypes::LeftSliceLarge(m) => m.range.start <= m.range.end,
            MapTypes::RightSliceSmall(m) => m.range.start <= m.range.end,
            MapTypes::RightSliceLarge(m) => m.range.start <= m.range.end,
            _ => true,
        }
    }
}

/// A map optimized for fast read access.
///
/// Creating a frozen map takes longer than creating an ordinary hash map:
/// the keys are analyzed to find the representation that answers lookups
/// fastest. Once created, the keys of a frozen map cannot change; its values
/// can, through `get_mut`.
#[derive(Clone)]
pub struct FrozenMap<K, V, BH = DefaultByteHasher> {
    map_impl: MapTypes<K, V, BH>,
}

impl<K, V, BH> View for FrozenMap<K, V, BH> {
    type V = Seq<(K, V)>;

    /// The entries, in the order in which they are stored and visited.
    open spec fn view(&self) -> Seq<(K, V)> {
        self.entries()
    }
}

impl<K: Key, V, BH: ByteHasher> FrozenMap<K, V, BH> {
    /// The map is laid out as its representation asks.
    pub closed spec fn wf(&self) -> bool {
        self.map_impl.wf() && self.map_impl.window_ordered()
    }

    /// The representation of the map.
    pub closed spec fn representation_spec(&self) -> Representation {
        self.map_impl.representation()
    }

    /// Creates a frozen map which will use the given hasher to hash keys.
    pub fn from_vec_with_hasher(payload: Vec<(K, V)>, bh: BH) -> (r: Self)
        ensures
            r.wf(),
            r@.to_multiset() == payload@.to_multiset(),
            r@.len() == payload@.len(),
            payload@.len() < 4 ==> r@ == payload@,
            r.representation_spec() == chosen_representation(payload@),
    {
        Self::new(payload, bh)
    }

    /// Creates a frozen map from an array of entries, which will use the given
    /// hasher to hash keys.
    pub fn with_hasher<const N: usize>(payload: [(K, V); N], bh: BH) -> (r: Self)
        ensures
            r.wf(),
            r@.to_multiset() == payload@.to_multiset(),
            r@.len() == payload@.len(),
            payload@.len() < 4 ==> r@ == payload@,
            r.representation_spec() == chosen_representation(payload@),
    {
        Self::new(vec_from_array(payload), bh)
    }

    /// Creates a frozen map from the entries that `iter` yields, which will use
    /// the given hasher to hash keys.
    pub fn from_iter_with_hasher<T: Iterator<Item = (K, V)>>(iter: T, bh: BH) -> (r: Self)
        ensures
            r.wf(),
            iter.obeys_prophetic_iter_laws() && iter.will_return_none() ==> {
                &&& r@.to_multiset() == iter.remaining().to_multiset()
                &&& r@.len() == iter.remaining().len()
                &&& iter.remaining().len() < 4 ==> r@ == iter.remaining()
                &&& r.representation_spec() == chosen_representation(iter.remaining())
            },
    {
        Self::new(vec_from_iter(iter), bh)
    }

    /// Chooses the representation for `payload` and builds it.
    pub fn new(payload: Vec<(K, V)>, bh: BH) -> (r: Self)
        ensures
            r.wf(),
            r@.to_multiset() == payload@.to_multiset(),
            r@.len() == payload@.len(),
            payload@.len() < 4 ==> r@ == payload@,
            r.representation_spec() == chosen_representation(payload@),
    {
        FrozenMap {
            map_impl: if payload.len() < 4 {
                MapTypes::Scanning(ScanningMap::from_vec(payload))
            } else {
                match K::category() {
                    KeyCategory::Integer => Self::new_integer_map(payload),
                    KeyCategory::ByteSlice => Self::new_slice_map(payload, bh),
                    KeyCategory::Opaque => Self::new_common_map(payload, bh),
                }
            },
        }
    }

    /// Builds the representation for integer keys: indexed where the keys fill
    /// a range, hashed by the key itself otherwise.
    pub fn new_integer_map(payload: Vec<(K, V)>) -> (r: MapTypes<K, V, BH>)
        requires
            K::category_spec() == KeyCategory::Integer,
        ensures
            r.wf(),
            r.window_ordered(),
            r.entries().to_multiset() == payload@.to_multiset(),
            r.entries().len() == payload@.len(),
            r.representation() == (if is_dense_range(key_values(payload@)) {
                Representation::IntegerRange
            } else {
                Representation::Integer
            }),
    {
        let keys = int_values(&payload);
        let key_analysis = analyze_int_keys(keys.as_slice());
        match key_analysis {
            IntKeyAnalysisResult::Range => {
                proof {
                    assert forall|i: int| 0 <= i < payload@.len() implies K::shape(
                        (#[trigger] payload@[i]).0@,
                    ) is Integer by {
                        K::lemma_shape(payload@[i].0@, payload@[i].0@);
                    }
                }
                MapTypes::IntegerRange(IntegerRangeMap::from_vec(payload))
            },
            IntKeyAnalysisResult::Normal => {
                if payload.len() <= u8_as_usize(u8::MAX) {
                    MapTypes::IntegerSmall(IntegerMap::from_vec(payload).unwrap())
                } else {
                    MapTypes::IntegerLarge(IntegerMap::from_vec(payload).unwrap())
                }
            },
        }
    }

    /// Builds the representation for byte-string keys: hashed by length, by
    /// the window that the analysis found, or as a whole.
    pub fn new_slice_map(payload: Vec<(K, V)>, bh: BH) -> (r: MapTypes<K, V, BH>)
        ensures
            r.wf(),
            r.window_ordered(),
            r.entries().to_multiset() == payload@.to_multiset(),
            r.entries().len() == payload@.len(),
            r.representation() == slice_representation(slice_choice(key_bytes(payload@))),
    {
        let keys = byte_keys(&payload);
        let key_analysis = analyze_slice_keys(&keys, &bh);
        if payload.len() <= u8_as_usize(u8::MAX) {
            match key_analysis {
                SliceKeyAnalysisResult::Normal => MapTypes::CommonSmall(
                    CommonMap::from_vec_with_hasher(payload, bh).unwrap(),
                ),
                SliceKeyAnalysisResult::LeftHandSubslice { subslice_index, subslice_len } => {
                    MapTypes::LeftSliceSmall(
                        LeftSliceMap::from_vec_with_hasher(
                            payload,
                            subslice_index..subslice_index + subslice_len,
                            bh,
                        ).unwrap(),
                    )
                },
                SliceKeyAnalysisResult::RightHandSubslice { subslice_index, subslice_len } => {
                    MapTypes::RightSliceSmall(
                        RightSliceMap::from_vec_with_hasher(
                            payload,
                            subslice_index..subslice_index + subslice_len,
                            bh,
                        ).unwrap(),
                    )
                },
                SliceKeyAnalysisResult::Length => MapTypes::LengthSmall(
                    LengthMap::from_vec(payload).unwrap(),
                ),
            }
        } else {
            match key_analysis {
                SliceKeyAnalysisResult::Normal => {
                    MapTypes::CommonLarge(CommonMap::from_vec_with_hasher(payload, bh).unwrap())
                },
                SliceKeyAnalysisResult::Length => MapTypes::LengthLarge(
                    LengthMap::from_vec(payload).unwrap(),
                ),
                SliceKeyAnalysisResult::LeftHandSubslice { subslice_index, subslice_len } => {
                    MapTypes::LeftSliceLarge(
                        LeftSliceMap::from_vec_with_hasher(
                            payload,
                            subslice_index..subslice_index + subslice_len,
                            bh,
                        ).unwrap(),
                    )
                },
                SliceKeyAnalysisResult::RightHandSubslice { subslice_index, subslice_len } => {
                    MapTypes::RightSliceLarge(
                        RightSliceMap::from_vec_with_hasher(
                            payload,
                            subslice_index..subslice_index + subslice_len,
                            bh,
                        ).unwrap(),
                    )
                },
            }
        }
    }

    /// Builds the representation for keys of no special kind.
    pub fn new_common_map(payload: Vec<(K, V)>, bh: BH) -> (r: MapTypes<K, V, BH>)
        ensures
            r.wf(),
            r.window_ordered(),
            r.entries().to_multiset() == payload@.to_multiset(),
            r.entries().len() == payload@.len(),
            r.representation() == Representation::Common,
    {
        if payload.len() <= u8_as_usize(u8::MAX) {
            MapTypes::CommonSmall(CommonMap::from_vec_with_hasher(payload, bh).unwrap())
        } else {
            MapTypes::CommonLarge(CommonMap::from_vec_with_hasher(payload, bh).unwrap())
        }
    }

    /// Returns the representation that the map chose.
    pub fn representation(&self) -> (r: Representation)
        requires
            self.wf(),
        ensures
            r == self.representation_spec(),
    {
        match &self.map_impl {
            MapTypes::Scanning(m) => Representation::Scanning,
            MapTypes::CommonSmall(m) => Representation::Common,
            MapTypes::CommonLarge(m) => Representation::Common,
            MapTypes::IntegerSmall(m) => Representation::Integer,
            MapTypes::IntegerLarge(m) => Representation::Integer,
            MapTypes::IntegerRange(m) => Representation::IntegerRange,
            MapTypes::LeftSliceSmall(m) => Representation::LeftSlice {
                subslice_index: m.range.start,
                subslice_len: m.range.end - m.range.start,
            },
            MapTypes::LeftSliceLarge(m) => Representation::LeftSlice {
                subslice_index: m.range.start,
                subslice_len: m.range.end - m.range.start,
            },
            MapTypes::RightSliceSmall(m) => Representation::RightSlice {
                subslice_index: m.range.start,
                subslice_len: m.range.end - m.range.start,
            },
            MapTypes::RightSliceLarge(m) => Representation::RightSlice {
                subslice_index: m.range.start,
                subslice_len: m.range.end - m.range.start,
            },
            MapTypes::LengthSmall(m) => Representation::Length,
            MapTypes::LengthLarge(m) => Representation::Length,
        }
    }

    /// Returns a reference to the value corresponding to the key.
    pub fn get(&self, key: &K) -> (r: Option<&V>)
        requires
            self.wf(),
        ensures
            match r {
                Some(v) => lookup(self@, key@) == Some(*v),
                None => lookup(self@, key@) is None,
            },
    {
        match &self.map_impl {
            MapTypes::Scanning(m) => m.get(key),
            MapTypes::CommonSmall(m) => m.get(key),
            MapTypes::CommonLarge(m) => m.get(key),
            MapTypes::IntegerSmall(m) => m.get(key),
            MapTypes::IntegerLarge(m) => m.get(key),
            MapTypes::IntegerRange(m) => m.get(key),
            MapTypes::LeftSliceSmall(m) => m.get(key),
            MapTypes::LeftSliceLarge(m) => m.get(key),
            MapTypes::RightSliceSmall(m) => m.get(key),
            MapTypes::RightSliceLarge(m) => m.get(key),
            MapTypes::LengthSmall(m) => m.get(key),
            MapTypes::LengthLarge(m) => m.get(key),
        }
    }

    /// Returns the key-value pair corresponding to the supplied key.
    pub fn get_key_value(&self, key: &K) -> (r: Option<(&K, &V)>)
        requires
            self.wf(),
        ensures
            match r {
                Some((k, v)) => lookup_entry(self@, key@) == Some((*k, *v)),
                None => lookup_entry(self@, key@) is None,
            },
    {
        match &self.map_impl {
            MapTypes::Scanning(m) => m.get_key_value(key),
            MapTypes::CommonSmall(m) => m.get_key_value(key),
            MapTypes::CommonLarge(m) => m.get_key_value(key),
            MapTypes::IntegerSmall(m) => m.get_key_value(key),
            MapTypes::IntegerLarge(m) => m.get_key_value(key),
            MapTypes::IntegerRange(m) => m.get_key_value(key),
            MapTypes::LeftSliceSmall(m) => m.get_key_value(key),
            MapTypes::LeftSliceLarge(m) => m.get_key_value(key),
            MapTypes::RightSliceSmall(m) => m.get_key_value(key),
            MapTypes::RightSliceLarge(m) => m.get_key_value(key),
            MapTypes::LengthSmall(m) => m.get_key_value(key),
            MapTypes::LengthLarge(m) => m.get_key_value(key),
        }
    }

    /// Returns a mutable reference to the value corresponding to the key.
    /// Nothing but that value can change through it.
    pub fn get_mut(&mut self, key: &K) -> (r: Option<&mut V>)
        requires
            old(self).wf(),
        ensures
            final(self).wf(),
            final(self).representation_spec() == old(self).representation_spec(),
            match r {
                Some(v) => {
                    let i = first_index(old(self)@, key@);
                    &&& has_key(old(self)@, key@)
                    &&& *v == old(self)@[i].1
                    &&& final(self)@ == old(self)@.update(i, (old(self)@[i].0, *final(v)))
                },
                None => !has_key(old(self)@, key@) && final(self)@ == old(self)@,
            },
    {
        match &mut self.map_impl {
            MapTypes::Scanning(m) => m.get_mut(key),
            MapTypes::CommonSmall(m) => m.get_mut(key),
            MapTypes::CommonLarge(m) => m.get_mut(key),
            MapTypes::IntegerSmall(m) => m.get_mut(key),
            MapTypes::IntegerLarge(m) => m.get_mut(key),
            MapTypes::IntegerRange(m) => m.get_mut(key),
            MapTypes::LeftSliceSmall(m) => m.get_mut(key),
            MapTypes::LeftSliceLarge(m) => m.get_mut(key),
            MapTypes::RightSliceSmall(m) => m.get_mut(key),
            MapTypes::RightSliceLarge(m) => m.get_mut(key),
            MapTypes::LengthSmall(m) => m.get_mut(key),
            MapTypes::LengthLarge(m) => m.get_mut(key),
        }
    }

    /// Attempts to get mutable references to the values of `N` keys at once.
    ///
    /// Returns the references in the order of the keys where the keys are all
    /// different and all present, and `None` otherwise. Nothing but those
    /// values can change through them.
    pub fn get_many_mut<const N: usize>(&mut self, keys: [&K; N]) -> (r: Option<[&mut V; N]>)
        requires
            old(self).wf(),
        ensures
            final(self).wf(),
            final(self).representation_spec() == old(self).representation_spec(),
            r is Some == all_found(old(self)@, keys@),
            r is None ==> final(self)@ == old(self)@,
            r matches Some(refs) ==> {
                &&& final(self)@.len() == old(self)@.len()
                &&& forall|p: int|
                    0 <= p < old(self)@.len() ==> (#[trigger] final(self)@[p]).0 == old(self)@[p].0
                &&& forall|i: int|
                    0 <= i < N ==> *(#[trigger] refs@[i]) == old(self)@[first_index(
                        old(self)@,
                        keys@[i]@,
                    )].1
                &&& forall|i: int|
                    0 <= i < N ==> final(self)@[first_index(old(self)@, (#[trigger] keys@[i])@)].1
                        == *final(refs@[i])
                &&& forall|p: int|
                    0 <= p < old(self)@.len() && !is_target(old(self)@, keys@, p)
                        ==> #[trigger] final(self)@[p] == old(self)@[p]
            },
    {
        match &mut self.map_impl {
            MapTypes::Scanning(m) => m.get_many_mut(keys),
            MapTypes::CommonSmall(m) => m.get_many_mut(keys),
            MapTypes::CommonLarge(m) => m.get_many_mut(keys),
            MapTypes::IntegerSmall(m) => m.get_many_mut(keys),
            MapTypes::IntegerLarge(m) => m.get_many_mut(keys),
            MapTypes::IntegerRange(m) => m.get_many_mut(keys),
            MapTypes::LeftSliceSmall(m) => m.get_many_mut(keys),
            MapTypes::LeftSliceLarge(m) => m.get_many_mut(keys),
            MapTypes::RightSliceSmall(m) => m.get_many_mut(keys),
            MapTypes::RightSliceLarge(m) => m.get_many_mut(keys),
            MapTypes::LengthSmall(m) => m.get_many_mut(keys),
            MapTypes::LengthLarge(m) => m.get_many_mut(keys),
        }
    }

    /// Returns whether the two maps are equally long and every entry of this
    /// map has its key in the other, with an equal value.
    pub fn equals<M: MapOps<K, V>>(&self, other: &M) -> (b: bool) where V: PartialEq
        requires
            self.wf(),
            other.valid(),
        ensures
            values_comparable::<V>() ==> b == maps_equal(self@, other.entries()),
    {
        maps_are_equal(self, other)
    }

    /// Returns a reference to the value of a key that the map has.
    pub fn index(&self, key: &K) -> (r: &V)
        requires
            self.wf(),
            has_key(self@, key@),
        ensures
            lookup(self@, key@) == Some(*r),
    {
        match self.get(key) {
            Some(v) => v,
            None => vstd::pervasive::unreached(),
        }
    }

    /// Returns a mutable reference to the value of a key that the map has.
    /// Nothing but that value can change through it.
    pub fn index_mut(&mut self, key: &K) -> (r: &mut V)
        requires
            old(self).wf(),
            has_key(old(self)@, key@),
        ensures
            final(self).wf(),
            final(self).representation_spec() == old(self).representation_spec(),
            *r == old(self)@[first_index(old(self)@, key@)].1,
            final(self)@ == old(self)@.update(
                first_index(old(self)@, key@),
                (old(self)@[first_index(old(self)@, key@)].0, *final(r)),
            ),
    {
        match self.get_mut(key) {
            Some(v) => v,
            None => vstd::pervasive::unreached(),
        }
    }

    /// Returns `true` if the map contains a value for the specified key.
    pub fn contains_key(&self, key: &K) -> (b: bool)
        requires
            self.wf(),
        ensures
            b == has_key(self@, key@),
    {
        self.get(key).is_some()
    }

}

impl<K, V, BH> FrozenMap<K, V, BH> {
    /// The entries, in the order in which they are stored and visited.
    pub closed spec fn entries(&self) -> Seq<(K, V)> {
        self.map_impl.entries()
    }

    /// Returns the entry at `index` in the order of the map, if there is one.
    pub fn get_by_index(&self, index: usize) -> (r: Option<(&K, &V)>)
        ensures
            index < self@.len() ==> r == Some((&self@[index as int].0, &self@[index as int].1)),
            index >= self@.len() ==> r is None,
    {
        match &self.map_impl {
            MapTypes::Scanning(m) => m.get_by_index(index),
            MapTypes::CommonSmall(m) => m.get_by_index(index),
            MapTypes::CommonLarge(m) => m.get_by_index(index),
            MapTypes::IntegerSmall(m) => m.get_by_index(index),
            MapTypes::IntegerLarge(m) => m.get_by_index(index),
            MapTypes::IntegerRange(m) => m.get_by_index(index),
            MapTypes::LeftSliceSmall(m) => m.get_by_index(index),
            MapTypes::LeftSliceLarge(m) => m.get_by_index(index),
            MapTypes::RightSliceSmall(m) => m.get_by_index(index),
            MapTypes::RightSliceLarge(m) => m.get_by_index(index),
            MapTypes::LengthSmall(m) => m.get_by_index(index),
            MapTypes::LengthLarge(m) => m.get_by_index(index),
        }
    }

    /// The entries in the form of a map: each key and value in its `Debug`
    /// form with a colon between them, the entries separated by commas, all
    /// between braces.
    pub fn debug_string(&self) -> (r: String) where K: Debug, V: Debug
        ensures
            is_map_form(r@, self@.len()),
    {
        match &self.map_impl {
            MapTypes::Scanning(m) => m.debug_string(),
            MapTypes::CommonSmall(m) => m.debug_string(),
            MapTypes::CommonLarge(m) => m.debug_string(),
            MapTypes::IntegerSmall(m) => m.debug_string(),
            MapTypes::IntegerLarge(m) => m.debug_string(),
            MapTypes::IntegerRange(m) => m.debug_string(),
            MapTypes::LeftSliceSmall(m) => m.debug_string(),
            MapTypes::LeftSliceLarge(m) => m.debug_string(),
            MapTypes::RightSliceSmall(m) => m.debug_string(),
            MapTypes::RightSliceLarge(m) => m.debug_string(),
            MapTypes::LengthSmall(m) => m.debug_string(),
            MapTypes::LengthLarge(m) => m.debug_string(),
        }
    }

    /// Returns the number of elements in the map.
    pub fn len(&self) -> (n: usize)
        ensures
            n == self@.len(),
    {
        match &self.map_impl {
            MapTypes::Scanning(m) => m.len(),
            MapTypes::CommonSmall(m) => m.len(),
            MapTypes::CommonLarge(m) => m.len(),
            MapTypes::IntegerSmall(m) => m.len(),
            MapTypes::IntegerLarge(m) => m.len(),
            MapTypes::IntegerRange(m) => m.len(),
            MapTypes::LeftSliceSmall(m) => m.len(),
            MapTypes::LeftSliceLarge(m) => m.len(),
            MapTypes::RightSliceSmall(m) => m.len(),
            MapTypes::RightSliceLarge(m) => m.len(),
            MapTypes::LengthSmall(m) => m.len(),
            MapTypes::LengthLarge(m) => m.len(),
        }
    }

    /// Returns `true` if the map contains no elements.
    pub fn is_empty(&self) -> (b: bool)
        ensures
            b == (self@.len() == 0),
    {
        self.len() == 0
    }

    /// A cursor visiting all key-value pairs, in the order of the map.
    pub fn iter(&self) -> (r: Iter<'_, K, V>)
        ensures
            r.remaining() == self@,
    {
        match &self.map_impl {
            MapTypes::Scanning(m) => m.iter(),
            MapTypes::CommonSmall(m) => m.iter(),
            MapTypes::CommonLarge(m) => m.iter(),
            MapTypes::IntegerSmall(m) => m.iter(),
            MapTypes::IntegerLarge(m) => m.iter(),
            MapTypes::IntegerRange(m) => m.iter(),
            MapTypes::LeftSliceSmall(m) => m.iter(),
            MapTypes::LeftSliceLarge(m) => m.iter(),
            MapTypes::RightSliceSmall(m) => m.iter(),
            MapTypes::RightSliceLarge(m) => m.iter(),
            MapTypes::LengthSmall(m) => m.iter(),
            MapTypes::LengthLarge(m) => m.iter(),
        }
    }

    /// A cursor visiting all keys, in the order of the map.
    pub fn keys(&self) -> (r: Keys<'_, K, V>)
        ensures
            r.remaining() == keys_of(self@),
    {
        match &self.map_impl {
            MapTypes::Scanning(m) => m.keys(),
            MapTypes::CommonSmall(m) => m.keys(),
            MapTypes::CommonLarge(m) => m.keys(),
            MapTypes::IntegerSmall(m) => m.keys(),
            MapTypes::IntegerLarge(m) => m.keys(),
            MapTypes::IntegerRange(m) => m.keys(),
            MapTypes::LeftSliceSmall(m) => m.keys(),
            MapTypes::LeftSliceLarge(m) => m.keys(),
            MapTypes::RightSliceSmall(m) => m.keys(),
            MapTypes::RightSliceLarge(m) => m.keys(),
            MapTypes::LengthSmall(m) => m.keys(),
            MapTypes::LengthLarge(m) => m.keys(),
        }
    }

    /// A cursor visiting all values, in the order of the map.
    pub fn values(&self) -> (r: Values<'_, K, V>)
        ensures
            r.remaining() == values_of(self@),
    {
        match &self.map_impl {
            MapTypes::Scanning(m) => m.values(),
            MapTypes::CommonSmall(m) => m.values(),
            MapTypes::CommonLarge(m) => m.values(),
            MapTypes::IntegerSmall(m) => m.values(),
            MapTypes::IntegerLarge(m) => m.values(),
            MapTypes::IntegerRange(m) => m.values(),
            MapTypes::LeftSliceSmall(m) => m.values(),
            MapTypes::LeftSliceLarge(m) => m.values(),
            MapTypes::RightSliceSmall(m) => m.values(),
            MapTypes::RightSliceLarge(m) => m.values(),
            MapTypes::LengthSmall(m) => m.values(),
            MapTypes::LengthLarge(m) => m.values(),
        }
    }
}

impl<K: Key, V> FrozenMap<K, V, DefaultByteHasher> {
    /// Creates a frozen map with the default hasher.
    pub fn from_vec(payload: Vec<(K, V)>) -> (r: Self)
        ensures
            r.wf(),
            r@.to_multiset() == payload@.to_multiset(),
            r@.len() == payload@.len(),
            payload@.len() < 4 ==> r@ == payload@,
            r.representation_spec() == chosen_representation(payload@),
    {
        Self::new(payload, DefaultByteHasher::new())
    }

    /// Creates a frozen map from an array of entries, with the default hasher.
    pub fn from<const N: usize>(payload: [(K, V); N]) -> (r: Self)
        ensures
            r.wf(),
            r@.to_multiset() == payload@.to_multiset(),
            r@.len() == payload@.len(),
            payload@.len() < 4 ==> r@ == payload@,
            r.representation_spec() == chosen_representation(payload@),
    {
        Self::with_hasher(payload, DefaultByteHasher::new())
    }

    /// Creates a frozen map from the entries that `iter` yields, with the
    /// default hasher.
    pub fn from_iter<T: Iterator<Item = (K, V)>>(iter: T) -> (r: Self)
        ensures
            r.wf(),
            iter.obeys_prophetic_iter_laws() && iter.will_return_none() ==> {
                &&& r@.to_multiset() == iter.remaining().to_multiset()
                &&& r@.len() == iter.remaining().len()
                &&& iter.remaining().len() < 4 ==> r@ == iter.remaining()
                &&& r.representation_spec() == chosen_representation(iter.remaining())
            },
    {
        Self::from_iter_with_hasher(iter, DefaultByteHasher::new())
    }
}

impl<K: Key, V, BH: ByteHasher> Default for FrozenMap<K, V, BH> {
    /// The map without entries.
    fn default() -> (r: Self)
        ensures
            r.wf(),
            r@ == Seq::<(K, V)>::empty(),
            r.representation_spec() == Representation::Scanning,
    {
        FrozenMap { map_impl: MapTypes::Scanning(ScanningMap::from_vec(Vec::new())) }
    }
}

impl<K, V, BH> Len for FrozenMap<K, V, BH> {
    open spec fn spec_len(&self) -> nat {
        self@.len()
    }

    fn len(&self) -> (n: usize) {
        FrozenMap::len(self)
    }
}

impl<K: Key, V, BH: ByteHasher> MapOps<K, V> for FrozenMap<K, V, BH> {
    open spec fn entries(&self) -> Seq<(K, V)> {
        self@
    }

    open spec fn valid(&self) -> bool {
        self.wf()
    }

    fn get(&self, key: &K) -> (r: Option<&V>) {
        FrozenMap::get(self, key)
    }

    fn get_by_index(&self, index: usize) -> (r: Option<(&K, &V)>) {
        FrozenMap::get_by_index(self, index)
    }

    proof fn lemma_len(&self) {
    }
}

} // verus!
