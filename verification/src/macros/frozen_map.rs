//! The choice of a specialized map for a payload that is known when the
//! program is compiled: the same choice that a frozen map makes when it is
//! built, made from the results of the same analyses.

use crate::analyzers::int_key_analyzer::IntKeyAnalysisResult;
use crate::analyzers::slice_key_analyzer::SliceKeyAnalysisResult;
use crate::casts::u16_as_usize;
use crate::casts::u8_as_usize;
use vstd::prelude::*;

verus! {

/// What kind of key type a payload was declared with.
#[derive(Clone, Copy, Debug, PartialEq, Eq, Structural)]
pub enum KeyVariety {
    /// A type of no special kind.
    Common,
    /// One of the integer types.
    Integer,
    /// A string type.
    String,
}

/// The specialized maps that can be chosen.
#[derive(Clone, Copy, Debug, PartialEq, Eq, Structural)]
pub enum MapKind {
    ScanningMap,
    IntegerRangeMap,
    IntegerMap,
    CommonMap,
    LengthMap,
    LeftSliceMap,
    RightSliceMap,
}

/// The integer types for bucket descriptors.
#[derive(Clone, Copy, Debug, PartialEq, Eq, Structural)]
pub enum PayloadSize {
    U8,
    U16,
    Usize,
}

/// The map chosen for a payload.
#[derive(Clone, Copy, Debug, PartialEq, Eq, Structural)]
pub struct MapSelection {
    /// The specialized map.
    pub kind: MapKind,
    /// The integer type of its bucket descriptors, where it has any.
    pub size: PayloadSize,
    /// The beginning of the window that is hashed, for the slice maps.
    pub subslice_index: usize,
    /// The length of the window that is hashed, for the slice maps.
    pub subslice_len: usize,
}

/// The narrowest descriptor type that counts `len` entries.
pub open spec fn size_for(len: nat) -> PayloadSize {
    if len <= 0xff {
        PayloadSize::U8
    } else if len <= 0xffff {
        PayloadSize::U16
    } else {
        PayloadSize::Usize
    }
}

/// The specialized map for a payload of `len` entries with keys of the given
/// variety and analysis.
pub open spec fn kind_for(
    variety: KeyVariety,
    int_analysis: IntKeyAnalysisResult,
    slice_analysis: SliceKeyAnalysisResult,
    len: nat,
) -> MapKind {
    if len < 4 {
        MapKind::ScanningMap
    } else {
        match variety {
            KeyVariety::Integer => match int_analysis {
                IntKeyAnalysisResult::Range => MapKind::IntegerRangeMap,
                IntKeyAnalysisResult::Normal => MapKind::IntegerMap,
            },
            KeyVariety::String => match slice_analysis {
                SliceKeyAnalysisResult::Normal => MapKind::CommonMap,
                SliceKeyAnalysisResult::Length => MapKind::LengthMap,
                SliceKeyAnalysisResult::LeftHandSubslice { .. } => MapKind::LeftSliceMap,
                SliceKeyAnalysisResult::RightHandSubslice { .. } => MapKind::RightSliceMap,
            },
            KeyVariety::Common => MapKind::CommonMap,
        }
    }
}

/// Returns the narrowest descriptor type that counts `len` entries.
pub fn payload_size(len: usize) -> (r: PayloadSize)
    ensures
        r == size_for(len as nat),
{
    if len <= u8_as_usize(u8::MAX) {
        PayloadSize::U8
    } else if len <= u16_as_usize(u16::MAX) {
        PayloadSize::U16
    } else {
        PayloadSize::Usize
    }
}

/// Chooses the map for a payload of `len` entries, from the variety of its
/// keys and from what the analysis of the keys found. Only the analysis that
/// belongs to the variety is looked at.
pub fn select_map(
    variety: KeyVariety,
    int_analysis: IntKeyAnalysisResult,
    slice_analysis: SliceKeyAnalysisResult,
    len: usize,
) -> (r: MapSelection)
    ensures
        r.kind == kind_for(variety, int_analysis, slice_analysis, len as nat),
        r.size == size_for(len as nat),
        r.kind == MapKind::LeftSliceMap ==> slice_analysis
            == (SliceKeyAnalysisResult::LeftHandSubslice {
            subslice_index: r.subslice_index,
            subslice_len: r.subslice_len,
        }),
        r.kind == MapKind::RightSliceMap ==> slice_analysis
            == (SliceKeyAnalysisResult::RightHandSubslice {
            subslice_index: r.subslice_index,
            subslice_len: r.subslice_len,
        }),
        r.kind != MapKind::LeftSliceMap && r.kind != MapKind::RightSliceMap ==> r.subslice_index
            == 0 && r.subslice_len == 0,
{
    let size = payload_size(len);
    let plain = |kind: MapKind| -> (s: MapSelection)
        ensures
            s == (MapSelection { kind, size, subslice_index: 0, subslice_len: 0 }),
        { MapSelection { kind, size, subslice_index: 0, subslice_len: 0 } };
    if len < 4 {
        return plain(MapKind::ScanningMap);
    }
    match variety {
        KeyVariety::Integer => match int_analysis {
            IntKeyAnalysisResult::Range => plain(MapKind::IntegerRangeMap),
            IntKeyAnalysisResult::Normal => plain(MapKind::IntegerMap),
        },
        KeyVariety::String => match slice_analysis {
            SliceKeyAnalysisResult::Normal => plain(MapKind::CommonMap),
            SliceKeyAnalysisResult::Length => plain(MapKind::LengthMap),
            SliceKeyAnalysisResult::LeftHandSubslice { subslice_index, subslice_len } => {
                MapSelection { kind: MapKind::LeftSliceMap, size, subslice_index, subslice_len }
            },
            SliceKeyAnalysisResult::RightHandSubslice { subslice_index, subslice_len } => {
                MapSelection { kind: MapKind::RightSliceMap, size, subslice_index, subslice_len }
            },
        },
        KeyVariety::Common => plain(MapKind::CommonMap),
    }
}

} // verus!
