//! The unsigned integers that bucket descriptors are stored in.

use crate::casts::u64_as_usize;
use vstd::prelude::*;

verus! {

/// An unsigned integer type wide enough to index the entries of a table.
/// A narrow type keeps the bucket array of a small table small.
pub trait SlotIndex: Copy {
    /// The largest entry count that the type can describe.
    spec fn spec_max() -> nat;

    /// The number that a value stands for.
    spec fn spec_value(self) -> nat;

    /// The largest entry count that the type can describe.
    fn max_value() -> (m: usize)
        ensures
            m == Self::spec_max(),
    ;

    /// The descriptor for `n`.
    fn from_usize(n: usize) -> (s: Self)
        requires
            n <= Self::spec_max(),
        ensures
            s.spec_value() == n,
    ;

    /// The number that the descriptor stands for.
    fn to_usize(self) -> (n: usize)
        ensures
            n == self.spec_value(),
    ;
}

impl SlotIndex for u8 {
    open spec fn spec_max() -> nat {
        0xff
    }

    open spec fn spec_value(self) -> nat {
        self as nat
    }

    fn max_value() -> (m: usize) {
        0xff
    }

    fn from_usize(n: usize) -> (s: Self) {
        n as u8
    }

    fn to_usize(self) -> (n: usize) {
        self as usize
    }
}

impl SlotIndex for u16 {
    open spec fn spec_max() -> nat {
        0xffff
    }

    open spec fn spec_value(self) -> nat {
        self as nat
    }

    fn max_value() -> (m: usize) {
        0xffff
    }

    fn from_usize(n: usize) -> (s: Self) {
        n as u16
    }

    fn to_usize(self) -> (n: usize) {
        self as usize
    }
}

impl SlotIndex for u32 {
    open spec fn spec_max() -> nat {
        0xffff_ffff
    }

    open spec fn spec_value(self) -> nat {
        self as nat
    }

    fn max_value() -> (m: usize) {
        0xffff_ffff
    }

    fn from_usize(n: usize) -> (s: Self) {
        n as u32
    }

    fn to_usize(self) -> (n: usize) {
        self as usize
    }
}

impl SlotIndex for u64 {
    /// A table has no more entries than a `usize` counts, so the descriptors
    /// count as far as that.
    open spec fn spec_max() -> nat {
        usize::MAX as nat
    }

    open spec fn spec_value(self) -> nat {
        if self <= usize::MAX {
            self as nat
        } else {
            usize::MAX as nat
        }
    }

    fn max_value() -> (m: usize) {
        usize::MAX
    }

    fn from_usize(n: usize) -> (s: Self) {
        n as u64
    }

    fn to_usize(self) -> (n: usize) {
        if self <= usize::MAX as u64 {
            u64_as_usize(self)
        } else {
            usize::MAX
        }
    }
}

impl SlotIndex for usize {
    open spec fn spec_max() -> nat {
        usize::MAX as nat
    }

    open spec fn spec_value(self) -> nat {
        self as nat
    }

    fn max_value() -> (m: usize) {
        usize::MAX
    }

    fn from_usize(n: usize) -> (s: Self) {
        n
    }

    fn to_usize(self) -> (n: usize) {
        self
    }
}

} // verus!
