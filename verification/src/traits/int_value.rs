//! The values of integer keys, of every width and with or without a sign.

use crate::casts::i128_as_u64;
use crate::casts::i128_to_usize;
use crate::casts::int_code;
use crate::casts::u128_as_u64;
use crate::casts::u128_to_usize;
use vstd::prelude::*;

verus! {

/// The value of an integer key: a value of a type with a sign, or a value of
/// a type without one. Both stand for an integer, which is the view.
#[derive(Clone, Copy, Debug, PartialEq, Eq)]
pub enum IntValue {
    /// A value of one of the integer types with a sign.
    Signed(i128),
    /// A value of one of the integer types without a sign.
    Unsigned(u128),
}

impl View for IntValue {
    type V = int;

    open spec fn view(&self) -> int {
        match *self {
            IntValue::Signed(x) => x as int,
            IntValue::Unsigned(x) => x as int,
        }
    }
}

/// The integers that the values stand for, in order.
pub open spec fn ints(values: Seq<IntValue>) -> Seq<int> {
    Seq::new(values.len(), |i: int| values[i]@)
}

/// The distance from `base` up to `x`, where `x` is not below `base` and the
/// distance is a `usize`.
pub open spec fn offset(x: int, base: int) -> Option<usize> {
    if 0 <= x - base <= usize::MAX {
        Some((x - base) as usize)
    } else {
        None
    }
}

/// The distance between two values without a sign.
fn unsigned_offset(x: u128, base: u128) -> (r: Option<usize>)
    ensures
        r == offset(x as int, base as int),
{
    if x < base {
        None
    } else {
        u128_to_usize(x - base)
    }
}

impl IntValue {
    /// Whether this value is less than the other.
    pub fn is_lt(&self, other: &IntValue) -> (b: bool)
        ensures
            b == (self@ < other@),
    {
        match (*self, *other) {
            (IntValue::Signed(a), IntValue::Signed(b)) => a < b,
            (IntValue::Unsigned(a), IntValue::Unsigned(b)) => a < b,
            (IntValue::Signed(a), IntValue::Unsigned(b)) => a < 0 || (a as u128) < b,
            (IntValue::Unsigned(a), IntValue::Signed(b)) => b >= 0 && a < (b as u128),
        }
    }

    /// Whether the two values are the same integer.
    pub fn is_same(&self, other: &IntValue) -> (b: bool)
        ensures
            b == (self@ == other@),
    {
        !self.is_lt(other) && !other.is_lt(self)
    }

    /// The distance from `base` up to this value, where this value is not
    /// below `base` and the distance is a `usize`.
    pub fn offset_from(&self, base: &IntValue) -> (r: Option<usize>)
        ensures
            r == offset(self@, base@),
    {
        match (*self, *base) {
            (IntValue::Signed(a), IntValue::Signed(b)) => {
                if a < b {
                    None
                } else if b < 0 && a > i128::MAX + b {
                    None
                } else {
                    i128_to_usize(a - b)
                }
            },
            (IntValue::Unsigned(a), IntValue::Unsigned(b)) => unsigned_offset(a, b),
            (IntValue::Signed(a), IntValue::Unsigned(b)) => {
                if a < 0 {
                    None
                } else {
                    unsigned_offset(a as u128, b)
                }
            },
            (IntValue::Unsigned(a), IntValue::Signed(b)) => {
                if b >= 0 {
                    unsigned_offset(a, b as u128)
                } else {
                    // the distance is `a`, and one, and what `b` lies below -1
                    match (u128_to_usize(a), i128_to_usize(-(b + 1))) {
                        (Some(x), Some(y)) => {
                            if x <= usize::MAX - y && x + y < usize::MAX {
                                Some(x + y + 1)
                            } else {
                                None
                            }
                        },
                        _ => None,
                    }
                }
            },
        }
    }

    /// The hash code of an integer key with this value: the value reduced to
    /// 64 bits.
    pub fn code(&self) -> (h: u64)
        ensures
            h == int_code(self@),
    {
        match *self {
            IntValue::Signed(x) => i128_as_u64(x),
            IntValue::Unsigned(x) => u128_as_u64(x),
        }
    }
}

} // verus!
