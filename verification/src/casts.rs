//! Integer conversions made by the numeric helper crates.

use bitvec::macros::internal::funty::Fundamental;
use num_traits::AsPrimitive;
use num_traits::ToPrimitive;
use vstd::prelude::*;

verus! {

/// The hash code of an integer key: its value reduced to 64 bits.
pub open spec fn int_code(x: int) -> u64 {
    (x % 0x1_0000_0000_0000_0000) as u64
}

/// Calls `num_traits::AsPrimitive::<u64>::as_` on an `i128`, which is the
/// cast `as u64`: the result keeps the low 64 bits of the two's complement
/// form, that is the value modulo 2^64.
#[verifier::external_body]
pub(crate) fn i128_as_u64(x: i128) -> (r: u64)
    ensures
        r == int_code(x as int),
{
    AsPrimitive::<u64>::as_(x)
}

/// Calls `num_traits::ToPrimitive::to_usize` on an `i128`: `Some` of the same
/// value where it is not negative and fits in a `usize`, `None` otherwise.
#[verifier::external_body]
pub(crate) fn i128_to_usize(x: i128) -> (r: Option<usize>)
    ensures
        r == (if 0 <= x <= usize::MAX {
            Some(x as usize)
        } else {
            None
        }),
{
    ToPrimitive::to_usize(&x)
}

/// Calls `num_traits::AsPrimitive::<u64>::as_` on a `u128`, which is the
/// cast `as u64`: the result keeps the low 64 bits, that is the value modulo
/// 2^64.
#[verifier::external_body]
pub(crate) fn u128_as_u64(x: u128) -> (r: u64)
    ensures
        r == int_code(x as int),
{
    AsPrimitive::<u64>::as_(x)
}

/// Calls `num_traits::ToPrimitive::to_usize` on a `u128`: `Some` of the same
/// value where it fits in a `usize`, `None` otherwise.
#[verifier::external_body]
pub(crate) fn u128_to_usize(x: u128) -> (r: Option<usize>)
    ensures
        r == (if x <= usize::MAX {
            Some(x as usize)
        } else {
            None
        }),
{
    ToPrimitive::to_usize(&x)
}

/// Calls funty's `Fundamental::as_usize` on a `u64`, which is the cast
/// `as usize`: the value itself wherever it fits in a `usize`.
#[verifier::external_body]
pub(crate) fn u64_as_usize(x: u64) -> (r: usize)
    ensures
        x <= usize::MAX ==> r == x,
{
    Fundamental::as_usize(x)
}

/// Calls funty's `Fundamental::as_usize` on a `u8`, which is the cast
/// `as usize` and keeps the value.
#[verifier::external_body]
pub(crate) fn u8_as_usize(x: u8) -> (r: usize)
    ensures
        r == x,
{
    Fundamental::as_usize(x)
}

/// Calls funty's `Fundamental::as_usize` on a `u16`, which is the cast
/// `as usize` and keeps the value.
#[verifier::external_body]
pub(crate) fn u16_as_usize(x: u16) -> (r: usize)
    ensures
        r == x,
{
    Fundamental::as_usize(x)
}

} // verus!
