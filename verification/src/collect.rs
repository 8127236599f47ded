//! Conversions between arrays, vectors and iterators made by the standard
//! library.

use vstd::prelude::*;
use vstd::std_specs::iter::IteratorSpec;

verus! {

/// `Range::clone` makes a range from clones of the two bounds. Nothing is
/// promised of it here: the library only moves the clone on.
pub assume_specification<Idx: Clone>[ <std::ops::Range<Idx> as Clone>::clone ](
    bounds: &std::ops::Range<Idx>,
) -> std::ops::Range<Idx>
;

/// Calls `Vec::from` on an array: the vector takes over the items of the
/// array, in their order.
#[verifier::external_body]
pub(crate) fn vec_from_array<T, const N: usize>(items: [T; N]) -> (r: Vec<T>)
    ensures
        r@ == items@,
{
    Vec::from(items)
}

/// Calls `<[T; N]>::try_from` on a vector: the array of the items of the
/// vector, in their order, where the vector has exactly `N` items, and the
/// vector handed back otherwise.
#[verifier::external_body]
pub(crate) fn array_from_vec<T, const N: usize>(items: Vec<T>) -> (r: Result<[T; N], Vec<T>>)
    ensures
        r is Ok == (items@.len() == N),
        r matches Ok(a) ==> a@ == items@,
        r matches Err(v) ==> v == items,
{
    <[T; N]>::try_from(items)
}

/// Calls `Vec::from_iter`, which collects the items that the iterator yields
/// into a vector, in their order. Of an iterator that keeps the laws of
/// iterators and comes to an end, those are the items that remain to it; of
/// any other iterator nothing is promised.
#[verifier::external_body]
pub(crate) fn vec_from_iter<T, I: Iterator<Item = T>>(iter: I) -> (r: Vec<T>)
    ensures
        iter.obeys_prophetic_iter_laws() && iter.will_return_none() ==> r@ == iter.remaining(),
{
    Vec::from_iter(iter)
}

} // verus!
