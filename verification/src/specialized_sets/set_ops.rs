//! Comparisons of two sets.

use crate::model::has_item;
use crate::specialized_sets::iterators::difference_order;
use crate::specialized_sets::iterators::intersection_order;
use crate::specialized_sets::iterators::symmetric_difference_order;
use crate::specialized_sets::iterators::union_order;
use crate::specialized_sets::iterators::Difference;
use crate::specialized_sets::iterators::Intersection;
use crate::specialized_sets::iterators::SymmetricDifference;
use crate::specialized_sets::iterators::Union;
use crate::specialized_sets::set::SetOps;
use crate::traits::key::Key;
use crate::traits::len::Len;
use vstd::prelude::*;

verus! {

/// Every one of `items` is held by `other`.
pub open spec fn all_in<T: View>(items: Seq<T>, other: Seq<T>) -> bool {
    forall|i: int| 0 <= i < items.len() ==> has_item(other, (#[trigger] items[i])@)
}

/// None of `items` is held by `other`.
pub open spec fn none_in<T: View>(items: Seq<T>, other: Seq<T>) -> bool {
    forall|i: int| 0 <= i < items.len() ==> !has_item(other, (#[trigger] items[i])@)
}

/// Whether `other` holds every item that `s` holds.
pub fn all_contained<S1, S2, T>(s1: &S1, s2: &S2) -> (b: bool) where
    S1: SetOps<T>,
    S2: SetOps<T>,
    T: Key,

    requires
        s1.valid(),
        s2.valid(),
    ensures
        b == all_in(s1.items(), s2.items()),
{
    let mut it = s1.iter();
    let ghost all = s1.items();
    let ghost mut seen: int = 0;
    loop
        invariant
            s2.valid(),
            all == s1.items(),
            0 <= seen <= all.len(),
            it.remaining() == all.subrange(seen, all.len() as int),
            forall|i: int| 0 <= i < seen ==> has_item(s2.items(), (#[trigger] all[i])@),
        decreases all.len() - seen,
    {
        match it.next() {
            Some(v) => {
                assert(*v == all[seen]);
                if !s2.contains(v) {
                    return false;
                }
                proof {
                    assert(all.subrange(seen, all.len() as int).drop_first() =~= all.subrange(
                        seen + 1,
                        all.len() as int,
                    ));
                    seen = seen + 1;
                }
            },
            None => {
                assert(seen == all.len());
                return true;
            },
        }
    }
}

/// Whether `other` holds no item that `s` holds.
pub fn none_contained<S1, S2, T>(s1: &S1, s2: &S2) -> (b: bool) where
    S1: SetOps<T>,
    S2: SetOps<T>,
    T: Key,

    requires
        s1.valid(),
        s2.valid(),
    ensures
        b == none_in(s1.items(), s2.items()),
{
    let mut it = s1.iter();
    let ghost all = s1.items();
    let ghost mut seen: int = 0;
    loop
        invariant
            s2.valid(),
            all == s1.items(),
            0 <= seen <= all.len(),
            it.remaining() == all.subrange(seen, all.len() as int),
            forall|i: int| 0 <= i < seen ==> !has_item(s2.items(), (#[trigger] all[i])@),
        decreases all.len() - seen,
    {
        match it.next() {
            Some(v) => {
                assert(*v == all[seen]);
                if s2.contains(v) {
                    return false;
                }
                proof {
                    assert(all.subrange(seen, all.len() as int).drop_first() =~= all.subrange(
                        seen + 1,
                        all.len() as int,
                    ));
                    seen = seen + 1;
                }
            },
            None => {
                assert(seen == all.len());
                return true;
            },
        }
    }
}

/// Returns `true` if `s1` has no items in common with `s2`.
pub fn is_disjoint<S1, S2, T>(s1: &S1, s2: &S2) -> (b: bool) where
    S1: SetOps<T>,
    S2: SetOps<T>,
    T: Key,

    requires
        s1.valid(),
        s2.valid(),
    ensures
        b == none_in(s1.items(), s2.items()),
{
    none_contained(s1, s2)
}

/// Returns `true` if `s1` is not longer than `s2` and `s2` contains all the
/// items of `s1`. For sets without repeated items that is: `s1` is a subset
/// of `s2`.
pub fn is_subset<S1, S2, T>(s1: &S1, s2: &S2) -> (b: bool) where
    S1: SetOps<T>,
    S2: SetOps<T>,
    T: Key,

    requires
        s1.valid(),
        s2.valid(),
    ensures
        b == (s1.items().len() <= s2.items().len() && all_in(s1.items(), s2.items())),
{
    proof {
        s1.lemma_len();
        s2.lemma_len();
    }
    if s1.len() <= s2.len() {
        all_contained(s1, s2)
    } else {
        false
    }
}

/// Returns `true` if `s2` is not longer than `s1` and `s1` contains all the
/// items of `s2`. For sets without repeated items that is: `s1` is a
/// superset of `s2`.
pub fn is_superset<S1, S2, T>(s1: &S1, s2: &S2) -> (b: bool) where
    S1: SetOps<T>,
    S2: SetOps<T>,
    T: Key,

    requires
        s1.valid(),
        s2.valid(),
    ensures
        b == (s2.items().len() <= s1.items().len() && all_in(s2.items(), s1.items())),
{
    proof {
        s1.lemma_len();
        s2.lemma_len();
    }
    if s2.len() <= s1.len() {
        all_contained(s2, s1)
    } else {
        false
    }
}

/// `copies` holds a clone of each of `items`, in their order.
pub open spec fn clones_of<T: Clone>(items: Seq<T>, copies: Seq<T>) -> bool {
    &&& copies.len() == items.len()
    &&& forall|i: int| 0 <= i < items.len() ==> cloned(items[i], #[trigger] copies[i])
}

/// Clones of the values of the union of two sets, in the order in which the
/// union is visited.
pub fn union_of<S1, S2, T>(s1: &S1, s2: &S2) -> (r: Vec<T>) where
    S1: SetOps<T>,
    S2: SetOps<T>,
    T: Key + Clone,

    requires
        s1.valid(),
        s2.valid(),
    ensures
        clones_of(union_order(s1.items(), s2.items()), r@),
{
    let mut cursor = Union::new(s1, s2);
    let ghost all = cursor.remaining();
    let mut out: Vec<T> = Vec::new();
    assert(all.subrange(0, all.len() as int) =~= all);
    loop
        invariant
            cursor.wf(),
            out@.len() <= all.len(),
            cursor.remaining() == all.subrange(out@.len() as int, all.len() as int),
            forall|i: int| 0 <= i < out@.len() ==> cloned(all[i], #[trigger] out@[i]),
            all == union_order(s1.items(), s2.items()),
        decreases cursor.remaining().len(),
    {
        let ghost before = cursor.remaining();
        match cursor.next() {
            Some(item) => {
                assert(*item == all[out@.len() as int]);
                out.push(item.clone());
                assert(before.drop_first() =~= all.subrange(out@.len() as int, all.len() as int));
            },
            None => {
                return out;
            },
        }
    }
}

/// Clones of the values of the intersection of two sets, in the order in
/// which the intersection is visited.
pub fn intersection_of<S1, S2, T>(s1: &S1, s2: &S2) -> (r: Vec<T>) where
    S1: SetOps<T>,
    S2: SetOps<T>,
    T: Key + Clone,

    requires
        s1.valid(),
        s2.valid(),
    ensures
        clones_of(intersection_order(s1.items(), s2.items()), r@),
{
    let mut cursor = Intersection::new(s1, s2);
    let ghost all = cursor.remaining();
    let mut out: Vec<T> = Vec::new();
    assert(all.subrange(0, all.len() as int) =~= all);
    loop
        invariant
            cursor.wf(),
            out@.len() <= all.len(),
            cursor.remaining() == all.subrange(out@.len() as int, all.len() as int),
            forall|i: int| 0 <= i < out@.len() ==> cloned(all[i], #[trigger] out@[i]),
            all == intersection_order(s1.items(), s2.items()),
        decreases cursor.remaining().len(),
    {
        let ghost before = cursor.remaining();
        match cursor.next() {
            Some(item) => {
                assert(*item == all[out@.len() as int]);
                out.push(item.clone());
                assert(before.drop_first() =~= all.subrange(out@.len() as int, all.len() as int));
            },
            None => {
                return out;
            },
        }
    }
}

/// Clones of the values of the difference of two sets, in the order in which
/// the difference is visited.
pub fn difference_of<S1, S2, T>(s1: &S1, s2: &S2) -> (r: Vec<T>) where
    S1: SetOps<T>,
    S2: SetOps<T>,
    T: Key + Clone,

    requires
        s1.valid(),
        s2.valid(),
    ensures
        clones_of(difference_order(s1.items(), s2.items()), r@),
{
    let mut cursor = Difference::new(s1, s2);
    let ghost all = cursor.remaining();
    let mut out: Vec<T> = Vec::new();
    assert(all.subrange(0, all.len() as int) =~= all);
    loop
        invariant
            cursor.wf(),
            out@.len() <= all.len(),
            cursor.remaining() == all.subrange(out@.len() as int, all.len() as int),
            forall|i: int| 0 <= i < out@.len() ==> cloned(all[i], #[trigger] out@[i]),
            all == difference_order(s1.items(), s2.items()),
        decreases cursor.remaining().len(),
    {
        let ghost before = cursor.remaining();
        match cursor.next() {
            Some(item) => {
                assert(*item == all[out@.len() as int]);
                out.push(item.clone());
                assert(before.drop_first() =~= all.subrange(out@.len() as int, all.len() as int));
            },
            None => {
                return out;
            },
        }
    }
}

/// Clones of the values of the symmetric difference of two sets, in the order
/// in which the symmetric difference is visited.
pub fn symmetric_difference_of<S1, S2, T>(s1: &S1, s2: &S2) -> (r: Vec<T>) where
    S1: SetOps<T>,
    S2: SetOps<T>,
    T: Key + Clone,

    requires
        s1.valid(),
        s2.valid(),
    ensures
        clones_of(symmetric_difference_order(s1.items(), s2.items()), r@),
{
    let mut cursor = SymmetricDifference::new(s1, s2);
    let ghost all = cursor.remaining();
    let mut out: Vec<T> = Vec::new();
    assert(all.subrange(0, all.len() as int) =~= all);
    loop
        invariant
            cursor.wf(),
            out@.len() <= all.len(),
            cursor.remaining() == all.subrange(out@.len() as int, all.len() as int),
            forall|i: int| 0 <= i < out@.len() ==> cloned(all[i], #[trigger] out@[i]),
            all == symmetric_difference_order(s1.items(), s2.items()),
        decreases cursor.remaining().len(),
    {
        let ghost before = cursor.remaining();
        match cursor.next() {
            Some(item) => {
                assert(*item == all[out@.len() as int]);
                out.push(item.clone());
                assert(before.drop_first() =~= all.subrange(out@.len() as int, all.len() as int));
            },
            None => {
                return out;
            },
        }
    }
}

} // verus!
