//! Cursors over the items of a set, and over what two sets have in common
//! or not.

use crate::model::has_item;
use crate::model::keys_of;
use crate::specialized_sets::set::SetOps;
use crate::traits::key::Key;
use crate::traits::len::Len;
use vstd::prelude::*;

verus! {

/// A cursor over the items of a set.
pub struct Iter<'a, T> {
    entries: &'a [(T, ())],
    index: usize,
}

impl<'a, T> Iter<'a, T> {
    #[verifier::type_invariant]
    spec fn in_bounds(self) -> bool {
        self.index <= self.entries@.len()
    }

    /// The items that are still to come, in order.
    pub closed spec fn remaining(&self) -> Seq<T> {
        keys_of(self.entries@.subrange(self.index as int, self.entries@.len() as int))
    }

    /// A cursor at the first of the items of `entries`.
    pub fn new(entries: &'a [(T, ())]) -> (r: Self)
        ensures
            r.remaining() == keys_of(entries@),
    {
        let r = Iter { entries, index: 0 };
        assert(r.remaining() =~= keys_of(entries@));
        r
    }

    /// Returns the next item and moves past it; `None` at the end.
    pub fn next(&mut self) -> (r: Option<&'a T>)
        ensures
            old(self).remaining().len() == 0 ==> r is None,
            old(self).remaining().len() == 0 ==> final(self).remaining() == old(self).remaining(),
            old(self).remaining().len() > 0 ==> r == Some(&old(self).remaining()[0]),
            old(self).remaining().len() > 0 ==> final(self).remaining()
                == old(self).remaining().drop_first(),
    {
        proof {
            use_type_invariant(&*self);
        }
        if self.index < self.entries.len() {
            let entry = &self.entries[self.index];
            self.index += 1;
            assert(self.remaining() =~= old(self).remaining().drop_first());
            Some(&entry.0)
        } else {
            None
        }
    }

    /// The number of items still to come.
    pub fn len(&self) -> (n: usize)
        ensures
            n == self.remaining().len(),
    {
        proof {
            use_type_invariant(self);
        }
        self.entries.len() - self.index
    }

    /// The bounds on the number of items still to come: both are that number.
    pub fn size_hint(&self) -> (r: (usize, Option<usize>))
        ensures
            r.0 == self.remaining().len(),
            r.1 == Some(r.0),
    {
        (self.len(), Some(self.len()))
    }

    /// Consumes the cursor and returns the number of items that were still to
    /// come.
    pub fn count(self) -> (n: usize)
        ensures
            n == self.remaining().len(),
    {
        self.len()
    }

    /// A second cursor at the same place.
    pub fn duplicate(&self) -> (r: Self)
        ensures
            r.remaining() == self.remaining(),
    {
        proof {
            use_type_invariant(self);
        }
        Iter { entries: self.entries, index: self.index }
    }
}

/// The test that keeps the items which `other` holds, or, with `wanted`
/// false, those which it does not hold.
pub open spec fn holding<T: View>(other: Seq<T>, wanted: bool) -> spec_fn(T) -> bool {
    |x: T| has_item(other, x@) == wanted
}

/// Moves the cursor to the next item that `other` holds, or, with `wanted`
/// false, does not hold; returns that item and moves past it.
pub fn next_where<'a, S, T>(iter: &mut Iter<'a, T>, other: &S, wanted: bool) -> (r: Option<
    &'a T,
>) where S: SetOps<T>, T: Key
    requires
        other.valid(),
    ensures
        ({
            let kept = old(iter).remaining().filter(holding(other.items(), wanted));
            &&& kept.len() == 0 ==> r is None && final(iter).remaining().len() == 0
            &&& kept.len() > 0 ==> r == Some(&kept[0]) && final(iter).remaining().filter(
                holding(other.items(), wanted),
            ) == kept.drop_first()
        }),
{
    let ghost f = holding(other.items(), wanted);
    let ghost kept = iter.remaining().filter(f);
    loop
        invariant
            other.valid(),
            f == holding(other.items(), wanted),
            kept == old(iter).remaining().filter(f),
            iter.remaining().filter(f) == kept,
        decreases iter.remaining().len(),
    {
        let ghost before = iter.remaining();
        match iter.next() {
            Some(item) => {
                proof {
                    assert(before =~= seq![*item] + before.drop_first());
                    before.drop_first().lemma_filter_prepend(*item, f);
                }
                if other.contains(item) == wanted {
                    assert(kept =~= seq![*item] + before.drop_first().filter(f));
                    assert(kept.drop_first() =~= before.drop_first().filter(f));
                    return Some(item);
                }
                assert(kept =~= Seq::<T>::empty() + before.drop_first().filter(f));
            },
            None => {
                proof {
                    before.lemma_filter_len(f);
                }
                return None;
            },
        }
    }
}

/// The order in which the union of two sets is visited: all of the longer
/// set, then the items of the other that the longer one does not hold. Of two
/// sets of one length the second counts as the longer.
pub open spec fn union_order<T: View>(a: Seq<T>, b: Seq<T>) -> Seq<T> {
    if a.len() > b.len() {
        a + b.filter(holding(a, false))
    } else {
        b + a.filter(holding(b, false))
    }
}

/// The order in which the symmetric difference of two sets is visited: the
/// items of the first that the second does not hold, then the items of the
/// second that the first does not hold.
pub open spec fn symmetric_difference_order<T: View>(a: Seq<T>, b: Seq<T>) -> Seq<T> {
    a.filter(holding(b, false)) + b.filter(holding(a, false))
}

/// The order in which the difference of two sets is visited: the items of the
/// first that the second does not hold.
pub open spec fn difference_order<T: View>(a: Seq<T>, b: Seq<T>) -> Seq<T> {
    a.filter(holding(b, false))
}

/// The order in which the intersection of two sets is visited: the items of
/// the shorter set that the other holds. Of two sets of one length the second
/// counts as the shorter.
pub open spec fn intersection_order<T: View>(a: Seq<T>, b: Seq<T>) -> Seq<T> {
    if a.len() < b.len() {
        a.filter(holding(b, true))
    } else {
        b.filter(holding(a, true))
    }
}

/// The sum of two lengths, where it is a `usize`.
pub fn checked_sum(a: usize, b: usize) -> (r: Option<usize>)
    ensures
        a + b <= usize::MAX ==> r == Some((a + b) as usize),
        a + b > usize::MAX ==> r is None,
{
    if a <= usize::MAX - b {
        Some(a + b)
    } else {
        None
    }
}

/// A cursor over the union of two sets.
pub struct Union<'a, S1, S2, T> where S1: SetOps<T>, S2: SetOps<T>, T: Key {
    s1: &'a S1,
    s1_iter: Iter<'a, T>,
    s2: &'a S2,
    s2_iter: Iter<'a, T>,
}

impl<'a, S1, S2, T> Union<'a, S1, S2, T> where S1: SetOps<T>, S2: SetOps<T>, T: Key {
    /// Both sets are well formed.
    pub closed spec fn wf(&self) -> bool {
        self.s1.valid() && self.s2.valid()
    }

    /// The items that are still to come, in order.
    pub closed spec fn remaining(&self) -> Seq<T> {
        if self.s1.items().len() > self.s2.items().len() {
            self.s1_iter.remaining() + self.s2_iter.remaining().filter(
                holding(self.s1.items(), false),
            )
        } else {
            self.s2_iter.remaining() + self.s1_iter.remaining().filter(
                holding(self.s2.items(), false),
            )
        }
    }

    /// The lengths of the two sets.
    pub closed spec fn lengths(&self) -> (nat, nat) {
        (self.s1.items().len(), self.s2.items().len())
    }

    /// A cursor at the first item of the union of `s1` and `s2`.
    pub fn new(s1: &'a S1, s2: &'a S2) -> (r: Self)
        requires
            s1.valid(),
            s2.valid(),
        ensures
            r.wf(),
            r.remaining() == union_order(s1.items(), s2.items()),
            r.lengths() == (s1.items().len(), s2.items().len()),
    {
        Union { s1_iter: s1.iter(), s1, s2_iter: s2.iter(), s2 }
    }

    /// Returns the next item and moves past it; `None` at the end.
    pub fn next(&mut self) -> (r: Option<&'a T>)
        requires
            old(self).wf(),
        ensures
            final(self).wf(),
            final(self).lengths() == old(self).lengths(),
            old(self).remaining().len() == 0 ==> r is None,
            old(self).remaining().len() == 0 ==> final(self).remaining() == old(self).remaining(),
            old(self).remaining().len() > 0 ==> r == Some(&old(self).remaining()[0]),
            old(self).remaining().len() > 0 ==> final(self).remaining()
                == old(self).remaining().drop_first(),
    {
        proof {
            self.s1.lemma_len();
            self.s2.lemma_len();
        }
        if self.s1.len() > self.s2.len() {
            let item = self.s1_iter.next();
            if item.is_some() {
                assert(self.remaining() =~= old(self).remaining().drop_first());
                return item;
            }
            let item = next_where(&mut self.s2_iter, self.s1, false);
            proof {
                self.s2_iter.remaining().lemma_filter_len(holding(self.s1.items(), false));
                assert(self.remaining() =~= self.s2_iter.remaining().filter(
                    holding(self.s1.items(), false),
                ));
                assert(old(self).remaining() =~= old(self).s2_iter.remaining().filter(
                    holding(self.s1.items(), false),
                ));
            }
            item
        } else {
            let item = self.s2_iter.next();
            if item.is_some() {
                assert(self.remaining() =~= old(self).remaining().drop_first());
                return item;
            }
            let item = next_where(&mut self.s1_iter, self.s2, false);
            proof {
                self.s1_iter.remaining().lemma_filter_len(holding(self.s2.items(), false));
                assert(self.remaining() =~= self.s1_iter.remaining().filter(
                    holding(self.s2.items(), false),
                ));
                assert(old(self).remaining() =~= old(self).s1_iter.remaining().filter(
                    holding(self.s2.items(), false),
                ));
            }
            item
        }
    }

    /// The bounds on the number of items of the union: the length of the first
    /// set, and the sum of both lengths where it is a `usize`.
    pub fn size_hint(&self) -> (r: (usize, Option<usize>))
        ensures
            r.0 == self.lengths().0,
            self.lengths().0 + self.lengths().1 <= usize::MAX ==> r.1 == Some(
                (self.lengths().0 + self.lengths().1) as usize,
            ),
            self.lengths().0 + self.lengths().1 > usize::MAX ==> r.1 is None,
    {
        proof {
            self.s1.lemma_len();
            self.s2.lemma_len();
        }
        (self.s1.len(), checked_sum(self.s1.len(), self.s2.len()))
    }
}

/// A cursor over the symmetric difference of two sets.
pub struct SymmetricDifference<'a, S1, S2, T> where S1: SetOps<T>, S2: SetOps<T>, T: Key {
    s1: &'a S1,
    s1_iter: Iter<'a, T>,
    s2: &'a S2,
    s2_iter: Iter<'a, T>,
}

impl<'a, S1, S2, T> SymmetricDifference<'a, S1, S2, T> where
    S1: SetOps<T>,
    S2: SetOps<T>,
    T: Key,
 {
    /// Both sets are well formed.
    pub closed spec fn wf(&self) -> bool {
        self.s1.valid() && self.s2.valid()
    }

    /// The items that are still to come, in order.
    pub closed spec fn remaining(&self) -> Seq<T> {
        self.s1_iter.remaining().filter(holding(self.s2.items(), false))
            + self.s2_iter.remaining().filter(holding(self.s1.items(), false))
    }

    /// The lengths of the two sets.
    pub closed spec fn lengths(&self) -> (nat, nat) {
        (self.s1.items().len(), self.s2.items().len())
    }

    /// A cursor at the first item of the symmetric difference of `s1` and
    /// `s2`.
    pub fn new(s1: &'a S1, s2: &'a S2) -> (r: Self)
        requires
            s1.valid(),
            s2.valid(),
        ensures
            r.wf(),
            r.remaining() == symmetric_difference_order(s1.items(), s2.items()),
            r.lengths() == (s1.items().len(), s2.items().len()),
    {
        SymmetricDifference { s1_iter: s1.iter(), s1, s2_iter: s2.iter(), s2 }
    }

    /// Returns the next item and moves past it; `None` at the end.
    pub fn next(&mut self) -> (r: Option<&'a T>)
        requires
            old(self).wf(),
        ensures
            final(self).wf(),
            final(self).lengths() == old(self).lengths(),
            old(self).remaining().len() == 0 ==> r is None,
            old(self).remaining().len() == 0 ==> final(self).remaining() == old(self).remaining(),
            old(self).remaining().len() > 0 ==> r == Some(&old(self).remaining()[0]),
            old(self).remaining().len() > 0 ==> final(self).remaining()
                == old(self).remaining().drop_first(),
    {
        let item = next_where(&mut self.s1_iter, self.s2, false);
        if item.is_some() {
            assert(self.remaining() =~= old(self).remaining().drop_first());
            return item;
        }
        proof {
            self.s1_iter.remaining().lemma_filter_len(holding(self.s2.items(), false));
        }
        let item = next_where(&mut self.s2_iter, self.s1, false);
        proof {
            self.s2_iter.remaining().lemma_filter_len(holding(self.s1.items(), false));
            assert(self.remaining() =~= self.s2_iter.remaining().filter(
                holding(self.s1.items(), false),
            ));
            assert(old(self).remaining() =~= old(self).s2_iter.remaining().filter(
                holding(self.s1.items(), false),
            ));
        }
        item
    }

    /// The bounds on the number of items of the symmetric difference: zero,
    /// and the sum of both lengths where it is a `usize`.
    pub fn size_hint(&self) -> (r: (usize, Option<usize>))
        ensures
            r.0 == 0,
            self.lengths().0 + self.lengths().1 <= usize::MAX ==> r.1 == Some(
                (self.lengths().0 + self.lengths().1) as usize,
            ),
            self.lengths().0 + self.lengths().1 > usize::MAX ==> r.1 is None,
    {
        proof {
            self.s1.lemma_len();
            self.s2.lemma_len();
        }
        (0, checked_sum(self.s1.len(), self.s2.len()))
    }
}

/// A cursor over the difference of two sets.
pub struct Difference<'a, S1, S2, T> where S1: SetOps<T>, S2: SetOps<T>, T: Key {
    s1: &'a S1,
    s1_iter: Iter<'a, T>,
    s2: &'a S2,
}

impl<'a, S1, S2, T> Difference<'a, S1, S2, T> where S1: SetOps<T>, S2: SetOps<T>, T: Key {
    /// Both sets are well formed.
    pub closed spec fn wf(&self) -> bool {
        self.s1.valid() && self.s2.valid()
    }

    /// The items that are still to come, in order.
    pub closed spec fn remaining(&self) -> Seq<T> {
        self.s1_iter.remaining().filter(holding(self.s2.items(), false))
    }

    /// The lengths of the two sets.
    pub closed spec fn lengths(&self) -> (nat, nat) {
        (self.s1.items().len(), self.s2.items().len())
    }

    /// A cursor at the first item of the difference of `s1` and `s2`.
    pub fn new(s1: &'a S1, s2: &'a S2) -> (r: Self)
        requires
            s1.valid(),
            s2.valid(),
        ensures
            r.wf(),
            r.remaining() == difference_order(s1.items(), s2.items()),
            r.lengths() == (s1.items().len(), s2.items().len()),
    {
        Difference { s1_iter: s1.iter(), s1, s2 }
    }

    /// Returns the next item and moves past it; `None` at the end.
    pub fn next(&mut self) -> (r: Option<&'a T>)
        requires
            old(self).wf(),
        ensures
            final(self).wf(),
            final(self).lengths() == old(self).lengths(),
            old(self).remaining().len() == 0 ==> r is None,
            old(self).remaining().len() == 0 ==> final(self).remaining() == old(self).remaining(),
            old(self).remaining().len() > 0 ==> r == Some(&old(self).remaining()[0]),
            old(self).remaining().len() > 0 ==> final(self).remaining()
                == old(self).remaining().drop_first(),
    {
        let item = next_where(&mut self.s1_iter, self.s2, false);
        proof {
            self.s1_iter.remaining().lemma_filter_len(holding(self.s2.items(), false));
            assert(item is None ==> self.remaining() =~= old(self).remaining());
        }
        item
    }

    /// The bounds on the number of items of the difference: zero, and the
    /// length of the first set.
    pub fn size_hint(&self) -> (r: (usize, Option<usize>))
        ensures
            r.0 == 0,
            r.1 == Some(self.lengths().0 as usize),
    {
        proof {
            self.s1.lemma_len();
        }
        (0, Some(self.s1.len()))
    }
}

/// A cursor over the intersection of two sets.
pub struct Intersection<'a, S1, S2, T> where S1: SetOps<T>, S2: SetOps<T>, T: Key {
    s1: &'a S1,
    s1_iter: Iter<'a, T>,
    s2: &'a S2,
    s2_iter: Iter<'a, T>,
}

impl<'a, S1, S2, T> Intersection<'a, S1, S2, T> where S1: SetOps<T>, S2: SetOps<T>, T: Key {
    /// Both sets are well formed.
    pub closed spec fn wf(&self) -> bool {
        self.s1.valid() && self.s2.valid()
    }

    /// The items that are still to come, in order.
    pub closed spec fn remaining(&self) -> Seq<T> {
        if self.s1.items().len() < self.s2.items().len() {
            self.s1_iter.remaining().filter(holding(self.s2.items(), true))
        } else {
            self.s2_iter.remaining().filter(holding(self.s1.items(), true))
        }
    }

    /// The lengths of the two sets.
    pub closed spec fn lengths(&self) -> (nat, nat) {
        (self.s1.items().len(), self.s2.items().len())
    }

    /// A cursor at the first item of the intersection of `s1` and `s2`.
    pub fn new(s1: &'a S1, s2: &'a S2) -> (r: Self)
        requires
            s1.valid(),
            s2.valid(),
        ensures
            r.wf(),
            r.remaining() == intersection_order(s1.items(), s2.items()),
            r.lengths() == (s1.items().len(), s2.items().len()),
    {
        Intersection { s1_iter: s1.iter(), s1, s2_iter: s2.iter(), s2 }
    }

    /// Returns the next item and moves past it; `None` at the end.
    pub fn next(&mut self) -> (r: Option<&'a T>)
        requires
            old(self).wf(),
        ensures
            final(self).wf(),
            final(self).lengths() == old(self).lengths(),
            old(self).remaining().len() == 0 ==> r is None,
            old(self).remaining().len() == 0 ==> final(self).remaining() == old(self).remaining(),
            old(self).remaining().len() > 0 ==> r == Some(&old(self).remaining()[0]),
            old(self).remaining().len() > 0 ==> final(self).remaining()
                == old(self).remaining().drop_first(),
    {
        proof {
            self.s1.lemma_len();
            self.s2.lemma_len();
        }
        if self.s1.len() < self.s2.len() {
            let item = next_where(&mut self.s1_iter, self.s2, true);
            proof {
                self.s1_iter.remaining().lemma_filter_len(holding(self.s2.items(), true));
                assert(item is None ==> self.remaining() =~= old(self).remaining());
            }
            item
        } else {
            let item = next_where(&mut self.s2_iter, self.s1, true);
            proof {
                self.s2_iter.remaining().lemma_filter_len(holding(self.s1.items(), true));
                assert(item is None ==> self.remaining() =~= old(self).remaining());
            }
            item
        }
    }

    /// The bounds on the number of items of the intersection: zero, and the
    /// greater of the two lengths.
    pub fn size_hint(&self) -> (r: (usize, Option<usize>))
        ensures
            r.0 == 0,
            r.1 == Some(
                (if self.lengths().0 >= self.lengths().1 {
                    self.lengths().0
                } else {
                    self.lengths().1
                }) as usize,
            ),
    {
        proof {
            self.s1.lemma_len();
            self.s2.lemma_len();
        }
        let a = self.s1.len();
        let b = self.s2.len();
        if a >= b {
            (0, Some(a))
        } else {
            (0, Some(b))
        }
    }
}

} // verus!
