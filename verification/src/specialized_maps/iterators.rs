//! Cursors over the entries of a map.

use crate::model::keys_of;
use crate::model::values_of;
use vstd::prelude::*;

verus! {

/// A cursor over the entries of a map.
pub struct Iter<'a, K, V> {
    entries: &'a [(K, V)],
    index: usize,
}

impl<'a, K, V> Iter<'a, K, V> {
    #[verifier::type_invariant]
    spec fn in_bounds(self) -> bool {
        self.index <= self.entries@.len()
    }

    /// The entries that are still to come, in order.
    pub closed spec fn remaining(&self) -> Seq<(K, V)> {
        self.entries@.subrange(self.index as int, self.entries@.len() as int)
    }

    /// A cursor at the first of `entries`.
    pub fn new(entries: &'a [(K, V)]) -> (r: Self)
        ensures
            r.remaining() == entries@,
    {
        let r = Iter { entries, index: 0 };
        assert(r.remaining() =~= entries@);
        r
    }

    /// Returns the next entry and moves past it; `None` at the end.
    pub fn next(&mut self) -> (r: Option<(&'a K, &'a V)>)
        ensures
            old(self).remaining().len() == 0 ==> r is None,
            old(self).remaining().len() == 0 ==> final(self).remaining() == old(self).remaining(),
            old(self).remaining().len() > 0 ==> r == Some(
                (&old(self).remaining()[0].0, &old(self).remaining()[0].1),
            ) && final(self).remaining() == old(self).remaining().drop_first(),
    {
        proof {
            use_type_invariant(&*self);
        }
        if self.index < self.entries.len() {
            let entry = &self.entries[self.index];
            self.index += 1;
            assert(self.remaining() =~= old(self).remaining().drop_first());
            Some((&entry.0, &entry.1))
        } else {
            None
        }
    }

    /// The number of entries still to come.
    pub fn len(&self) -> (n: usize)
        ensures
            n == self.remaining().len(),
    {
        proof {
            use_type_invariant(self);
        }
        self.entries.len() - self.index
    }

    /// The bounds on the number of entries still to come: both are that number.
    pub fn size_hint(&self) -> (r: (usize, Option<usize>))
        ensures
            r.0 == self.remaining().len(),
            r.1 == Some(r.0),
    {
        (self.len(), Some(self.len()))
    }

    /// Consumes the cursor and returns the number of entries that were still
    /// to come.
    pub fn count(self) -> (n: usize)
        ensures
            n == self.remaining().len(),
    {
        self.len()
    }

    /// A second cursor at the same place.
    pub fn duplicate(&self) -> (r: Self)
        ensures
            r.remaining() == self.remaining(),
    {
        proof {
            use_type_invariant(self);
        }
        Iter { entries: self.entries, index: self.index }
    }
}

/// A cursor over the keys of a map.
pub struct Keys<'a, K, V> {
    inner: Iter<'a, K, V>,
}

impl<'a, K, V> Keys<'a, K, V> {
    /// The keys that are still to come, in order.
    pub closed spec fn remaining(&self) -> Seq<K> {
        keys_of(self.inner.remaining())
    }

    /// A cursor at the key of the first of `entries`.
    pub fn new(entries: &'a [(K, V)]) -> (r: Self)
        ensures
            r.remaining() == keys_of(entries@),
    {
        Keys { inner: Iter::new(entries) }
    }

    /// Returns the next key and moves past it; `None` at the end.
    pub fn next(&mut self) -> (r: Option<&'a K>)
        ensures
            old(self).remaining().len() == 0 ==> r is None,
            old(self).remaining().len() == 0 ==> final(self).remaining() == old(self).remaining(),
            old(self).remaining().len() > 0 ==> r == Some(&old(self).remaining()[0]),
            old(self).remaining().len() > 0 ==> final(self).remaining()
                == old(self).remaining().drop_first(),
    {
        let next = self.inner.next();
        assert(self.remaining() =~= if old(self).remaining().len() == 0 {
            old(self).remaining()
        } else {
            old(self).remaining().drop_first()
        });
        match next {
            Some((k, _)) => Some(k),
            None => None,
        }
    }

    /// The number of keys still to come.
    pub fn len(&self) -> (n: usize)
        ensures
            n == self.remaining().len(),
    {
        self.inner.len()
    }

    /// The bounds on the number of keys still to come: both are that number.
    pub fn size_hint(&self) -> (r: (usize, Option<usize>))
        ensures
            r.0 == self.remaining().len(),
            r.1 == Some(r.0),
    {
        self.inner.size_hint()
    }

    /// Consumes the cursor and returns the number of keys that were still to
    /// come.
    pub fn count(self) -> (n: usize)
        ensures
            n == self.remaining().len(),
    {
        self.inner.len()
    }

    /// A second cursor at the same place.
    pub fn duplicate(&self) -> (r: Self)
        ensures
            r.remaining() == self.remaining(),
    {
        Keys { inner: self.inner.duplicate() }
    }
}

/// A cursor over the values of a map.
pub struct Values<'a, K, V> {
    inner: Iter<'a, K, V>,
}

impl<'a, K, V> Values<'a, K, V> {
    /// The values that are still to come, in order.
    pub closed spec fn remaining(&self) -> Seq<V> {
        values_of(self.inner.remaining())
    }

    /// A cursor at the value of the first of `entries`.
    pub fn new(entries: &'a [(K, V)]) -> (r: Self)
        ensures
            r.remaining() == values_of(entries@),
    {
        Values { inner: Iter::new(entries) }
    }

    /// Returns the next value and moves past it; `None` at the end.
    pub fn next(&mut self) -> (r: Option<&'a V>)
        ensures
            old(self).remaining().len() == 0 ==> r is None,
            old(self).remaining().len() == 0 ==> final(self).remaining() == old(self).remaining(),
            old(self).remaining().len() > 0 ==> r == Some(&old(self).remaining()[0]),
            old(self).remaining().len() > 0 ==> final(self).remaining()
                == old(self).remaining().drop_first(),
    {
        let next = self.inner.next();
        assert(self.remaining() =~= if old(self).remaining().len() == 0 {
            old(self).remaining()
        } else {
            old(self).remaining().drop_first()
        });
        match next {
            Some((_, v)) => Some(v),
            None => None,
        }
    }

    /// The number of values still to come.
    pub fn len(&self) -> (n: usize)
        ensures
            n == self.remaining().len(),
    {
        self.inner.len()
    }

    /// The bounds on the number of values still to come: both are that number.
    pub fn size_hint(&self) -> (r: (usize, Option<usize>))
        ensures
            r.0 == self.remaining().len(),
            r.1 == Some(r.0),
    {
        self.inner.size_hint()
    }

    /// Consumes the cursor and returns the number of values that were still
    /// to come.
    pub fn count(self) -> (n: usize)
        ensures
            n == self.remaining().len(),
    {
        self.inner.len()
    }

    /// A second cursor at the same place.
    pub fn duplicate(&self) -> (r: Self)
        ensures
            r.remaining() == self.remaining(),
    {
        Values { inner: self.inner.duplicate() }
    }
}

} // verus!
