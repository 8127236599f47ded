//! What every set of the library offers.

use crate::model::has_item;
use crate::model::keys_of;
use crate::model::unit_entries;
use crate::specialized_sets::iterators::Iter;
use crate::traits::key::Key;
use crate::traits::len::Len;
use vstd::prelude::*;

verus! {

/// A read-only set: it can be walked and asked whether it holds a value.
pub trait SetOps<T: Key>: Len {
    /// The items of the set, in the order in which they are visited.
    spec fn items(&self) -> Seq<T>;

    /// The set is well formed.
    spec fn valid(&self) -> bool;

    /// A cursor over all items, in the order of the set.
    fn iter(&self) -> (r: Iter<'_, T>)
        ensures
            r.remaining() == self.items(),
    ;

    /// Returns `true` if the set contains the value.
    fn contains(&self, value: &T) -> (b: bool)
        requires
            self.valid(),
        ensures
            b == has_item(self.items(), value@),
    ;

    /// The length of the set is the number of its items.
    proof fn lemma_len(&self)
        ensures
            self.spec_len() == self.items().len(),
    ;
}

/// Pairs each item with the unit value, in order: the entries of the map
/// behind a set.
pub fn pair_with_unit<T>(payload: Vec<T>) -> (r: Vec<(T, ())>)
    ensures
        r@ == unit_entries(payload@),
{
    let ghost orig = payload@;
    let mut payload = payload;
    let mut reversed: Vec<T> = Vec::new();
    while payload.len() > 0
        invariant
            payload@.len() + reversed@.len() == orig.len(),
            payload@ == orig.subrange(0, payload@.len() as int),
            forall|i: int|
                0 <= i < reversed@.len() ==> #[trigger] reversed@[i] == orig[orig.len() - 1 - i],
        decreases payload@.len(),
    {
        let item = payload.pop().unwrap();
        reversed.push(item);
    }
    let mut entries: Vec<(T, ())> = Vec::new();
    while reversed.len() > 0
        invariant
            entries@.len() + reversed@.len() == orig.len(),
            forall|i: int|
                0 <= i < reversed@.len() ==> #[trigger] reversed@[i] == orig[orig.len() - 1 - i],
            forall|i: int| 0 <= i < entries@.len() ==> #[trigger] entries@[i] == (orig[i], ()),
        decreases reversed@.len(),
    {
        let item = reversed.pop().unwrap();
        entries.push((item, ()));
    }
    assert(entries@ =~= unit_entries(orig));
    entries
}

/// Takes the unit value off each entry, in order: the items of a set from
/// the entries of the map behind it.
pub fn strip_unit<T>(entries: Vec<(T, ())>) -> (r: Vec<T>)
    ensures
        r@ == keys_of(entries@),
{
    let ghost orig = entries@;
    let mut entries = entries;
    let mut reversed: Vec<T> = Vec::new();
    while entries.len() > 0
        invariant
            entries@.len() + reversed@.len() == orig.len(),
            entries@ == orig.subrange(0, entries@.len() as int),
            forall|i: int|
                0 <= i < reversed@.len() ==> #[trigger] reversed@[i] == orig[orig.len() - 1 - i].0,
        decreases entries@.len(),
    {
        let (item, _) = entries.pop().unwrap();
        reversed.push(item);
    }
    let mut items: Vec<T> = Vec::new();
    while reversed.len() > 0
        invariant
            items@.len() + reversed@.len() == orig.len(),
            forall|i: int|
                0 <= i < reversed@.len() ==> #[trigger] reversed@[i] == orig[orig.len() - 1 - i].0,
            forall|i: int| 0 <= i < items@.len() ==> #[trigger] items@[i] == orig[i].0,
        decreases reversed@.len(),
    {
        let item = reversed.pop().unwrap();
        items.push(item);
    }
    assert(items@ =~= keys_of(orig));
    items
}

} // verus!
