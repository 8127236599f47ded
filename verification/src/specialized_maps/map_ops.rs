//! What every map of the library offers.

use crate::model::lookup;
use crate::traits::key::Key;
use crate::traits::len::Len;
use vstd::prelude::*;

verus! {

/// A read-only map: it can be walked by position and asked for the value of
/// a key.
pub trait MapOps<K: Key, V>: Len {
    /// The entries of the map, in the order in which they are visited.
    spec fn entries(&self) -> Seq<(K, V)>;

    /// The map is well formed.
    spec fn valid(&self) -> bool;

    /// Returns a reference to the value of the first entry with the key.
    fn get(&self, key: &K) -> (r: Option<&V>)
        requires
            self.valid(),
        ensures
            match r {
                Some(v) => lookup(self.entries(), key@) == Some(*v),
                None => lookup(self.entries(), key@) is None,
            },
    ;

    /// Returns the entry at `index` in the order of the map, if there is one.
    fn get_by_index(&self, index: usize) -> (r: Option<(&K, &V)>)
        ensures
            index < self.entries().len() ==> r == Some(
                (&self.entries()[index as int].0, &self.entries()[index as int].1),
            ),
            index >= self.entries().len() ==> r is None,
    ;

    /// The length of the map is the number of its entries.
    proof fn lemma_len(&self)
        ensures
            self.spec_len() == self.entries().len(),
    ;
}

/// The entry at a position.
pub open spec fn entry_at<K, V>(entries: Seq<(K, V)>, index: usize) -> (K, V) {
    entries[index as int]
}

} // verus!
