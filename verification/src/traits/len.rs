//! Lengths of collections.

use std::collections::BTreeMap;
use std::collections::BTreeSet;
use std::collections::HashMap;
use std::collections::HashSet;
use std::collections::VecDeque;
use std::rc::Rc;
use std::sync::Arc;
use vstd::prelude::*;
use vstd::std_specs::btree::spec_btree_map_len;
use vstd::std_specs::btree::spec_btree_set_len;
use vstd::std_specs::hash::spec_hash_map_len;
use vstd::std_specs::hash::spec_hash_set_len;
use vstd::std_specs::vecdeque::spec_vec_dequeue_len;

verus! {

/// Describes the length of a collection.
///
/// The length is the amount of data stored, so strings measure it in bytes,
/// not in characters.
pub trait Len {
    /// The length, as a number.
    spec fn spec_len(&self) -> nat;

    /// Returns the length of the collection.
    fn len(&self) -> (n: usize)
        ensures
            n == self.spec_len(),
    ;

    /// Returns whether the collection is empty.
    fn is_empty(&self) -> (b: bool)
        ensures
            b == (self.spec_len() == 0),
    {
        self.len() == 0
    }
}

impl Len for String {
    open spec fn spec_len(&self) -> nat {
        vstd::utf8::encode_utf8(self@).len()
    }

    fn len(&self) -> (n: usize) {
        self.as_str().as_bytes().len()
    }
}

impl Len for str {
    open spec fn spec_len(&self) -> nat {
        vstd::utf8::encode_utf8(self@).len()
    }

    fn len(&self) -> (n: usize) {
        self.as_bytes().len()
    }
}

impl<T> Len for [T] {
    open spec fn spec_len(&self) -> nat {
        self@.len()
    }

    fn len(&self) -> (n: usize) {
        <[T]>::len(self)
    }
}

impl<T> Len for Vec<T> {
    open spec fn spec_len(&self) -> nat {
        self@.len()
    }

    fn len(&self) -> (n: usize) {
        Vec::len(self)
    }
}

impl<T> Len for VecDeque<T> {
    open spec fn spec_len(&self) -> nat {
        spec_vec_dequeue_len(self) as nat
    }

    fn len(&self) -> (n: usize) {
        VecDeque::len(self)
    }
}

impl<K, V, S> Len for HashMap<K, V, S> {
    open spec fn spec_len(&self) -> nat {
        spec_hash_map_len(self) as nat
    }

    fn len(&self) -> (n: usize) {
        HashMap::len(self)
    }
}

impl<T, S> Len for HashSet<T, S> {
    open spec fn spec_len(&self) -> nat {
        spec_hash_set_len(self) as nat
    }

    fn len(&self) -> (n: usize) {
        HashSet::len(self)
    }
}

impl<K, V> Len for BTreeMap<K, V> {
    open spec fn spec_len(&self) -> nat {
        spec_btree_map_len(self) as nat
    }

    fn len(&self) -> (n: usize) {
        BTreeMap::len(self)
    }
}

impl<T> Len for BTreeSet<T> {
    open spec fn spec_len(&self) -> nat {
        spec_btree_set_len(self) as nat
    }

    fn len(&self) -> (n: usize) {
        BTreeSet::len(self)
    }
}

impl<T: Len> Len for Rc<T> {
    open spec fn spec_len(&self) -> nat {
        (**self).spec_len()
    }

    fn len(&self) -> (n: usize) {
        (**self).len()
    }
}

impl<T: Len> Len for Arc<T> {
    open spec fn spec_len(&self) -> nat {
        (**self).spec_len()
    }

    fn len(&self) -> (n: usize) {
        (**self).len()
    }
}

impl<T: Len> Len for Box<T> {
    open spec fn spec_len(&self) -> nat {
        (**self).spec_len()
    }

    fn len(&self) -> (n: usize) {
        (**self).len()
    }
}

} // verus!
