//! The comparison of two maps.

use crate::model::lookup;
use crate::specialized_maps::map_ops::MapOps;
use crate::specialized_maps::map_ops::entry_at;
use crate::traits::key::Key;
use crate::traits::len::Len;
use vstd::prelude::*;
use vstd::std_specs::cmp::PartialEqSpec;

verus! {

/// The `==` of the values is the relation that `eq_spec` names.
pub open spec fn values_comparable<V: PartialEq>() -> bool {
    V::obeys_eq_spec()
}

/// Two maps are equal as the library compares them: they are equally long,
/// and every entry of the first has its key in the second, with an equal
/// value.
pub open spec fn maps_equal<K: View, V: PartialEq>(a: Seq<(K, V)>, b: Seq<(K, V)>) -> bool {
    &&& a.len() == b.len()
    &&& forall|i: int|
        0 <= i < a.len() ==> (lookup(b, (#[trigger] a[i]).0@) matches Some(v) && a[i].1.eq_spec(&v))
}

/// Returns whether the two maps are equally long and every entry of the
/// first has its key in the second, with an equal value.
pub fn maps_are_equal<K, V, M1, M2>(a: &M1, b: &M2) -> (r: bool) where
    K: Key,
    V: PartialEq,
    M1: MapOps<K, V>,
    M2: MapOps<K, V>,

    requires
        a.valid(),
        b.valid(),
    ensures
        values_comparable::<V>() ==> r == maps_equal(a.entries(), b.entries()),
{
    proof {
        a.lemma_len();
        b.lemma_len();
    }
    let n = a.len();
    if n != b.len() {
        return false;
    }
    let mut i: usize = 0;
    while i < n
        invariant
            i <= n,
            n == a.entries().len(),
            n == b.entries().len(),
            b.valid(),
            values_comparable::<V>() ==> forall|j: int|
                0 <= j < i ==> (lookup(b.entries(), (#[trigger] a.entries()[j]).0@) matches Some(v)
                    && a.entries()[j].1.eq_spec(&v)),
        decreases n - i,
    {
        let ghost here = entry_at(a.entries(), i);
        match a.get_by_index(i) {
            Some((key, value)) => {
                match b.get(key) {
                    Some(other) => {
                        if !(*value == *other) {
                            assert(values_comparable::<V>() ==> !here.1.eq_spec(other));
                            return false;
                        }
                    },
                    None => {
                        assert(lookup(b.entries(), here.0@) is None);
                        return false;
                    },
                }
            },
            None => {
                return false;
            },
        }
        i += 1;
    }
    true
}

} // verus!
