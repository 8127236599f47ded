//! Hashers of byte strings.

use std::collections::hash_map::DefaultHasher;
use std::hash::Hasher;
use vstd::prelude::*;
use vstd::std_specs::hash::DefaultHasherAdditionalSpecFns;

verus! {

/// A hash function on byte strings. Equal bytes always give equal codes: the
/// collections rely on nothing else.
pub trait ByteHasher {
    /// The code that this hasher gives to `bytes`.
    spec fn spec_hash_bytes(&self, bytes: Seq<u8>) -> u64;

    /// Hashes `bytes`.
    fn hash_bytes(&self, bytes: &[u8]) -> (h: u64)
        ensures
            h == self.spec_hash_bytes(bytes@),
    ;
}

/// The hasher used where none is supplied: the standard library's default
/// hasher, started afresh for every byte string.
#[derive(Clone, Copy, Debug, Default)]
pub struct DefaultByteHasher {}

impl DefaultByteHasher {
    /// Makes the default hasher.
    pub fn new() -> (r: Self)
        ensures
            r == (DefaultByteHasher {  }),
    {
        DefaultByteHasher {  }
    }
}

impl ByteHasher for DefaultByteHasher {
    open spec fn spec_hash_bytes(&self, bytes: Seq<u8>) -> u64 {
        DefaultHasher::spec_finish(seq![bytes])
    }

    fn hash_bytes(&self, bytes: &[u8]) -> (h: u64) {
        let mut hasher = DefaultHasher::new();
        hasher.write(bytes);
        assert(hasher@ =~= seq![bytes@]);
        hasher.finish()
    }
}

/// Hashes the window `[start, end)` of `bytes`.
pub fn hash_window<BH: ByteHasher>(bytes: &[u8], bh: &BH, start: usize, end: usize) -> (h: u64)
    requires
        start <= end <= bytes@.len(),
    ensures
        h == bh.spec_hash_bytes(bytes@.subrange(start as int, end as int)),
{
    let window = vstd::slice::slice_subrange(bytes, start, end);
    bh.hash_bytes(window)
}

/// Whether two byte strings are equal.
pub fn bytes_eq(a: &[u8], b: &[u8]) -> (r: bool)
    ensures
        r == (a@ == b@),
{
    if a.len() != b.len() {
        return false;
    }
    let mut i: usize = 0;
    while i < a.len()
        invariant
            a@.len() == b@.len(),
            i <= a@.len(),
            forall|j: int| 0 <= j < i ==> a@[j] == b@[j],
        decreases a@.len() - i,
    {
        if a[i] != b[i] {
            return false;
        }
        i += 1;
    }
    assert(a@ =~= b@);
    true
}

} // verus!
