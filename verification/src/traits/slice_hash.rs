//! Hashing of a window of a key's bytes.

use core::ops::Range;
use crate::traits::byte_hasher::ByteHasher;
use crate::traits::byte_hasher::hash_window;
use vstd::prelude::*;

verus! {

/// Enables hashing over a slice of an input.
pub trait SliceHash {
    /// The bytes that the windows are taken from.
    spec fn spec_bytes_of(&self) -> Seq<u8>;

    /// Hashes only the bytes in `range`.
    fn hash<BH: ByteHasher>(&self, bh: &BH, range: Range<usize>) -> (h: u64)
        requires
            range.start <= range.end <= self.spec_bytes_of().len(),
        ensures
            h == bh.spec_hash_bytes(
                self.spec_bytes_of().subrange(range.start as int, range.end as int),
            ),
    ;
}

impl SliceHash for String {
    open spec fn spec_bytes_of(&self) -> Seq<u8> {
        vstd::utf8::encode_utf8(self@)
    }

    fn hash<BH: ByteHasher>(&self, bh: &BH, range: Range<usize>) -> (h: u64) {
        hash_window(self.as_str().as_bytes(), bh, range.start, range.end)
    }
}

impl SliceHash for [u8] {
    open spec fn spec_bytes_of(&self) -> Seq<u8> {
        self@
    }

    fn hash<BH: ByteHasher>(&self, bh: &BH, range: Range<usize>) -> (h: u64) {
        hash_window(self, bh, range.start, range.end)
    }
}

impl SliceHash for Vec<u8> {
    open spec fn spec_bytes_of(&self) -> Seq<u8> {
        self@
    }

    fn hash<BH: ByteHasher>(&self, bh: &BH, range: Range<usize>) -> (h: u64) {
        hash_window(self.as_slice(), bh, range.start, range.end)
    }
}

} // verus!
