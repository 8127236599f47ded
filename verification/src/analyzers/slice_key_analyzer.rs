//! Looks for what tells byte-string keys apart most cheaply: their length,
//! or a short window of their bytes at a fixed place from the left or from
//! the right.

use crate::traits::byte_hasher::ByteHasher;
use crate::traits::byte_hasher::bytes_eq;
use crate::traits::key::Key;
use crate::traits::key::KeyForm;
use crate::traits::key::bytes_of;
use std::collections::HashSet;
use vstd::prelude::*;

verus! {

/// What the analysis of byte-string keys found.
#[derive(Clone, Copy, Debug, PartialEq, Eq, Structural)]
pub enum SliceKeyAnalysisResult {
    /// No special property: hash the whole key.
    Normal,
    /// All keys have different lengths.
    Length,
    /// The bytes `[subslice_index, subslice_index + subslice_len)` differ from
    /// key to key.
    LeftHandSubslice { subslice_index: usize, subslice_len: usize },
    /// The `subslice_len` bytes that end `subslice_index` bytes before the end
    /// of the key differ from key to key.
    RightHandSubslice { subslice_index: usize, subslice_len: usize },
}

/// The bytes of each key.
pub open spec fn slices_view(keys: Seq<&[u8]>) -> Seq<Seq<u8>> {
    Seq::new(keys.len(), |i: int| keys[i]@)
}

/// The window of `len` bytes that starts `start` bytes after the beginning
/// of `key`.
pub open spec fn left_window(key: Seq<u8>, start: int, len: int) -> Seq<u8> {
    key.subrange(start, start + len)
}

/// The window of `len` bytes that ends `start` bytes before the end of `key`.
pub open spec fn right_window(key: Seq<u8>, start: int, len: int) -> Seq<u8> {
    key.subrange(key.len() - start - len, key.len() - start)
}

/// The window of a key on the given side.
pub open spec fn window(key: Seq<u8>, start: int, len: int, left: bool) -> Seq<u8> {
    if left {
        left_window(key, start, len)
    } else {
        right_window(key, start, len)
    }
}

/// No two keys have the same length.
pub open spec fn lengths_unique(keys: Seq<Seq<u8>>) -> bool {
    forall|i: int, j: int|
        0 <= i < keys.len() && 0 <= j < keys.len() && i != j ==> (#[trigger] keys[i]).len() != (
        #[trigger] keys[j]).len()
}

/// A window of `len` bytes at `start` lies within every key, and has at
/// least one byte.
pub open spec fn fits(keys: Seq<Seq<u8>>, start: int, len: int) -> bool {
    &&& len >= 1
    &&& start >= 0
    &&& forall|i: int| 0 <= i < keys.len() ==> start + len <= (#[trigger] keys[i]).len()
}

/// No two keys have the same window.
pub open spec fn discriminates(keys: Seq<Seq<u8>>, start: int, len: int, left: bool) -> bool {
    forall|i: int, j: int|
        0 <= i < keys.len() && 0 <= j < keys.len() && i != j ==> window(
            #[trigger] keys[i],
            start,
            len,
            left,
        ) != window(#[trigger] keys[j], start, len, left)
}

/// The order in which windows are tried: shorter windows first, among those
/// of one length the ones nearer to the edge of the key first, and at one
/// place the left one before the right one.
pub open spec fn tried_before(
    start1: int,
    len1: int,
    left1: bool,
    start2: int,
    len2: int,
    left2: bool,
) -> bool {
    len1 < len2 || (len1 == len2 && (start1 < start2 || (start1 == start2 && left1 && !left2)))
}

/// The window fits and tells the keys apart, and no window that is tried
/// before it does.
pub open spec fn is_first_discriminator(keys: Seq<Seq<u8>>, start: int, len: int, left: bool) -> bool {
    &&& fits(keys, start, len)
    &&& discriminates(keys, start, len, left)
    &&& forall|s: int, l: int, side: bool|
        fits(keys, s, l) && tried_before(s, l, side, start, len, left) ==> !#[trigger] discriminates(
            keys,
            s,
            l,
            side,
        )
}

/// No window that fits tells the keys apart.
pub open spec fn no_discriminator(keys: Seq<Seq<u8>>) -> bool {
    forall|s: int, l: int, side: bool|
        fits(keys, s, l) ==> !#[trigger] discriminates(keys, s, l, side)
}

/// The first window that tells the keys apart is the only one.
pub proof fn lemma_first_discriminator_unique(
    keys: Seq<Seq<u8>>,
    start1: int,
    len1: int,
    left1: bool,
    start2: int,
    len2: int,
    left2: bool,
)
    requires
        is_first_discriminator(keys, start1, len1, left1),
        is_first_discriminator(keys, start2, len2, left2),
    ensures
        start1 == start2,
        len1 == len2,
        left1 == left2,
{
    if tried_before(start1, len1, left1, start2, len2, left2) {
        assert(!discriminates(keys, start1, len1, left1));
    } else if tried_before(start2, len2, left2, start1, len1, left1) {
        assert(!discriminates(keys, start2, len2, left2));
    }
}

/// What the analysis answers for the keys: `Length` where all lengths
/// differ; otherwise the first window that tells the keys apart, on its
/// side; `Normal` where there is none.
pub open spec fn slice_choice(keys: Seq<Seq<u8>>) -> SliceKeyAnalysisResult {
    if lengths_unique(keys) {
        SliceKeyAnalysisResult::Length
    } else if exists|s: int, l: int| #[trigger] is_first_discriminator(keys, s, l, true) {
        let (s, l) = choose|s: int, l: int| #[trigger] is_first_discriminator(keys, s, l, true);
        SliceKeyAnalysisResult::LeftHandSubslice {
            subslice_index: s as usize,
            subslice_len: l as usize,
        }
    } else if exists|s: int, l: int| #[trigger] is_first_discriminator(keys, s, l, false) {
        let (s, l) = choose|s: int, l: int| #[trigger] is_first_discriminator(keys, s, l, false);
        SliceKeyAnalysisResult::RightHandSubslice {
            subslice_index: s as usize,
            subslice_len: l as usize,
        }
    } else {
        SliceKeyAnalysisResult::Normal
    }
}

/// A first discriminator on the left is what `slice_choice` answers.
pub proof fn lemma_choice_left(keys: Seq<Seq<u8>>, start: usize, len: usize)
    requires
        !lengths_unique(keys),
        is_first_discriminator(keys, start as int, len as int, true),
    ensures
        slice_choice(keys) == (SliceKeyAnalysisResult::LeftHandSubslice {
            subslice_index: start,
            subslice_len: len,
        }),
{
    let (s, l) = choose|s: int, l: int| #[trigger] is_first_discriminator(keys, s, l, true);
    lemma_first_discriminator_unique(keys, s, l, true, start as int, len as int, true);
}

/// A first discriminator on the right is what `slice_choice` answers.
pub proof fn lemma_choice_right(keys: Seq<Seq<u8>>, start: usize, len: usize)
    requires
        !lengths_unique(keys),
        is_first_discriminator(keys, start as int, len as int, false),
    ensures
        slice_choice(keys) == (SliceKeyAnalysisResult::RightHandSubslice {
            subslice_index: start,
            subslice_len: len,
        }),
{
    if exists|s: int, l: int| #[trigger] is_first_discriminator(keys, s, l, true) {
        let (s, l) = choose|s: int, l: int| #[trigger] is_first_discriminator(keys, s, l, true);
        lemma_first_discriminator_unique(keys, s, l, true, start as int, len as int, false);
    }
    let (s, l) = choose|s: int, l: int| #[trigger] is_first_discriminator(keys, s, l, false);
    lemma_first_discriminator_unique(keys, s, l, false, start as int, len as int, false);
}

/// The bytes of the keys of `entries`, in order; none for a key that is no
/// byte string.
pub open spec fn key_bytes<K: Key, V>(entries: Seq<(K, V)>) -> Seq<Seq<u8>> {
    Seq::new(entries.len(), |i: int| bytes_of(K::shape(entries[i].0@)))
}

/// The bytes of the keys of `payload`, in order.
pub fn byte_keys<'a, K: Key, V>(payload: &'a Vec<(K, V)>) -> (r: Vec<&'a [u8]>)
    ensures
        slices_view(r@) == key_bytes(payload@),
{
    let mut keys: Vec<&'a [u8]> = Vec::new();
    let mut i: usize = 0;
    while i < payload.len()
        invariant
            i <= payload@.len(),
            keys@.len() == i,
            forall|j: int| 0 <= j < i ==> (#[trigger] keys@[j])@ == key_bytes(payload@)[j],
        decreases payload@.len() - i,
    {
        match payload[i].0.form() {
            KeyForm::ByteSlice(bytes) => {
                keys.push(bytes);
            },
            _ => {
                let none: &[u8] = &[];
                assert(none@ =~= Seq::<u8>::empty());
                keys.push(none);
            },
        }
        i += 1;
    }
    assert(slices_view(keys@) =~= key_bytes(payload@));
    keys
}

/// Whether all keys have different lengths.
pub fn lengths_are_unique(keys: &Vec<&[u8]>) -> (r: bool)
    ensures
        r == lengths_unique(slices_view(keys@)),
{
    let ghost ks = slices_view(keys@);
    let n = keys.len();
    let mut seen: HashSet<usize> = HashSet::new();
    let mut i: usize = 0;
    while i < n
        invariant
            i <= n,
            n == keys@.len(),
            ks == slices_view(keys@),
            forall|a: int| 0 <= a < i ==> seen@.contains((#[trigger] ks[a]).len() as usize),
            forall|x: usize|
                seen@.contains(x) ==> exists|a: int| 0 <= a < i && (#[trigger] ks[a]).len() == x,
            forall|a: int, b: int|
                0 <= a < i && 0 <= b < a ==> (#[trigger] ks[a]).len() != (#[trigger] ks[b]).len(),
        decreases n - i,
    {
        let len = keys[i].len();
        assert(ks[i as int].len() == len);
        let fresh = seen.insert(len);
        if !fresh {
            proof {
                let a = choose|a: int| 0 <= a < i && (#[trigger] ks[a]).len() == len;
                assert(ks[a].len() == ks[i as int].len());
            }
            return false;
        }
        proof {
            assert forall|b: int| 0 <= b < i implies ks[i as int].len() != (#[trigger] ks[b]).len() by {
                if ks[b].len() == len {
                    assert(seen@.contains(len));
                }
            }
            assert forall|x: usize| seen@.contains(x) implies exists|a: int|
                0 <= a < i + 1 && (#[trigger] ks[a]).len() == x by {
                if x == len {
                    assert(ks[i as int].len() == x);
                } else {
                    let a = choose|a: int| 0 <= a < i && (#[trigger] ks[a]).len() == x;
                    assert(ks[a].len() == x);
                }
            }
        }
        i += 1;
    }
    assert forall|a: int, b: int| 0 <= a < n && 0 <= b < n && a != b implies (#[trigger] ks[a]).len()
        != (#[trigger] ks[b]).len() by {
        if b < a {
        } else {
            assert(ks[b].len() != ks[a].len());
        }
    }
    true
}

/// The window of a key on the given side.
pub fn key_window<'a>(key: &'a [u8], start: usize, len: usize, left: bool) -> (w: &'a [u8])
    requires
        start + len <= key@.len(),
    ensures
        w@ == window(key@, start as int, len as int, left),
{
    let n = key.len();
    if left {
        vstd::slice::slice_subrange(key, start, start + len)
    } else {
        vstd::slice::slice_subrange(key, n - start - len, n - start)
    }
}

/// Whether the window of `len` bytes at `start`, on the given side, differs
/// from key to key. The hashes of the windows are compared first: where they
/// all differ, the windows do; where two are the same, the windows themselves
/// are compared.
pub fn window_discriminates<BH: ByteHasher>(
    keys: &Vec<&[u8]>,
    start: usize,
    len: usize,
    left: bool,
    bh: &BH,
) -> (r: bool)
    requires
        fits(slices_view(keys@), start as int, len as int),
    ensures
        r == discriminates(slices_view(keys@), start as int, len as int, left),
{
    let ghost ks = slices_view(keys@);
    let ghost s = start as int;
    let ghost l = len as int;
    let n = keys.len();
    let mut seen: HashSet<u64> = HashSet::new();
    let mut i: usize = 0;
    while i < n
        invariant
            i <= n,
            n == keys@.len(),
            ks == slices_view(keys@),
            s == start,
            l == len,
            fits(ks, s, l),
            forall|a: int|
                0 <= a < i ==> seen@.contains(
                    bh.spec_hash_bytes(window(#[trigger] ks[a], s, l, left)),
                ),
            forall|a: int, b: int|
                0 <= a < i && 0 <= b < a ==> window(#[trigger] ks[a], s, l, left) != window(
                    #[trigger] ks[b],
                    s,
                    l,
                    left,
                ),
        decreases n - i,
    {
        assert(start + len <= ks[i as int].len());
        let code = bh.hash_bytes(key_window(keys[i], start, len, left));
        let fresh = seen.insert(code);
        if !fresh {
            return window_discriminates_exactly(keys, start, len, left);
        }
        proof {
            assert forall|b: int| 0 <= b < i implies window(ks[i as int], s, l, left) != window(
                #[trigger] ks[b],
                s,
                l,
                left,
            ) by {
                if window(ks[i as int], s, l, left) == window(ks[b], s, l, left) {
                    assert(seen@.contains(bh.spec_hash_bytes(window(ks[b], s, l, left))));
                }
            }
        }
        i += 1;
    }
    assert forall|a: int, b: int| 0 <= a < n && 0 <= b < n && a != b implies window(
        #[trigger] ks[a],
        s,
        l,
        left,
    ) != window(#[trigger] ks[b], s, l, left) by {
        if b < a {
        } else {
            assert(window(ks[b], s, l, left) != window(ks[a], s, l, left));
        }
    }
    true
}

/// Whether the window of `len` bytes at `start`, on the given side, differs
/// from key to key, by comparing the windows of every two keys.
pub fn window_discriminates_exactly(keys: &Vec<&[u8]>, start: usize, len: usize, left: bool) -> (r: bool)
    requires
        fits(slices_view(keys@), start as int, len as int),
    ensures
        r == discriminates(slices_view(keys@), start as int, len as int, left),
{
    let ghost ks = slices_view(keys@);
    let ghost s = start as int;
    let ghost l = len as int;
    let n = keys.len();
    let mut i: usize = 0;
    while i < n
        invariant
            i <= n,
            n == keys@.len(),
            ks == slices_view(keys@),
            s == start,
            l == len,
            fits(ks, s, l),
            forall|a: int, b: int|
                0 <= a < i && 0 <= b < a ==> window(#[trigger] ks[a], s, l, left) != window(
                    #[trigger] ks[b],
                    s,
                    l,
                    left,
                ),
        decreases n - i,
    {
        assert(start + len <= ks[i as int].len());
        let wi = key_window(keys[i], start, len, left);
        let mut j: usize = 0;
        while j < i
            invariant
                j <= i < n,
                n == keys@.len(),
                ks == slices_view(keys@),
                s == start,
                l == len,
                fits(ks, s, l),
                wi@ == window(ks[i as int], s, l, left),
                forall|b: int|
                    0 <= b < j ==> window(ks[i as int], s, l, left) != window(
                        #[trigger] ks[b],
                        s,
                        l,
                        left,
                    ),
            decreases i - j,
        {
            assert(start + len <= ks[j as int].len());
            let wj = key_window(keys[j], start, len, left);
            if bytes_eq(wi, wj) {
                assert(window(ks[i as int], s, l, left) == window(ks[j as int], s, l, left));
                return false;
            }
            j += 1;
        }
        i += 1;
    }
    assert forall|a: int, b: int| 0 <= a < n && 0 <= b < n && a != b implies window(
        #[trigger] ks[a],
        s,
        l,
        left,
    ) != window(#[trigger] ks[b], s, l, left) by {
        if b < a {
        } else {
            assert(window(ks[b], s, l, left) != window(ks[a], s, l, left));
        }
    }
    true
}

/// The length of the shortest key.
pub fn shortest_len(keys: &Vec<&[u8]>) -> (m: usize)
    requires
        keys@.len() >= 1,
    ensures
        forall|i: int| 0 <= i < keys@.len() ==> m <= (#[trigger] keys@[i])@.len(),
        exists|i: int| 0 <= i < keys@.len() && (#[trigger] keys@[i])@.len() == m,
{
    let mut m = keys[0].len();
    let mut i: usize = 1;
    while i < keys.len()
        invariant
            1 <= i <= keys@.len(),
            forall|j: int| 0 <= j < i ==> m <= (#[trigger] keys@[j])@.len(),
            exists|j: int| 0 <= j < i && (#[trigger] keys@[j])@.len() == m,
        decreases keys@.len() - i,
    {
        if keys[i].len() < m {
            m = keys[i].len();
        }
        i += 1;
    }
    m
}

/// Looks for the cheapest way to tell the keys apart. The hasher `bh` only
/// speeds the search up: the answer does not depend on it.
///
/// `Length` where all lengths differ. Otherwise the first window that differs
/// from key to key, in the order of `tried_before`: `LeftHandSubslice` or
/// `RightHandSubslice`. `Normal` where no window does.
pub fn analyze_slice_keys<BH: ByteHasher>(keys: &Vec<&[u8]>, bh: &BH) -> (r: SliceKeyAnalysisResult)
    ensures
        r == slice_choice(slices_view(keys@)),
        r matches SliceKeyAnalysisResult::LeftHandSubslice { subslice_index, subslice_len }
            ==> subslice_index + subslice_len <= usize::MAX,
        r matches SliceKeyAnalysisResult::RightHandSubslice { subslice_index, subslice_len }
            ==> subslice_index + subslice_len <= usize::MAX,
        match r {
            SliceKeyAnalysisResult::Length => lengths_unique(slices_view(keys@)),
            SliceKeyAnalysisResult::LeftHandSubslice { subslice_index, subslice_len } => {
                &&& !lengths_unique(slices_view(keys@))
                &&& is_first_discriminator(
                    slices_view(keys@),
                    subslice_index as int,
                    subslice_len as int,
                    true,
                )
            },
            SliceKeyAnalysisResult::RightHandSubslice { subslice_index, subslice_len } => {
                &&& !lengths_unique(slices_view(keys@))
                &&& is_first_discriminator(
                    slices_view(keys@),
                    subslice_index as int,
                    subslice_len as int,
                    false,
                )
            },
            SliceKeyAnalysisResult::Normal => {
                &&& !lengths_unique(slices_view(keys@))
                &&& no_discriminator(slices_view(keys@))
            },
        },
{
    let ghost ks = slices_view(keys@);
    if lengths_are_unique(keys) {
        return SliceKeyAnalysisResult::Length;
    }
    assert(keys@.len() >= 1);
    let m = shortest_len(keys);
    let ghost w = choose|i: int| 0 <= i < keys@.len() && (#[trigger] keys@[i])@.len() == m;
    assert(ks[w].len() == m);
    assert forall|s: int, l: int| fits(ks, s, l) <==> l >= 1 && s >= 0 && s + l <= m by {
        if fits(ks, s, l) {
            assert(s + l <= ks[w].len());
        }
        if l >= 1 && s >= 0 && s + l <= m {
            assert forall|i: int| 0 <= i < ks.len() implies s + l <= (#[trigger] ks[i]).len() by {
                assert(m <= keys@[i]@.len());
            }
        }
    }
    let mut shorter: usize = 0;
    while shorter < m
        invariant
            shorter <= m,
            ks == slices_view(keys@),
            !lengths_unique(ks),
            forall|s: int, l: int| fits(ks, s, l) <==> l >= 1 && s >= 0 && s + l <= m,
            forall|s: int, l: int, side: bool|
                fits(ks, s, l) && l <= shorter ==> !#[trigger] discriminates(ks, s, l, side),
        decreases m - shorter,
    {
        let len = shorter + 1;
        let mut start: usize = 0;
        while start <= m - len
            invariant
                1 <= len <= m,
                start <= m - len + 1,
                ks == slices_view(keys@),
                !lengths_unique(ks),
                forall|s: int, l: int| fits(ks, s, l) <==> l >= 1 && s >= 0 && s + l <= m,
                forall|s: int, l: int, side: bool|
                    fits(ks, s, l) && (l < len || (l == len && s < start))
                        ==> !#[trigger] discriminates(ks, s, l, side),
            decreases m - len + 1 - start,
        {
            assert(fits(ks, start as int, len as int));
            if window_discriminates(keys, start, len, true, bh) {
                proof {
                    lemma_choice_left(ks, start, len);
                }
                return SliceKeyAnalysisResult::LeftHandSubslice {
                    subslice_index: start,
                    subslice_len: len,
                };
            }
            if window_discriminates(keys, start, len, false, bh) {
                proof {
                    lemma_choice_right(ks, start, len);
                }
                return SliceKeyAnalysisResult::RightHandSubslice {
                    subslice_index: start,
                    subslice_len: len,
                };
            }
            start += 1;
        }
        shorter += 1;
    }
    SliceKeyAnalysisResult::Normal
}

} // verus!
