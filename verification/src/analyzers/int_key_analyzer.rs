//! Tells whether integer keys fill a range without gaps.

use crate::traits::int_value::ints;
use crate::traits::int_value::IntValue;
use vstd::prelude::*;

verus! {

/// What the analysis of integer keys found.
#[derive(Clone, Copy, Debug, PartialEq, Eq, Structural)]
pub enum IntKeyAnalysisResult {
    /// The keys are exactly the integers of one range, each once.
    Range,
    /// Anything else.
    Normal,
}

/// The keys are the integers from `min` up to `min + keys.len() - 1`, each
/// exactly once.
pub open spec fn is_permutation_of_range(keys: Seq<int>, min: int) -> bool {
    &&& forall|i: int| 0 <= i < keys.len() ==> min <= #[trigger] keys[i] < min + keys.len()
    &&& forall|i: int, j: int|
        0 <= i < keys.len() && 0 <= j < keys.len() && i != j ==> #[trigger] keys[i]
            != #[trigger] keys[j]
    &&& forall|x: int| min <= x < min + keys.len() ==> #[trigger] occurs(keys, x)
}

/// `x` is one of the keys.
pub open spec fn occurs(keys: Seq<int>, x: int) -> bool {
    exists|i: int| 0 <= i < keys.len() && #[trigger] keys[i] == x
}

/// There are at least two keys, and they fill a range without gaps or
/// repetitions.
pub open spec fn is_dense_range(keys: Seq<int>) -> bool {
    keys.len() >= 2 && exists|min: int| is_permutation_of_range(keys, min)
}

/// A range that the keys fill begins at the least and ends at the greatest
/// of them.
pub proof fn lemma_range_bounds(keys: Seq<int>, m: int, min: int, max: int)
    requires
        keys.len() >= 1,
        is_permutation_of_range(keys, m),
        occurs(keys, min),
        occurs(keys, max),
        forall|i: int| 0 <= i < keys.len() ==> min <= #[trigger] keys[i] <= max,
    ensures
        m == min,
        max == m + keys.len() - 1,
{
    assert(occurs(keys, m));
    assert(occurs(keys, m + keys.len() - 1));
}

/// The least and the greatest of the keys.
pub fn key_bounds(keys: &[IntValue]) -> (r: (IntValue, IntValue))
    requires
        keys@.len() >= 1,
    ensures
        occurs(ints(keys@), r.0@),
        occurs(ints(keys@), r.1@),
        forall|i: int| 0 <= i < keys@.len() ==> r.0@ <= #[trigger] ints(keys@)[i] <= r.1@,
{
    let ghost vs = ints(keys@);
    let mut min = keys[0];
    let mut max = keys[0];
    assert(vs[0] == min@);
    let mut i: usize = 1;
    while i < keys.len()
        invariant
            1 <= i <= keys@.len(),
            vs == ints(keys@),
            occurs(vs, min@),
            occurs(vs, max@),
            forall|j: int| 0 <= j < i ==> min@ <= #[trigger] vs[j] <= max@,
        decreases keys@.len() - i,
    {
        let k = keys[i];
        assert(vs[i as int] == k@);
        if k.is_lt(&min) {
            min = k;
        }
        if max.is_lt(&k) {
            max = k;
        }
        i += 1;
    }
    (min, max)
}

/// Tells whether the keys fill a range of integers without gaps: `Range`
/// where there are at least two keys and they are the integers from the least
/// to the greatest of them, each once; `Normal` otherwise.
pub fn analyze_int_keys(keys: &[IntValue]) -> (r: IntKeyAnalysisResult)
    ensures
        (r == IntKeyAnalysisResult::Range) == is_dense_range(ints(keys@)),
{
    let ghost vs = ints(keys@);
    let n = keys.len();
    if n < 2 {
        return IntKeyAnalysisResult::Normal;
    }
    let (min, max) = key_bounds(keys);
    proof {
        // a range that the keys fill starts at the least and ends at the greatest key
        assert forall|m: int| is_permutation_of_range(vs, m) implies m == min@ && max@ == m + n
            - 1 by {
            assert(occurs(vs, m));
            assert(occurs(vs, m + n - 1));
        }
    }
    match max.offset_from(&min) {
        None => {
            return IntKeyAnalysisResult::Normal;
        },
        Some(d) => {
            if d != n - 1 {
                return IntKeyAnalysisResult::Normal;
            }
        },
    }
    let mut seen: Vec<bool> = Vec::new();
    let mut i: usize = 0;
    while i < n
        invariant
            i <= n,
            seen@.len() == i,
            forall|j: int| 0 <= j < i ==> !(#[trigger] seen@[j]),
        decreases n - i,
    {
        seen.push(false);
        i += 1;
    }
    let mut i: usize = 0;
    while i < n
        invariant
            i <= n,
            n == keys@.len(),
            n >= 2,
            vs == ints(keys@),
            seen@.len() == n,
            max@ - min@ == n - 1,
            forall|j: int| 0 <= j < n ==> min@ <= #[trigger] vs[j] <= max@,
            forall|x: int| 0 <= x < n ==> (#[trigger] seen@[x] <==> exists|j: int|
                0 <= j < i && #[trigger] vs[j] == min@ + x),
            forall|a: int, b: int|
                0 <= a < i && 0 <= b < i && a != b ==> #[trigger] vs[a] != #[trigger] vs[b],
            forall|m: int| is_permutation_of_range(vs, m) ==> m == min@,
        decreases n - i,
    {
        let k = keys[i];
        assert(vs[i as int] == k@);
        let off = match k.offset_from(&min) {
            Some(off) => off,
            None => 0,
        };
        assert(off == k@ - min@);
        if seen[off] {
            proof {
                let j = choose|j: int| 0 <= j < i && #[trigger] vs[j] == min@ + off;
                assert(vs[j] == vs[i as int]);
            }
            return IntKeyAnalysisResult::Normal;
        }
        let ghost before = seen@;
        seen[off] = true;
        proof {
            assert forall|x: int| 0 <= x < n implies (#[trigger] seen@[x] <==> exists|j: int|
                0 <= j < i + 1 && #[trigger] vs[j] == min@ + x) by {
                if x == off {
                    assert(vs[i as int] == min@ + x);
                } else {
                    assert(seen@[x] == before[x]);
                    if before[x] {
                        let j = choose|j: int| 0 <= j < i && #[trigger] vs[j] == min@ + x;
                        assert(0 <= j < i + 1 && vs[j] == min@ + x);
                    }
                }
            }
        }
        i += 1;
    }
    let mut x: usize = 0;
    while x < n
        invariant
            x <= n,
            seen@.len() == n,
            n == vs.len(),
            vs == ints(keys@),
            forall|y: int| 0 <= y < n ==> (#[trigger] seen@[y] <==> exists|j: int|
                0 <= j < n && #[trigger] vs[j] == min@ + y),
            forall|y: int| 0 <= y < x ==> #[trigger] seen@[y],
            forall|m: int| is_permutation_of_range(vs, m) ==> m == min@,
        decreases n - x,
    {
        if !seen[x] {
            proof {
                if is_permutation_of_range(vs, min@) {
                    assert(occurs(vs, min@ + x));
                }
            }
            return IntKeyAnalysisResult::Normal;
        }
        x += 1;
    }
    proof {
        assert forall|y: int| min@ <= y < min@ + n implies #[trigger] occurs(vs, y) by {
            assert(seen@[y - min@]);
        }
        assert(is_permutation_of_range(vs, min@));
    }
    IntKeyAnalysisResult::Range
}

} // verus!
