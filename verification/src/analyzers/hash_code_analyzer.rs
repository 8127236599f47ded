//! Chooses the number of buckets of a hash table.

use vstd::prelude::*;

verus! {

/// How the hash table for a set of hash codes is dimensioned.
#[derive(Clone, Copy, Debug, PartialEq, Eq)]
pub struct HashCodeAnalysisResult {
    /// The number of buckets to use.
    pub num_hash_slots: usize,
}

/// `n` is one of 1, 2, 4, 8, ...
pub open spec fn is_power_of_two(n: int) -> bool
    decreases n,
{
    n == 1 || (n > 1 && n % 2 == 0 && is_power_of_two(n / 2))
}

/// `b` is the bucket count for `n` hash codes: the smallest power of two that
/// is at least `n`, or, where the machine has none, its largest power of two.
pub open spec fn is_bucket_count(b: int, n: int) -> bool {
    &&& is_power_of_two(b)
    &&& b <= usize::MAX
    &&& n <= b ==> b == 1 || b / 2 < n
    &&& b < n ==> 2 * b > usize::MAX
}

/// Two bucket counts for the same number of codes are the same.
pub proof fn lemma_bucket_count_unique(a: int, b: int, n: int)
    requires
        is_bucket_count(a, n),
        is_bucket_count(b, n),
    ensures
        a == b,
{
    if a < b {
        lemma_power_of_two_gap(a, b);
    } else if b < a {
        lemma_power_of_two_gap(b, a);
    }
}

/// Between a power of two and its double lies no other power of two.
pub proof fn lemma_power_of_two_gap(a: int, b: int)
    requires
        is_power_of_two(a),
        is_power_of_two(b),
        a < b,
    ensures
        2 * a <= b,
    decreases b,
{
    if a == 1 {
    } else {
        lemma_power_of_two_gap(a / 2, b / 2);
    }
}

/// Looks at the hash codes of a payload and chooses the number of buckets:
/// the smallest power of two that is not below the number of codes.
pub fn analyze_hash_codes(hash_codes: &[u64]) -> (r: HashCodeAnalysisResult)
    ensures
        r.num_hash_slots >= 1,
        is_bucket_count(r.num_hash_slots as int, hash_codes@.len() as int),
{
    let n = hash_codes.len();
    let mut b: usize = 1;
    while b < n && b <= usize::MAX / 2
        invariant
            b >= 1,
            is_power_of_two(b as int),
            b == 1 || b / 2 < n,
        decreases usize::MAX - b,
    {
        b = b * 2;
    }
    HashCodeAnalysisResult { num_hash_slots: b }
}

} // verus!
