//! Placement of evenly spaced thumbnails over a media file's duration.

use vstd::prelude::*;

use vstd::arithmetic::div_mod::{lemma_div_is_ordered, lemma_div_multiples_vanish};
use vstd::arithmetic::mul::{lemma_mul_inequality, lemma_mul_is_commutative, lemma_mul_upper_bound};

verus! {

/// Timestamp of thumbnail `i` of `count`, in milliseconds: the midpoint of
/// the `i`-th of `count` equal slices of the duration.
pub open spec fn spec_thumbnail_ts(duration_ms: int, count: int, i: int) -> int {
    (duration_ms * (2 * i + 1)) / (2 * count)
}

/// The timestamps at which `count` evenly spaced thumbnails are captured:
/// the midpoints of `count` equal slices of the duration.
pub fn thumbnail_timestamps(duration_ms: u64, count: u32) -> (r: Vec<u64>)
    requires
        count > 0,
    ensures
        r@.len() == count,
        forall|i: int|
            0 <= i < count ==> r@[i] == spec_thumbnail_ts(duration_ms as int, count as int, i),
{
    let mut r: Vec<u64> = Vec::new();
    let mut i: u32 = 0;
    while i < count
        invariant
            0 <= i <= count,
            count > 0,
            r@.len() == i,
            forall|j: int|
                0 <= j < i ==> r@[j] == spec_thumbnail_ts(duration_ms as int, count as int, j),
        decreases count - i,
    {
        proof {
            let d = duration_ms as int;
            let odd = 2 * (i as int) + 1;
            let den = 2 * (count as int);
            lemma_mul_upper_bound(d, u64::MAX as int, odd, u64::MAX as int);
            lemma_mul_inequality(odd, den, d);
            lemma_mul_is_commutative(odd, d);
            lemma_mul_is_commutative(den, d);
            lemma_div_is_ordered(d * odd, d * den, den);
            lemma_div_multiples_vanish(d, den);
        }
        let numerator: u128 = (duration_ms as u128) * ((2 * (i as u64) + 1) as u128);
        let denominator: u128 = 2 * (count as u64) as u128;
        let ts: u64 = (numerator / denominator) as u64;
        r.push(ts);
        i = i + 1;
    }
    r
}

} // verus!
