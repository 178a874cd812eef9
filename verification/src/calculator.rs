//! Partition planning: turn (duration, file size, target size, exclusions)
//! into an ordered list of partition points on the effective timeline.

use vstd::prelude::*;

use vstd::arithmetic::div_mod::{
    lemma_div_is_ordered, lemma_div_is_ordered_by_denominator, lemma_div_multiples_vanish,
    lemma_div_of0, lemma_fundamental_div_mod, lemma_small_mod,
};
use vstd::arithmetic::mul::{
    lemma_mul_inequality, lemma_mul_is_commutative, lemma_mul_upper_bound,
};

use crate::models::{
    PartitionPoint, TimeInterval, VideoMetadata, all_wf, lemma_total_len_extend, total_len,
};

verus! {

/// Ceiling of `a / b` for non-negative `a` and positive `b`.
pub open spec fn div_ceil(a: int, b: int) -> int {
    a / b + if a % b == 0 {
        0int
    } else {
        1int
    }
}

/// Duration left, in milliseconds, after the exclusions are removed.
/// Overlapping exclusions are summed as given (a documented approximation).
pub open spec fn spec_effective_ms(duration_ms: int, exclusions: Seq<TimeInterval>) -> int {
    duration_ms - total_len(exclusions)
}

/// Estimated byte size of the effective part of the file, under a
/// constant-bitrate assumption: bytes scale with the retained fraction of time.
pub open spec fn spec_effective_size(
    duration_ms: int,
    file_size: int,
    exclusions: Seq<TimeInterval>,
) -> int {
    (file_size * spec_effective_ms(duration_ms, exclusions)) / duration_ms
}

/// Number of partitions planned: the effective size divided by the target,
/// rounded up, capped at `u32::MAX`; zero on degenerate inputs.
pub open spec fn spec_partition_count(
    duration_ms: int,
    file_size: int,
    target_size_bytes: int,
    exclusions: Seq<TimeInterval>,
) -> int {
    if spec_effective_ms(duration_ms, exclusions) <= 0 || file_size == 0 || target_size_bytes
        == 0 {
        0int
    } else {
        let c = div_ceil(spec_effective_size(duration_ms, file_size, exclusions), target_size_bytes);
        if c > u32::MAX {
            u32::MAX as int
        } else {
            c
        }
    }
}

/// Uniform length, in effective milliseconds, of every partition but the last.
pub open spec fn spec_time_per_partition(
    duration_ms: int,
    file_size: int,
    target_size_bytes: int,
    exclusions: Seq<TimeInterval>,
) -> int {
    spec_effective_ms(duration_ms, exclusions) / spec_partition_count(
        duration_ms,
        file_size,
        target_size_bytes,
        exclusions,
    )
}

/// Where partition `i` starts on the effective timeline.
pub open spec fn spec_partition_start(
    duration_ms: int,
    file_size: int,
    target_size_bytes: int,
    exclusions: Seq<TimeInterval>,
    i: int,
) -> int {
    i * spec_time_per_partition(duration_ms, file_size, target_size_bytes, exclusions)
}

/// Where partition `i` ends on the effective timeline: the uniform step for
/// all but the last partition, which is pinned to the effective duration.
pub open spec fn spec_partition_end(
    duration_ms: int,
    file_size: int,
    target_size_bytes: int,
    exclusions: Seq<TimeInterval>,
    i: int,
) -> int {
    if i == spec_partition_count(duration_ms, file_size, target_size_bytes, exclusions) - 1 {
        spec_effective_ms(duration_ms, exclusions)
    } else {
        (i + 1) * spec_time_per_partition(duration_ms, file_size, target_size_bytes, exclusions)
    }
}

/// Sum of the interval lengths in a 128-bit accumulator, which cannot overflow:
/// a sequence holds at most `usize::MAX` intervals of length at most `u64::MAX`.
fn excluded_total(exclusions: &[TimeInterval]) -> (r: u128)
    requires
        all_wf(exclusions@),
    ensures
        r == total_len(exclusions@),
{
    let n = exclusions.len();
    let mut acc: u128 = 0;
    let mut i: usize = 0;
    proof {
        assert(exclusions@.subrange(0, 0) =~= Seq::<TimeInterval>::empty());
    }
    while i < n
        invariant
            n == exclusions@.len(),
            0 <= i <= n,
            acc == total_len(exclusions@.subrange(0, i as int)),
            acc <= (i as int) * (u64::MAX as int),
            all_wf(exclusions@),
        decreases n - i,
    {
        let e = exclusions[i];
        proof {
            lemma_total_len_extend(exclusions@, i as int);
            lemma_mul_inequality(i as int + 1, usize::MAX as int, u64::MAX as int);
        }
        acc = acc + (e.end_ms - e.start_ms) as u128;
        i = i + 1;
    }
    proof {
        assert(exclusions@.subrange(0, n as int) =~= exclusions@);
    }
    acc
}

/// Total excluded duration in milliseconds: the sum of the exclusions'
/// lengths, as given, without merging overlaps.
pub fn total_excluded_duration(exclusions: &[TimeInterval]) -> (r: u64)
    requires
        all_wf(exclusions@),
        total_len(exclusions@) <= u64::MAX,
    ensures
        r == total_len(exclusions@),
{
    excluded_total(exclusions) as u64
}

/// Calculates partition split points from media metadata and a target size.
///
/// Returns the empty list exactly on degenerate inputs: when nothing of the
/// timeline is left after the exclusions, when the file or the target size is
/// zero, or when the estimated effective size rounds down to zero bytes.
/// Otherwise the partitions tile `[0, effective duration]`: they are
/// contiguous, non-overlapping, in ascending index order, and the last one
/// ends exactly at the effective duration.
pub fn calculate_partition_points(
    metadata: &VideoMetadata,
    target_size_bytes: u64,
    exclusions: &[TimeInterval],
) -> (points: Vec<PartitionPoint>)
    requires
        all_wf(exclusions@),
    ensures
        points@.len() == spec_partition_count(
            metadata.duration_ms as int,
            metadata.file_size as int,
            target_size_bytes as int,
            exclusions@,
        ),
        points@.len() == 0 <==> (spec_effective_ms(metadata.duration_ms as int, exclusions@) <= 0
            || metadata.file_size == 0 || target_size_bytes == 0 || spec_effective_size(
            metadata.duration_ms as int,
            metadata.file_size as int,
            exclusions@,
        ) == 0),
        forall|i: int|
            0 <= i < points@.len() ==> {
                let d = metadata.duration_ms as int;
                let fs = metadata.file_size as int;
                let tgt = target_size_bytes as int;
                let eff = spec_effective_ms(d, exclusions@);
                let eff_size = spec_effective_size(d, fs, exclusions@);
                &&& (#[trigger] points@[i]).index == i
                &&& points@[i].start_ms == spec_partition_start(d, fs, tgt, exclusions@, i)
                &&& points@[i].end_ms == spec_partition_end(d, fs, tgt, exclusions@, i)
                &&& points@[i].estimated_size_bytes == ((points@[i].end_ms - points@[i].start_ms)
                    * eff_size) / eff
                &&& points@[i].start_ms <= points@[i].end_ms
            },
        points@.len() > 0 ==> points@[0].start_ms == 0 && points@[points@.len() - 1].end_ms
            == spec_effective_ms(metadata.duration_ms as int, exclusions@),
        forall|i: int|
            0 <= i < points@.len() - 1 ==> (#[trigger] points@[i]).end_ms == points@[i
                + 1].start_ms,
{
    let excluded = excluded_total(exclusions);

    if metadata.file_size == 0 || target_size_bytes == 0 {
        return Vec::new();
    }
    if excluded >= metadata.duration_ms as u128 {
        return Vec::new();
    }
    let effective_ms: u64 = metadata.duration_ms - (excluded as u64);

    proof {
        lemma_mul_upper_bound(
            metadata.file_size as int,
            u64::MAX as int,
            effective_ms as int,
            u64::MAX as int,
        );
    }
    let effective_size_wide: u128 = (metadata.file_size as u128) * (effective_ms as u128) / (
    metadata.duration_ms as u128);
    proof {
        let fs = metadata.file_size as int;
        let d = metadata.duration_ms as int;
        lemma_mul_inequality(effective_ms as int, d, fs);
        lemma_mul_is_commutative(effective_ms as int, fs);
        lemma_mul_is_commutative(d, fs);
        lemma_div_is_ordered(fs * (effective_ms as int), fs * d, d);
        lemma_div_multiples_vanish(fs, d);
    }
    let effective_size: u64 = effective_size_wide as u64;

    if effective_size == 0 {
        proof {
            lemma_div_of0(target_size_bytes as int);
            lemma_small_mod(0, target_size_bytes as nat);
        }
        return Vec::new();
    }
    let quotient: u64 = effective_size / target_size_bytes;
    let remainder: u64 = effective_size % target_size_bytes;
    let count64: u64 = if remainder != 0 {
        proof {
            // A nonzero remainder means the target does not divide the
            // effective size, so the target is at least 2 and the quotient
            // leaves room for the rounding increment.
            lemma_div_is_ordered_by_denominator(effective_size as int, 2, target_size_bytes as int);
        }
        quotient + 1
    } else {
        quotient
    };
    proof {
        // A positive effective size yields at least one partition.
        lemma_fundamental_div_mod(effective_size as int, target_size_bytes as int);
        if quotient == 0 && remainder == 0 {
            assert(effective_size as int == target_size_bytes as int * 0 + 0);
        }
        assert(count64 > 0);
    }
    let count: u32 = if count64 > u32::MAX as u64 {
        u32::MAX
    } else {
        count64 as u32
    };
    let time_per_partition: u64 = effective_ms / (count as u64);

    proof {
        lemma_fundamental_div_mod(effective_ms as int, count as int);
    }

    let ghost d = metadata.duration_ms as int;
    let ghost fs = metadata.file_size as int;
    let ghost tgt = target_size_bytes as int;
    let ghost eff = spec_effective_ms(d, exclusions@);
    let ghost eff_size = spec_effective_size(d, fs, exclusions@);
    let ghost tpp = spec_time_per_partition(d, fs, tgt, exclusions@);

    let mut points: Vec<PartitionPoint> = Vec::new();
    let mut i: u32 = 0;
    while i < count
        invariant
            0 <= i <= count,
            points@.len() == i,
            count == spec_partition_count(d, fs, tgt, exclusions@),
            effective_ms == eff,
            effective_size == eff_size,
            time_per_partition == tpp,
            eff > 0,
            count > 0,
            (count as int) * (time_per_partition as int) <= eff,
            forall|j: int|
                0 <= j < i ==> {
                    &&& (#[trigger] points@[j]).index == j
                    &&& points@[j].start_ms == j * tpp
                    &&& points@[j].end_ms == if j == count - 1 {
                        eff
                    } else {
                        (j + 1) * tpp
                    }
                    &&& points@[j].estimated_size_bytes == ((points@[j].end_ms
                        - points@[j].start_ms) * eff_size) / eff
                    &&& points@[j].start_ms <= points@[j].end_ms
                },
        decreases count - i,
    {
        proof {
            lemma_mul_inequality(i as int, count as int, time_per_partition as int);
            lemma_mul_inequality(i as int + 1, count as int, time_per_partition as int);
            lemma_mul_inequality(i as int, i as int + 1, time_per_partition as int);
        }
        let start: u64 = (i as u64) * time_per_partition;
        let end: u64 = if i == count - 1 {
            effective_ms
        } else {
            ((i + 1) as u64) * time_per_partition
        };
        proof {
            assert(start <= end);
            let span = end as int - start as int;
            lemma_mul_upper_bound(span, u64::MAX as int, eff_size, u64::MAX as int);
            lemma_mul_inequality(span, eff, eff_size);
            lemma_mul_is_commutative(span, eff_size);
            lemma_mul_is_commutative(eff, eff_size);
            lemma_div_is_ordered(eff_size * span, eff_size * eff, eff);
            lemma_div_multiples_vanish(eff_size, eff);
        }
        let estimated: u64 = (((end - start) as u128) * (effective_size as u128) / (
        effective_ms as u128)) as u64;
        points.push(
            PartitionPoint { index: i, start_ms: start, end_ms: end, estimated_size_bytes: estimated },
        );
        i = i + 1;
    }
    points
}

/// With no exclusions, the planned partition count is exactly the file size
/// divided by the target size, rounded up (and capped at `u32::MAX`): the
/// time-proportional estimate leaves the byte count unchanged.
pub proof fn lemma_even_split_count(duration_ms: int, file_size: int, target_size_bytes: int)
    requires
        duration_ms > 0,
        file_size > 0,
        target_size_bytes > 0,
    ensures
        spec_partition_count(duration_ms, file_size, target_size_bytes, Seq::empty())
            == if div_ceil(file_size, target_size_bytes) > u32::MAX {
            u32::MAX as int
        } else {
            div_ceil(file_size, target_size_bytes)
        },
{
    assert(total_len(Seq::<TimeInterval>::empty()) == 0);
    assert(spec_effective_ms(duration_ms, Seq::empty()) == duration_ms);
    lemma_div_multiples_vanish(file_size, duration_ms);
    assert(spec_effective_size(duration_ms, file_size, Seq::empty()) == file_size);
}

} // verus!
