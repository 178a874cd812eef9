//! Timeline remapping: reduce an exclusion set to sorted, disjoint included
//! intervals on the original timeline, and map effective-time ranges back
//! onto original-timeline segments.

use vstd::prelude::*;

use vstd::seq_lib::group_to_multiset_ensures;

use crate::models::{
    TimeInterval, all_wf, covers, disjoint_sorted, lemma_prefix_len_bound, lemma_total_len_extend,
    lemma_total_len_prefix_le, lemma_total_len_push, total_len,
};

verus! {

/// The intervals appear in ascending order of their start times.
pub open spec fn sorted_by_start(s: Seq<TimeInterval>) -> bool {
    forall|i: int, j: int|
        0 <= i < j < s.len() ==> (#[trigger] s[i]).start_ms <= (#[trigger] s[j]).start_ms
}

/// The smaller of two integers.
pub open spec fn min_int(a: int, b: int) -> int {
    if a < b {
        a
    } else {
        b
    }
}

/// The larger of two integers.
pub open spec fn max_int(a: int, b: int) -> int {
    if a < b {
        b
    } else {
        a
    }
}

/// The segments that realize the effective range `[a, b)` over the given
/// included intervals, when the cursor has already consumed `pos` effective
/// milliseconds: each included interval overlapping the range contributes its
/// clipped image on the original timeline, in order.
pub open spec fn spec_map_segments(included: Seq<TimeInterval>, a: int, b: int, pos: int) -> Seq<
    TimeInterval,
>
    decreases included.len(),
{
    if included.len() == 0 {
        Seq::empty()
    } else {
        let iv = included[0];
        let iv_end = pos + iv.spec_len();
        let rest = spec_map_segments(included.drop_first(), a, b, iv_end);
        if iv_end > a && pos < b {
            seq![
                TimeInterval {
                    start_ms: (iv.start_ms + (max_int(a, pos) - pos)) as u64,
                    end_ms: (iv.start_ms + (min_int(b, iv_end) - pos)) as u64,
                },
            ] + rest
        } else {
            rest
        }
    }
}

/// Once the cursor has passed the end of the range, nothing more is emitted.
proof fn lemma_map_segments_done(included: Seq<TimeInterval>, a: int, b: int, pos: int)
    requires
        pos >= b,
        forall|j: int| 0 <= j < included.len() ==> (#[trigger] included[j]).wf(),
    ensures
        spec_map_segments(included, a, b, pos) == Seq::<TimeInterval>::empty(),
    decreases included.len(),
{
    if included.len() > 0 {
        assert(included[0].wf());
        assert(forall|j: int|
            0 <= j < included.drop_first().len() ==> (#[trigger] included.drop_first()[j]).wf());
        lemma_map_segments_done(included.drop_first(), a, b, pos + included[0].spec_len());
    }
}

/// Sequences with equal multisets cover exactly the same time points.
proof fn lemma_covers_permutation(a: Seq<TimeInterval>, b: Seq<TimeInterval>, t: int)
    requires
        a.to_multiset() == b.to_multiset(),
    ensures
        covers(a, t) == covers(b, t),
{
    broadcast use group_to_multiset_ensures;

    if covers(a, t) {
        let i = choose|i: int| 0 <= i < a.len() && (#[trigger] a[i]).contains_time(t);
        assert(a.contains(a[i]));
        assert(a.to_multiset().count(a[i]) > 0);
        assert(b.to_multiset().count(a[i]) > 0);
        assert(b.contains(a[i]));
        let j = choose|j: int| 0 <= j < b.len() && b[j] == a[i];
        assert(b[j].contains_time(t));
    }
    if covers(b, t) {
        let i = choose|i: int| 0 <= i < b.len() && (#[trigger] b[i]).contains_time(t);
        assert(b.contains(b[i]));
        assert(b.to_multiset().count(b[i]) > 0);
        assert(a.to_multiset().count(b[i]) > 0);
        assert(a.contains(b[i]));
        let j = choose|j: int| 0 <= j < a.len() && a[j] == b[i];
        assert(a[j].contains_time(t));
    }
}

/// Every interval of a sequence appears in any multiset-equal sequence, so
/// pointwise bounds carry over.
proof fn lemma_bounds_permutation(a: Seq<TimeInterval>, b: Seq<TimeInterval>, duration_ms: int)
    requires
        a.to_multiset() == b.to_multiset(),
        forall|i: int| 0 <= i < a.len() ==> (#[trigger] a[i]).end_ms <= duration_ms,
    ensures
        forall|i: int| 0 <= i < b.len() ==> (#[trigger] b[i]).end_ms <= duration_ms,
{
    broadcast use group_to_multiset_ensures;

    assert forall|i: int| 0 <= i < b.len() implies (#[trigger] b[i]).end_ms <= duration_ms by {
        assert(b.contains(b[i]));
        assert(b.to_multiset().count(b[i]) > 0);
        assert(a.to_multiset().count(b[i]) > 0);
        assert(a.contains(b[i]));
        let j = choose|j: int| 0 <= j < a.len() && a[j] == b[i];
        assert(a[j].end_ms <= duration_ms);
    }
}

/// Appending an interval to a sequence extends the covered points by exactly
/// the points of that interval.
proof fn lemma_covers_push(s: Seq<TimeInterval>, e: TimeInterval, t: int)
    ensures
        covers(s.push(e), t) == (covers(s, t) || e.contains_time(t)),
{
    let s2 = s.push(e);
    if covers(s, t) {
        let i = choose|i: int| 0 <= i < s.len() && (#[trigger] s[i]).contains_time(t);
        assert(s2[i].contains_time(t));
    }
    if e.contains_time(t) {
        assert(s2[s.len() as int].contains_time(t));
    }
    if covers(s2, t) && !e.contains_time(t) {
        let i = choose|i: int| 0 <= i < s2.len() && (#[trigger] s2[i]).contains_time(t);
        assert(i < s.len());
        assert(s[i].contains_time(t));
    }
}

/// Well-formedness of every interval carries over to any permutation.
proof fn lemma_all_wf_permutation(a: Seq<TimeInterval>, b: Seq<TimeInterval>)
    requires
        a.to_multiset() == b.to_multiset(),
        all_wf(a),
    ensures
        all_wf(b),
{
    broadcast use group_to_multiset_ensures;

    assert forall|i: int| 0 <= i < b.len() implies (#[trigger] b[i]).wf() by {
        assert(b.contains(b[i]));
        assert(b.to_multiset().count(b[i]) > 0);
        assert(a.to_multiset().count(b[i]) > 0);
        assert(a.contains(b[i]));
        let j = choose|j: int| 0 <= j < a.len() && a[j] == b[i];
        assert(a[j].wf());
    }
}

/// Copies the exclusions and sorts them in ascending order of start time
/// (insertion sort); the result is a permutation of the input.
fn sort_by_start_time(exclusions: &[TimeInterval]) -> (r: Vec<TimeInterval>)
    ensures
        sorted_by_start(r@),
        r@.to_multiset() == exclusions@.to_multiset(),
        r@.len() == exclusions@.len(),
        sorted_by_start(exclusions@) ==> r@ == exclusions@,
{
    broadcast use group_to_multiset_ensures;

    let mut v: Vec<TimeInterval> = vstd::slice::slice_to_vec(exclusions);
    let n = v.len();
    if n <= 1 {
        proof {
            assert(v@ =~= exclusions@);
        }
        return v;
    }
    let mut i: usize = 1;
    while i < n
        invariant
            1 <= i <= n,
            n == v@.len(),
            v@.to_multiset() == exclusions@.to_multiset(),
            forall|p: int, q: int|
                0 <= p < q < i ==> (#[trigger] v@[p]).start_ms <= (#[trigger] v@[q]).start_ms,
            sorted_by_start(exclusions@) ==> v@ == exclusions@,
        decreases n - i,
    {
        let mut j: usize = i;
        while j > 0 && v[j - 1].start_ms > v[j].start_ms
            invariant
                0 <= j <= i < n,
                n == v@.len(),
                v@.to_multiset() == exclusions@.to_multiset(),
                forall|p: int, q: int|
                    0 <= p < q <= i && q != j ==> (#[trigger] v@[p]).start_ms
                        <= (#[trigger] v@[q]).start_ms,
                sorted_by_start(exclusions@) ==> v@ == exclusions@,
            decreases j,
        {
            let ghost before = v@;
            let a = v[j - 1];
            let b = v[j];
            v.set(j - 1, b);
            v.set(j, a);
            proof {
                let m0 = before.to_multiset();
                let s1 = before.update(j - 1, b);
                assert(v@ =~= s1.update(j as int, a));
                assert(before[j - 1] == a);
                assert(s1[j as int] == b);
                vstd::seq_lib::to_multiset_update(before, j - 1, b);
                assert(s1.to_multiset() == m0.insert(b).remove(a));
                vstd::seq_lib::to_multiset_update(s1, j as int, a);
                assert(v@.to_multiset() == s1.to_multiset().insert(a).remove(b));
                assert(before.contains(a));
                vstd::seq_lib::to_multiset_contains(before, a);
                assert(m0.count(a) > 0);
                assert(v@.to_multiset() =~= m0);
            }
            j = j - 1;
        }
        i = i + 1;
    }
    v
}

/// Computes the included intervals: the complement of the exclusions within
/// `[0, duration_ms]`, as a sorted list of disjoint, non-empty intervals.
///
/// A time point below the duration lies in some included interval exactly
/// when no exclusion covers it. Exclusions may overlap and arrive in any
/// order. When every exclusion ends by the duration, so does every included
/// interval.
pub fn compute_included_intervals(exclusions: &[TimeInterval], duration_ms: u64) -> (included: Vec<
    TimeInterval,
>)
    requires
        all_wf(exclusions@),
    ensures
        disjoint_sorted(included@),
        forall|t: int|
            0 <= t < duration_ms ==> (covers(included@, t) <==> !covers(exclusions@, t)),
        (forall|i: int|
            0 <= i < exclusions@.len() ==> (#[trigger] exclusions@[i]).end_ms <= duration_ms)
            ==> (forall|i: int|
            0 <= i < included@.len() ==> (#[trigger] included@[i]).end_ms <= duration_ms),
        (disjoint_sorted(exclusions@) && (forall|i: int|
            0 <= i < exclusions@.len() ==> (#[trigger] exclusions@[i]).end_ms <= duration_ms))
            ==> total_len(included@) == duration_ms - total_len(exclusions@),
{
    let sorted = sort_by_start_time(exclusions);
    let ghost sq = sorted@;
    proof {
        lemma_all_wf_permutation(exclusions@, sq);
    }
    let n = sorted.len();
    let ghost bounded = forall|i: int|
        0 <= i < exclusions@.len() ==> (#[trigger] exclusions@[i]).end_ms <= duration_ms;
    let ghost wfh = disjoint_sorted(exclusions@) && bounded;
    proof {
        if bounded {
            lemma_bounds_permutation(exclusions@, sq, duration_ms as int);
        }
        if wfh {
            // Disjoint sorted exclusions are already in ascending start
            // order, so sorting leaves them unchanged.
            assert forall|p: int, q: int|
                0 <= p < q < exclusions@.len() implies (#[trigger] exclusions@[p]).start_ms <= (
            #[trigger] exclusions@[q]).start_ms by {
                assert(exclusions@[p].end_ms <= exclusions@[q].start_ms);
            }
            assert(sorted_by_start(exclusions@));
            assert(sq == exclusions@);
        }
    }

    let mut included: Vec<TimeInterval> = Vec::new();
    let mut pos: u64 = 0;
    let mut k: usize = 0;
    proof {
        assert(sq.subrange(0, 0) =~= Seq::<TimeInterval>::empty());
    }
    while k < n
        invariant
            0 <= k <= n,
            n == sq.len(),
            sorted@ == sq,
            all_wf(sq),
            sorted_by_start(sq),
            disjoint_sorted(included@),
            forall|x: int| 0 <= x < included@.len() ==> (#[trigger] included@[x]).end_ms <= pos,
            forall|t: int|
                0 <= t < pos ==> (covers(included@, t) <==> !covers(
                    sq.subrange(0, k as int),
                    t,
                )),
            forall|x: int, j: int|
                0 <= x < included@.len() && k <= j < sq.len() ==> (
                #[trigger] included@[x]).end_ms <= (#[trigger] sq[j]).start_ms,
            forall|j: int| 0 <= j < k ==> (#[trigger] sq[j]).end_ms <= pos,
            bounded ==> forall|x: int|
                0 <= x < included@.len() ==> (#[trigger] included@[x]).end_ms <= duration_ms,
            bounded ==> forall|j: int| 0 <= j < sq.len() ==> (#[trigger] sq[j]).end_ms
                <= duration_ms,
            wfh == (disjoint_sorted(exclusions@) && bounded),
            wfh ==> sq == exclusions@,
            wfh ==> pos == total_len(sq.subrange(0, k as int)) + total_len(included@),
            wfh ==> (k > 0 ==> pos == sq[k - 1].end_ms),
            wfh ==> (k == 0 ==> pos == 0),
        decreases n - k,
    {
        let e = sorted[k];
        let ghost old_pos = pos;
        let ghost old_inc = included@;
        let ghost gap = TimeInterval { start_ms: pos, end_ms: e.start_ms };
        if e.start_ms > pos {
            included.push(TimeInterval { start_ms: pos, end_ms: e.start_ms });
        }
        if e.end_ms > pos {
            pos = e.end_ms;
        }
        proof {
            if wfh {
                // Account for the lengths: what the cursor passed is either
                // excluded (this exclusion) or included (the emitted gap).
                lemma_total_len_extend(sq, k as int);
                assert(disjoint_sorted(sq));
                assert(sq[k as int].start_ms < sq[k as int].end_ms);
                if k > 0 {
                    assert(sq[k - 1].end_ms <= sq[k as int].start_ms);
                }
                assert(e.start_ms >= old_pos);
                if e.start_ms > old_pos {
                    lemma_total_len_push(
                        old_inc,
                        TimeInterval { start_ms: old_pos, end_ms: e.start_ms },
                    );
                }
            }
            let prefix = sq.subrange(0, k as int);
            assert(sq.subrange(0, k as int + 1) =~= prefix.push(e));
            assert forall|t: int|
                0 <= t < pos implies (covers(included@, t) <==> !covers(
                sq.subrange(0, k as int + 1),
                t,
            )) by {
                lemma_covers_push(prefix, e, t);
                if e.start_ms > old_pos {
                    lemma_covers_push(old_inc, gap, t);
                }
                if t < old_pos {
                    if e.contains_time(t) {
                        // Every interval gathered so far ends at or before this
                        // exclusion's start, so none of them contains `t`.
                        assert forall|x: int|
                            0 <= x < included@.len() implies !(
                        #[trigger] included@[x]).contains_time(t) by {
                            if x < old_inc.len() {
                                assert(old_inc[x].end_ms <= sq[k as int].start_ms);
                            }
                        }
                        assert(!covers(included@, t));
                        assert(!covers(old_inc, t));
                        assert(covers(prefix, t));
                    }
                } else {
                    if e.start_ms > old_pos && t < e.start_ms {
                        // `t` lies in the newly emitted gap interval.
                        assert(included@[included@.len() - 1].contains_time(t));
                        assert(covers(included@, t));
                        assert forall|j: int|
                            0 <= j < prefix.len() implies !(#[trigger] prefix[j]).contains_time(
                            t,
                        ) by {
                            assert(sq[j].end_ms <= old_pos);
                        }
                        assert(!covers(prefix, t));
                    } else {
                        // `t` lies inside the exclusion being processed.
                        assert(e.contains_time(t));
                        assert forall|x: int|
                            0 <= x < included@.len() implies !(
                        #[trigger] included@[x]).contains_time(t) by {}
                        assert(!covers(included@, t));
                    }
                }
            }
        }
        k = k + 1;
    }
    proof {
        assert(sq.subrange(0, n as int) =~= sq);
    }
    if pos < duration_ms {
        let ghost before_final = included@;
        let ghost fin = TimeInterval { start_ms: pos, end_ms: duration_ms };
        included.push(TimeInterval { start_ms: pos, end_ms: duration_ms });
        proof {
            if wfh {
                lemma_total_len_push(before_final, fin);
            }
            assert forall|t: int|
                0 <= t < duration_ms implies (covers(included@, t) <==> !covers(sq, t)) by {
                lemma_covers_push(before_final, fin, t);
                if t >= pos {
                    assert forall|j: int| 0 <= j < sq.len() implies !(
                    #[trigger] sq[j]).contains_time(t) by {
                        assert(sq[j].end_ms <= pos);
                    }
                    assert(!covers(sq, t));
                }
            }
        }
    }
    proof {
        assert forall|t: int|
            0 <= t < duration_ms implies (covers(included@, t) <==> !covers(
            exclusions@,
            t,
        )) by {
            lemma_covers_permutation(sq, exclusions@, t);
        }
    }
    included
}

/// Maps a range of the effective timeline back onto the original timeline.
///
/// Walks the included intervals, tracking the cumulative effective time, and
/// clips each one to the requested range. The segments come back in strictly
/// ascending original-time order, pairwise disjoint, each contained in one
/// included interval, and their total duration is exactly the requested
/// effective range clipped to the effective timeline's total length; in
/// particular, a range within the effective timeline is preserved exactly.
pub fn map_partition_to_original_segments(
    effective_start_ms: u64,
    effective_end_ms: u64,
    included: &[TimeInterval],
) -> (segments: Vec<TimeInterval>)
    requires
        disjoint_sorted(included@),
        effective_start_ms <= effective_end_ms,
    ensures
        segments@ == spec_map_segments(
            included@,
            effective_start_ms as int,
            effective_end_ms as int,
            0,
        ),
        all_wf(segments@),
        forall|p: int, q: int|
            0 <= p < q < segments@.len() ==> (#[trigger] segments@[p]).end_ms <= (
            #[trigger] segments@[q]).start_ms,
        effective_start_ms < effective_end_ms ==> disjoint_sorted(segments@),
        forall|p: int|
            0 <= p < segments@.len() ==> exists|j: int|
                0 <= j < included@.len() && (#[trigger] included@[j]).start_ms <= (
                #[trigger] segments@[p]).start_ms && segments@[p].end_ms <= included@[j].end_ms,
        total_len(segments@) == min_int(effective_end_ms as int, total_len(included@)) - min_int(
            effective_start_ms as int,
            total_len(included@),
        ),
        effective_end_ms <= total_len(included@) ==> total_len(segments@) == effective_end_ms
            - effective_start_ms,
        (effective_start_ms < effective_end_ms && effective_start_ms < total_len(included@))
            ==> segments@.len() > 0,
{
    let n = included.len();
    let mut segments: Vec<TimeInterval> = Vec::new();
    let mut effective_pos: u64 = 0;
    let mut i: usize = 0;
    let ghost a = effective_start_ms as int;
    let ghost b = effective_end_ms as int;
    proof {
        assert(included@.subrange(0, 0) =~= Seq::<TimeInterval>::empty());
        assert(included@.subrange(0, n as int) =~= included@);
        assert(Seq::<TimeInterval>::empty() + spec_map_segments(included@, a, b, 0)
            =~= spec_map_segments(included@, a, b, 0));
    }
    while i < n && effective_pos < effective_end_ms
        invariant
            0 <= i <= n,
            n == included@.len(),
            disjoint_sorted(included@),
            effective_start_ms <= effective_end_ms,
            a == effective_start_ms as int,
            b == effective_end_ms as int,
            effective_pos == total_len(included@.subrange(0, i as int)),
            spec_map_segments(included@, a, b, 0) == segments@ + spec_map_segments(
                included@.subrange(i as int, n as int),
                a,
                b,
                effective_pos as int,
            ),
            total_len(segments@) == min_int(effective_end_ms as int, effective_pos as int)
                - min_int(effective_start_ms as int, effective_pos as int),
            all_wf(segments@),
            forall|p: int, q: int|
                0 <= p < q < segments@.len() ==> (#[trigger] segments@[p]).end_ms <= (
                #[trigger] segments@[q]).start_ms,
            effective_start_ms < effective_end_ms ==> forall|p: int|
                0 <= p < segments@.len() ==> (#[trigger] segments@[p]).start_ms
                    < segments@[p].end_ms,
            forall|p: int|
                0 <= p < segments@.len() ==> exists|j: int|
                    0 <= j < i && (#[trigger] included@[j]).start_ms <= (
                    #[trigger] segments@[p]).start_ms && segments@[p].end_ms
                        <= included@[j].end_ms,
        decreases n - i,
    {
        let iv = included[i];
        proof {
            lemma_prefix_len_bound(included@, i as int);
            lemma_total_len_extend(included@, i as int);
        }
        let interval_len = iv.end_ms - iv.start_ms;
        let interval_effective_end = effective_pos + interval_len;

        if interval_effective_end > effective_start_ms {
            let overlap_eff_start = if effective_start_ms > effective_pos {
                effective_start_ms
            } else {
                effective_pos
            };
            let overlap_eff_end = if effective_end_ms < interval_effective_end {
                effective_end_ms
            } else {
                interval_effective_end
            };
            let seg = TimeInterval {
                start_ms: iv.start_ms + (overlap_eff_start - effective_pos),
                end_ms: iv.start_ms + (overlap_eff_end - effective_pos),
            };
            let ghost old_segments = segments@;
            proof {
                lemma_total_len_push(old_segments, seg);
                // Earlier segments sit inside earlier included intervals,
                // which end before this one starts.
                assert forall|p: int|
                    0 <= p < old_segments.len() implies (#[trigger] old_segments[p]).end_ms
                    <= seg.start_ms by {
                    let j = choose|j: int|
                        0 <= j < i && (#[trigger] included@[j]).start_ms <= old_segments[p].start_ms
                            && old_segments[p].end_ms <= included@[j].end_ms;
                    assert(included@[j].end_ms <= included@[i as int].start_ms);
                }
            }
            segments.push(seg);
            proof {
                assert forall|p: int|
                    0 <= p < segments@.len() implies exists|j: int|
                        0 <= j < i + 1 && (#[trigger] included@[j]).start_ms <= (
                        #[trigger] segments@[p]).start_ms && segments@[p].end_ms
                            <= included@[j].end_ms by {
                    if p < old_segments.len() {
                        let j = choose|j: int|
                            0 <= j < i && (#[trigger] included@[j]).start_ms
                                <= old_segments[p].start_ms && old_segments[p].end_ms
                                <= included@[j].end_ms;
                        assert(0 <= j < i + 1 && included@[j].start_ms <= segments@[p].start_ms
                            && segments@[p].end_ms <= included@[j].end_ms);
                    } else {
                        assert(included@[i as int].start_ms <= segments@[p].start_ms
                            && segments@[p].end_ms <= included@[i as int].end_ms);
                    }
                }
                let suf = included@.subrange(i as int, n as int);
                assert(suf[0] == included@[i as int]);
                assert(suf.drop_first() =~= included@.subrange(i as int + 1, n as int));
                assert(spec_map_segments(suf, a, b, effective_pos as int) == seq![seg]
                    + spec_map_segments(
                    suf.drop_first(),
                    a,
                    b,
                    effective_pos as int + iv.spec_len(),
                ));
                assert(segments@ =~= old_segments + seq![seg]);
                assert(spec_map_segments(included@, a, b, 0) =~= segments@ + spec_map_segments(
                    included@.subrange(i as int + 1, n as int),
                    a,
                    b,
                    interval_effective_end as int,
                ));
            }
        } else {
            proof {
                let suf = included@.subrange(i as int, n as int);
                assert(suf[0] == included@[i as int]);
                assert(suf.drop_first() =~= included@.subrange(i as int + 1, n as int));
                assert(spec_map_segments(included@, a, b, 0) == segments@ + spec_map_segments(
                    included@.subrange(i as int + 1, n as int),
                    a,
                    b,
                    interval_effective_end as int,
                ));
            }
        }
        effective_pos = interval_effective_end;
        i = i + 1;
    }
    proof {
        if i == n {
            assert(included@.subrange(0, n as int) =~= included@);
        } else {
            lemma_total_len_prefix_le(included@, i as int);
        }
        if segments@.len() == 0 {
            assert(total_len(segments@) == 0);
        }
        let suf = included@.subrange(i as int, n as int);
        if i < n {
            assert forall|j: int| 0 <= j < suf.len() implies (#[trigger] suf[j]).wf() by {
                assert(suf[j] == included@[i + j]);
            }
            lemma_map_segments_done(suf, a, b, effective_pos as int);
        } else {
            assert(suf =~= Seq::<TimeInterval>::empty());
        }
        assert(segments@ + Seq::<TimeInterval>::empty() =~= segments@);
    }
    segments
}

} // verus!
