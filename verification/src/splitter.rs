//! Split planning: turns one split request into a fully determined list of
//! extraction and concatenation jobs, ready for an external encoder to run.

use vstd::prelude::*;

use vstd::arithmetic::div_mod::{lemma_div_pos_is_pos, lemma_fundamental_div_mod};
use vstd::arithmetic::mul::{lemma_mul_inequality, lemma_mul_nonnegative};

use crate::calculator::{
    calculate_partition_points, spec_partition_count, spec_partition_end, spec_partition_start,
};
use crate::models::{TimeInterval, VideoMetadata, all_wf, covers, disjoint_sorted, total_len};
use crate::naming::{output_file_name, spec_output_name, spec_temp_name, temp_segment_name};
use crate::timeline::{compute_included_intervals, map_partition_to_original_segments, min_int};

verus! {

/// One extraction the external encoder must perform: cut the segment (on the
/// original timeline) out of the source and write it to the named file.
#[derive(Clone, Debug)]
pub struct ExtractJob {
    /// The original-timeline range to extract.
    pub segment: TimeInterval,
    /// File name (within the output directory) to extract into.
    pub dest_name: String,
}

/// Everything needed to produce one output partition: its extractions in
/// order and, when there is more than one, a concatenation of the extracted
/// files (in that same order) into the final output file.
#[derive(Clone, Debug)]
pub struct PartitionJob {
    /// Partition index (0-based).
    pub index: u32,
    /// Name of the final output file.
    pub output_name: String,
    /// The extractions, in ascending original-time order. For a single
    /// extraction the destination is the final output file itself; otherwise
    /// each goes to its own temporary file.
    pub extracts: Vec<ExtractJob>,
    /// Whether the extracted files must be concatenated into the output file
    /// (and the temporary files removed afterwards, best effort).
    pub needs_concat: bool,
}

/// A complete plan for one split request.
#[derive(Clone, Debug)]
pub struct SplitPlan {
    /// The included intervals the partitions were mapped through.
    pub included: Vec<TimeInterval>,
    /// One job per output partition, in ascending index order.
    pub jobs: Vec<PartitionJob>,
}

/// The original-timeline segments of one job, in extraction order.
pub open spec fn job_segments(job: PartitionJob) -> Seq<TimeInterval> {
    job.extracts@.map_values(|e: ExtractJob| e.segment)
}

/// What the plan promises of the job for partition `i`: names derived from
/// the stem, extension and 1-based partition number; segments well-formed,
/// disjoint, ascending, each inside an included interval; and their total
/// duration equal to the partition's effective range clipped to the effective
/// timeline's length.
pub open spec fn job_wf(
    job: PartitionJob,
    included: Seq<TimeInterval>,
    duration_ms: int,
    file_size: int,
    target_size_bytes: int,
    exclusions: Seq<TimeInterval>,
    stem: Seq<char>,
    ext: Seq<char>,
    i: int,
) -> bool {
    let segs = job_segments(job);
    &&& job.index == i
    &&& job.output_name@ == spec_output_name(stem, ext, i + 1)
    &&& job.needs_concat == (job.extracts@.len() != 1)
    &&& (job.extracts@.len() == 1 ==> job.extracts@[0].dest_name@ == spec_output_name(
        stem,
        ext,
        i + 1,
    ))
    &&& (job.extracts@.len() != 1 ==> forall|k: int|
        0 <= k < job.extracts@.len() ==> (#[trigger] job.extracts@[k]).dest_name@
            == spec_temp_name(stem, ext, i + 1, k))
    &&& all_wf(segs)
    &&& (forall|p: int, q: int|
        0 <= p < q < segs.len() ==> (#[trigger] segs[p]).end_ms <= (#[trigger] segs[q]).start_ms)
    &&& (forall|p: int|
        0 <= p < segs.len() ==> exists|m: int|
            0 <= m < included.len() && (#[trigger] included[m]).start_ms <= (
            #[trigger] segs[p]).start_ms && segs[p].end_ms <= included[m].end_ms)
    &&& total_len(segs) == min_int(
        spec_partition_end(duration_ms, file_size, target_size_bytes, exclusions, i),
        total_len(included),
    ) - min_int(
        spec_partition_start(duration_ms, file_size, target_size_bytes, exclusions, i),
        total_len(included),
    )
}

/// Plans a whole split request: partitions the effective timeline, maps each
/// partition back onto the original timeline, and fixes every file name.
///
/// Returns `None` exactly when no partitions can be computed (degenerate
/// inputs, see the partition count); the caller reports that as a failed
/// request. Otherwise every planned job satisfies `job_wf`, and the included
/// intervals are the sorted disjoint complement of the exclusions: below the
/// duration, a time point is inside some included interval exactly when no
/// exclusion covers it.
#[verifier::loop_isolation(false)]
pub fn plan_split(
    duration_ms: u64,
    file_size: u64,
    target_size_bytes: u64,
    exclusions: &[TimeInterval],
    file_stem: &str,
    extension: &str,
) -> (r: Option<SplitPlan>)
    requires
        all_wf(exclusions@),
    ensures
        (r is None) <==> spec_partition_count(
            duration_ms as int,
            file_size as int,
            target_size_bytes as int,
            exclusions@,
        ) == 0,
        r matches Some(plan) ==> {
            &&& disjoint_sorted(plan.included@)
            &&& forall|t: int|
                0 <= t < duration_ms ==> (covers(plan.included@, t) <==> !covers(exclusions@, t))
            &&& plan.jobs@.len() == spec_partition_count(
                duration_ms as int,
                file_size as int,
                target_size_bytes as int,
                exclusions@,
            )
            &&& forall|i: int|
                0 <= i < plan.jobs@.len() ==> job_wf(
                    #[trigger] plan.jobs@[i],
                    plan.included@,
                    duration_ms as int,
                    file_size as int,
                    target_size_bytes as int,
                    exclusions@,
                    file_stem@,
                    extension@,
                    i,
                )
        },
        // Round trip: for disjoint exclusions within the duration, every
        // partition's mapped segments sum to exactly the partition's span.
        r matches Some(plan) ==> ((disjoint_sorted(exclusions@) && (forall|t: int|
            0 <= t < exclusions@.len() ==> (#[trigger] exclusions@[t]).end_ms <= duration_ms))
            ==> (forall|i: int|
            0 <= i < plan.jobs@.len() ==> total_len(job_segments(#[trigger] plan.jobs@[i]))
                == spec_partition_end(
                duration_ms as int,
                file_size as int,
                target_size_bytes as int,
                exclusions@,
                i,
            ) - spec_partition_start(
                duration_ms as int,
                file_size as int,
                target_size_bytes as int,
                exclusions@,
                i,
            ))),
{
    let metadata = VideoMetadata {
        file_path: String::new(),
        file_name: String::new(),
        file_size,
        duration_ms,
        width: 0,
        height: 0,
        video_codec: String::new(),
        audio_codec: None,
        bitrate: 0,
        format: String::new(),
    };
    let points = calculate_partition_points(&metadata, target_size_bytes, exclusions);
    if points.len() == 0 {
        return None;
    }
    let included = compute_included_intervals(exclusions, duration_ms);

    let mut jobs: Vec<PartitionJob> = Vec::new();
    let mut idx: usize = 0;
    while idx < points.len()
        invariant
            jobs@.len() == idx,
            0 <= idx <= points@.len(),
            forall|j: int|
                0 <= j < idx ==> job_wf(
                    #[trigger] jobs@[j],
                    included@,
                    duration_ms as int,
                    file_size as int,
                    target_size_bytes as int,
                    exclusions@,
                    file_stem@,
                    extension@,
                    j,
                ),
        decreases points@.len() - idx,
    {
        let point = points[idx];
        let number: u32 = point.index + 1;
        let output_name = output_file_name(file_stem, extension, number);
        let segments = map_partition_to_original_segments(
            point.start_ms,
            point.end_ms,
            included.as_slice(),
        );

        let mut extracts: Vec<ExtractJob> = Vec::new();
        let needs_concat = segments.len() != 1;
        if segments.len() == 1 {
            extracts.push(ExtractJob { segment: segments[0], dest_name: output_name.clone() });
        } else {
            let mut k: usize = 0;
            while k < segments.len()
                invariant
                    extracts@.len() == k,
                    0 <= k <= segments@.len(),
                    forall|m: int|
                        0 <= m < k ==> (#[trigger] extracts@[m]).segment == segments@[m]
                            && extracts@[m].dest_name@ == spec_temp_name(
                            file_stem@,
                            extension@,
                            number as int,
                            m,
                        ),
                decreases segments@.len() - k,
            {
                let name = temp_segment_name(file_stem, extension, number, k);
                extracts.push(ExtractJob { segment: segments[k], dest_name: name });
                k = k + 1;
            }
        }
        let job = PartitionJob { index: point.index, output_name, extracts, needs_concat };
        proof {
            assert(job_segments(job) =~= segments@);
        }
        jobs.push(job);
        idx = idx + 1;
    }
    proof {
        if disjoint_sorted(exclusions@) && (forall|t: int|
            0 <= t < exclusions@.len() ==> (#[trigger] exclusions@[t]).end_ms <= duration_ms) {
            let d = duration_ms as int;
            let fs = file_size as int;
            let tgt = target_size_bytes as int;
            let eff = crate::calculator::spec_effective_ms(d, exclusions@);
            let count = spec_partition_count(d, fs, tgt, exclusions@);
            let tpp = crate::calculator::spec_time_per_partition(d, fs, tgt, exclusions@);
            assert(total_len(included@) == eff);
            lemma_fundamental_div_mod(eff, count);
            lemma_div_pos_is_pos(eff, count);
            assert forall|i: int|
                0 <= i < jobs@.len() implies total_len(job_segments(#[trigger] jobs@[i]))
                == spec_partition_end(d, fs, tgt, exclusions@, i) - spec_partition_start(
                d,
                fs,
                tgt,
                exclusions@,
                i,
            ) by {
                assert(job_wf(
                    jobs@[i],
                    included@,
                    d,
                    fs,
                    tgt,
                    exclusions@,
                    file_stem@,
                    extension@,
                    i,
                ));
                lemma_mul_inequality(i, i + 1, tpp);
                lemma_mul_inequality(i + 1, count, tpp);
                lemma_mul_inequality(i, count, tpp);
                lemma_mul_nonnegative(i, tpp);
            }
        }
    }
    Some(SplitPlan { included, jobs })
}

/// A path with every backslash replaced by a forward slash: the concat list
/// format accepts forward slashes on every platform.
pub open spec fn spec_escaped_path(p: Seq<char>) -> Seq<char> {
    p.map_values(
        |c: char|
            if c == '\\' {
                '/'
            } else {
                c
            },
    )
}

/// The contents of a concat list file: one line per input file, in the given
/// order, each of the form `file '<path>'` with backslashes rewritten.
pub open spec fn spec_concat_list(paths: Seq<Seq<char>>) -> Seq<char>
    decreases paths.len(),
{
    if paths.len() == 0 {
        Seq::empty()
    } else {
        spec_concat_list(paths.drop_last()) + seq!['f', 'i', 'l', 'e', ' ', '\'']
            + spec_escaped_path(paths.last()) + seq!['\'', '\n']
    }
}

proof fn lemma_concat_list_extend(paths: Seq<Seq<char>>, i: int)
    requires
        0 <= i < paths.len(),
    ensures
        spec_concat_list(paths.subrange(0, i + 1)) == spec_concat_list(paths.subrange(0, i))
            + seq!['f', 'i', 'l', 'e', ' ', '\''] + spec_escaped_path(paths[i]) + seq!['\'', '\n'],
{
    assert(paths.subrange(0, i + 1).drop_last() =~= paths.subrange(0, i));
    assert(paths.subrange(0, i + 1).last() == paths[i]);
}

/// Appends the path with every backslash replaced by a forward slash.
fn append_escaped(s: &mut String, p: &str)
    ensures
        final(s)@ == old(s)@ + spec_escaped_path(p@),
{
    let n = p.unicode_len();
    let mut chunk_start: usize = 0;
    let mut i: usize = 0;
    while i < n
        invariant
            0 <= chunk_start <= i <= n,
            n == p@.len(),
            s@ == old(s)@ + spec_escaped_path(p@.subrange(0, chunk_start as int)),
            forall|k: int| chunk_start <= k < i ==> p@[k] != '\\',
        decreases n - i,
    {
        let c = p.get_char(i);
        if c == '\\' {
            let chunk = p.substring_char(chunk_start, i);
            s.append(chunk);
            s.append("/");
            proof {
                reveal_strlit("/");
                assert("/"@ =~= seq!['/']);
                assert(s@ =~= old(s)@ + spec_escaped_path(p@.subrange(0, i as int + 1)));
            }
            chunk_start = i + 1;
        }
        i = i + 1;
    }
    let chunk = p.substring_char(chunk_start, n);
    s.append(chunk);
    proof {
        assert(p@.subrange(0, n as int) =~= p@);
        assert(final(s)@ =~= old(s)@ + spec_escaped_path(p@));
    }
}

/// Builds the contents of the list file handed to the external encoder's
/// concatenation step: the given files, in order, one `file '<path>'` line
/// each, with backslashes rewritten to forward slashes.
pub fn concat_list_content(paths: &Vec<String>) -> (r: String)
    ensures
        r@ == spec_concat_list(paths@.map_values(|p: String| p@)),
{
    let ghost views = paths@.map_values(|p: String| p@);
    let mut s = String::new();
    let mut i: usize = 0;
    proof {
        assert(views.subrange(0, 0) =~= Seq::<Seq<char>>::empty());
    }
    while i < paths.len()
        invariant
            0 <= i <= paths@.len(),
            views == paths@.map_values(|p: String| p@),
            s@ == spec_concat_list(views.subrange(0, i as int)),
        decreases paths@.len() - i,
    {
        s.append("file '");
        append_escaped(&mut s, paths[i].as_str());
        s.append("'\n");
        proof {
            reveal_strlit("file '");
            reveal_strlit("'\n");
            assert("file '"@ =~= seq!['f', 'i', 'l', 'e', ' ', '\'']);
            assert("'\n"@ =~= seq!['\'', '\n']);
            lemma_concat_list_extend(views, i as int);
            assert(s@ =~= spec_concat_list(views.subrange(0, i as int + 1)));
        }
        i = i + 1;
    }
    proof {
        assert(views.subrange(0, paths@.len() as int) =~= views);
    }
    s
}

/// Decides whether one external extraction or concatenation succeeded: a zero
/// exit status, or an executor that terminated without reporting a status but
/// left the expected output file behind.
pub fn extraction_succeeded(exit_code: Option<i32>, output_exists: bool) -> (r: bool)
    ensures
        r == (exit_code == Some(0i32) || (exit_code is None && output_exists)),
{
    match exit_code {
        Some(code) => code == 0,
        None => output_exists,
    }
}

} // verus!
