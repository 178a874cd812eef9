//! Core data types: time intervals, partition points, requests and metadata.

use vstd::prelude::*;

verus! {

/// A time interval on some timeline, in milliseconds.
/// Well-formed intervals satisfy `start_ms <= end_ms`.
#[derive(Clone, Copy, Debug, PartialEq, Eq, Structural)]
pub struct TimeInterval {
    /// Start time in milliseconds (inclusive).
    pub start_ms: u64,
    /// End time in milliseconds (exclusive).
    pub end_ms: u64,
}

impl TimeInterval {
    /// A well-formed interval does not end before it starts.
    pub open spec fn wf(self) -> bool {
        self.start_ms <= self.end_ms
    }

    /// Length of the interval in milliseconds.
    pub open spec fn spec_len(self) -> int {
        self.end_ms - self.start_ms
    }

    /// Whether the point `t` (in milliseconds) lies inside the interval.
    /// Intervals are half-open: the start belongs to them, the end does not.
    pub open spec fn contains_time(self, t: int) -> bool {
        self.start_ms <= t < self.end_ms
    }
}

/// Every interval of the sequence is well-formed.
pub open spec fn all_wf(s: Seq<TimeInterval>) -> bool {
    forall|i: int| 0 <= i < s.len() ==> (#[trigger] s[i]).wf()
}

/// Sum of the interval lengths, in milliseconds.
pub open spec fn total_len(s: Seq<TimeInterval>) -> int
    decreases s.len(),
{
    if s.len() == 0 {
        0
    } else {
        total_len(s.drop_last()) + s.last().spec_len()
    }
}

/// Extending a prefix by one interval adds that interval's length.
pub proof fn lemma_total_len_extend(s: Seq<TimeInterval>, i: int)
    requires
        0 <= i < s.len(),
    ensures
        total_len(s.subrange(0, i + 1)) == total_len(s.subrange(0, i)) + s[i].spec_len(),
{
    assert(s.subrange(0, i + 1).drop_last() =~= s.subrange(0, i));
    assert(s.subrange(0, i + 1).last() == s[i]);
}

/// Appending an interval adds its length to the total.
pub proof fn lemma_total_len_push(s: Seq<TimeInterval>, x: TimeInterval)
    ensures
        total_len(s.push(x)) == total_len(s) + x.spec_len(),
{
    assert(s.push(x).drop_last() =~= s);
    assert(s.push(x).last() == x);
}

/// For disjoint sorted intervals, the summed length of the first `i` intervals
/// is bounded by where the `i`-th interval starts (they are packed below it).
pub proof fn lemma_prefix_len_bound(s: Seq<TimeInterval>, i: int)
    requires
        disjoint_sorted(s),
        0 <= i < s.len(),
    ensures
        total_len(s.subrange(0, i)) <= s[i].start_ms,
        total_len(s.subrange(0, i + 1)) <= s[i].end_ms,
    decreases i,
{
    lemma_total_len_extend(s, i);
    if i == 0 {
        assert(s.subrange(0, 0) =~= Seq::<TimeInterval>::empty());
    } else {
        lemma_prefix_len_bound(s, i - 1);
    }
}

/// A prefix of well-formed intervals never sums to more than the whole.
pub proof fn lemma_total_len_prefix_le(s: Seq<TimeInterval>, i: int)
    requires
        all_wf(s),
        0 <= i <= s.len(),
    ensures
        total_len(s.subrange(0, i)) <= total_len(s),
    decreases s.len() - i,
{
    if i == s.len() {
        assert(s.subrange(0, i) =~= s);
    } else {
        lemma_total_len_extend(s, i);
        lemma_total_len_prefix_le(s, i + 1);
    }
}

/// Whether the point `t` lies inside some interval of the sequence.
pub open spec fn covers(s: Seq<TimeInterval>, t: int) -> bool {
    exists|i: int| 0 <= i < s.len() && (#[trigger] s[i]).contains_time(t)
}

/// The shape of an included-interval list: every interval is non-empty and
/// the intervals are disjoint and sorted in ascending order.
pub open spec fn disjoint_sorted(s: Seq<TimeInterval>) -> bool {
    &&& forall|i: int| 0 <= i < s.len() ==> (#[trigger] s[i]).start_ms < s[i].end_ms
    &&& forall|i: int, j: int| 0 <= i < j < s.len() ==> (#[trigger] s[i]).end_ms <= (#[trigger] s[j]).start_ms
}

/// One planned output file, expressed on the effective timeline
/// (the timeline with all exclusions removed and the rest packed together).
#[derive(Clone, Copy, Debug, PartialEq, Eq, Structural)]
pub struct PartitionPoint {
    /// Partition index (0-based).
    pub index: u32,
    /// Start time in effective milliseconds.
    pub start_ms: u64,
    /// End time in effective milliseconds.
    pub end_ms: u64,
    /// Estimated size in bytes, assuming a constant bitrate.
    pub estimated_size_bytes: u64,
}

/// A request to split one media file into size-bounded partitions.
#[derive(Clone, Debug)]
pub struct SplitRequest {
    /// Path to the source media file.
    pub input_path: String,
    /// Directory where partitions will be saved.
    pub output_dir: String,
    /// Target size per partition in bytes.
    pub target_size_bytes: u64,
    /// Time intervals to exclude from the output.
    pub exclusions: Vec<TimeInterval>,
}

/// Metadata describing a media file.
#[derive(Clone, Debug)]
pub struct VideoMetadata {
    /// Full file path.
    pub file_path: String,
    /// File name without path.
    pub file_name: String,
    /// File size in bytes.
    pub file_size: u64,
    /// Duration in milliseconds.
    pub duration_ms: u64,
    /// Video width in pixels.
    pub width: u32,
    /// Video height in pixels.
    pub height: u32,
    /// Video codec (e.g., "h264", "hevc").
    pub video_codec: String,
    /// Audio codec (e.g., "aac", "mp3").
    pub audio_codec: Option<String>,
    /// Overall bitrate in bits per second.
    pub bitrate: u64,
    /// Container format (e.g., "mp4", "mkv").
    pub format: String,
}

/// One entry of a directory listing restricted to media files.
#[derive(Clone, Debug)]
pub struct DirectoryEntry {
    /// Full path of the file.
    pub path: String,
    /// File name without path.
    pub name: String,
    /// Either "video" or "image".
    pub file_type: String,
}

} // verus!
