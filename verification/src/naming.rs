//! Deterministic file names for outputs, temporary segment files, thumbnails
//! and captured frames.

use vstd::prelude::*;

use crate::timefmt::{dec_digits, pad2, pad3, pad4, push_dec, push_pad2, push_pad3, push_pad4};

verus! {

/// Name of the final output file of one partition: `{stem}_part{n}.{ext}`,
/// with `n` the 1-based partition number. Even a single-partition result
/// carries the `_part1` suffix.
pub open spec fn spec_output_name(stem: Seq<char>, ext: Seq<char>, n: int) -> Seq<char> {
    stem + seq!['_', 'p', 'a', 'r', 't'] + dec_digits(n) + seq!['.'] + ext
}

/// Name of the temporary file for one extracted segment:
/// `_temp_{stem}_p{n}_s{i}.{ext}`, keyed by the 1-based partition number and
/// the 0-based segment position, so segments of one request never collide.
pub open spec fn spec_temp_name(stem: Seq<char>, ext: Seq<char>, n: int, i: int) -> Seq<char> {
    seq!['_', 't', 'e', 'm', 'p', '_'] + stem + seq!['_', 'p'] + dec_digits(n) + seq!['_', 's']
        + dec_digits(i) + seq!['.'] + ext
}

/// Name of one thumbnail image: `thumb_{n}.jpg` with `n` zero-padded to four
/// places.
pub open spec fn spec_thumbnail_name(n: int) -> Seq<char> {
    seq!['t', 'h', 'u', 'm', 'b', '_'] + pad4(n) + seq!['.', 'j', 'p', 'g']
}

/// The `HH_MM_SS.mmm` rendering of a timestamp: the extraction time format
/// with underscores for the colons, safe inside a file name.
pub open spec fn spec_frame_time(ms: int) -> Seq<char> {
    pad2(ms / 3600000) + seq!['_'] + pad2((ms / 60000) % 60) + seq!['_'] + pad2((ms / 1000) % 60)
        + seq!['.'] + pad3(ms % 1000)
}

/// Name of a captured frame image: `{stem}_frame_{HH_MM_SS.mmm}.jpg`.
pub open spec fn spec_frame_name(stem: Seq<char>, ms: int) -> Seq<char> {
    stem + seq!['_', 'f', 'r', 'a', 'm', 'e', '_'] + spec_frame_time(ms) + seq![
        '.',
        'j',
        'p',
        'g',
    ]
}

/// Builds the final output file name of partition number `n` (1-based).
pub fn output_file_name(stem: &str, ext: &str, n: u32) -> (r: String)
    ensures
        r@ == spec_output_name(stem@, ext@, n as int),
{
    let mut s = String::new();
    s.append(stem);
    s.append("_part");
    push_dec(&mut s, n as u64);
    s.append(".");
    s.append(ext);
    proof {
        reveal_strlit("_part");
        reveal_strlit(".");
        assert("_part"@ =~= seq!['_', 'p', 'a', 'r', 't']);
        assert("."@ =~= seq!['.']);
        assert(s@ =~= spec_output_name(stem@, ext@, n as int));
    }
    s
}

/// Builds the temporary file name for segment `i` of partition number `n`.
pub fn temp_segment_name(stem: &str, ext: &str, n: u32, i: usize) -> (r: String)
    ensures
        r@ == spec_temp_name(stem@, ext@, n as int, i as int),
{
    let mut s = String::new();
    s.append("_temp_");
    s.append(stem);
    s.append("_p");
    push_dec(&mut s, n as u64);
    s.append("_s");
    push_dec(&mut s, i as u64);
    s.append(".");
    s.append(ext);
    proof {
        reveal_strlit("_temp_");
        reveal_strlit("_p");
        reveal_strlit("_s");
        reveal_strlit(".");
        assert("_temp_"@ =~= seq!['_', 't', 'e', 'm', 'p', '_']);
        assert("_p"@ =~= seq!['_', 'p']);
        assert("_s"@ =~= seq!['_', 's']);
        assert("."@ =~= seq!['.']);
        assert(s@ =~= spec_temp_name(stem@, ext@, n as int, i as int));
    }
    s
}

/// Builds the thumbnail file name for thumbnail number `n` (1-based).
pub fn thumbnail_file_name(n: u32) -> (r: String)
    ensures
        r@ == spec_thumbnail_name(n as int),
{
    let mut s = String::new();
    s.append("thumb_");
    push_pad4(&mut s, n as u64);
    s.append(".jpg");
    proof {
        reveal_strlit("thumb_");
        reveal_strlit(".jpg");
        assert("thumb_"@ =~= seq!['t', 'h', 'u', 'm', 'b', '_']);
        assert(".jpg"@ =~= seq!['.', 'j', 'p', 'g']);
        assert(s@ =~= spec_thumbnail_name(n as int));
    }
    s
}

/// Builds the output file name for a frame captured at the given timestamp.
pub fn frame_file_name(stem: &str, timestamp_ms: u64) -> (r: String)
    ensures
        r@ == spec_frame_name(stem@, timestamp_ms as int),
{
    let hours = timestamp_ms / 3600000;
    let minutes = (timestamp_ms / 60000) % 60;
    let seconds = (timestamp_ms / 1000) % 60;
    let millis = timestamp_ms % 1000;
    let mut s = String::new();
    s.append(stem);
    s.append("_frame_");
    push_pad2(&mut s, hours);
    s.append("_");
    push_pad2(&mut s, minutes);
    s.append("_");
    push_pad2(&mut s, seconds);
    s.append(".");
    push_pad3(&mut s, millis);
    s.append(".jpg");
    proof {
        reveal_strlit("_frame_");
        reveal_strlit("_");
        reveal_strlit(".");
        reveal_strlit(".jpg");
        assert("_frame_"@ =~= seq!['_', 'f', 'r', 'a', 'm', 'e', '_']);
        assert("_"@ =~= seq!['_']);
        assert("."@ =~= seq!['.']);
        assert(".jpg"@ =~= seq!['.', 'j', 'p', 'g']);
        assert(s@ =~= spec_frame_name(stem@, timestamp_ms as int));
    }
    s
}

} // verus!
