//! Classification of directory entries by file extension.

use vstd::prelude::*;

verus! {

/// The code point of `c` with an ASCII upper-case letter folded to lower
/// case.
pub open spec fn lower_code(c: char) -> int {
    if 65 <= c as u32 <= 90 {
        c as u32 + 32
    } else {
        c as u32 as int
    }
}

/// Whether `s`, case-folded as ASCII, spells exactly `t`.
pub open spec fn lower_eq(s: Seq<char>, t: Seq<char>) -> bool {
    s.len() == t.len() && forall|i: int| 0 <= i < s.len() ==> lower_code(#[trigger] s[i]) == t[i]
        as u32
}

/// The extensions recognised as video files.
pub open spec fn is_video_ext(e: Seq<char>) -> bool {
    ||| lower_eq(e, seq!['m', 'p', '4'])
    ||| lower_eq(e, seq!['m', 'k', 'v'])
    ||| lower_eq(e, seq!['a', 'v', 'i'])
    ||| lower_eq(e, seq!['m', 'o', 'v'])
    ||| lower_eq(e, seq!['w', 'm', 'v'])
    ||| lower_eq(e, seq!['f', 'l', 'v'])
    ||| lower_eq(e, seq!['w', 'e', 'b', 'm'])
    ||| lower_eq(e, seq!['m', '4', 'v'])
    ||| lower_eq(e, seq!['t', 's'])
    ||| lower_eq(e, seq!['m', 't', 's'])
}

/// The extensions recognised as image files.
pub open spec fn is_image_ext(e: Seq<char>) -> bool {
    ||| lower_eq(e, seq!['j', 'p', 'g'])
    ||| lower_eq(e, seq!['j', 'p', 'e', 'g'])
    ||| lower_eq(e, seq!['p', 'n', 'g'])
    ||| lower_eq(e, seq!['g', 'i', 'f'])
    ||| lower_eq(e, seq!['b', 'm', 'p'])
    ||| lower_eq(e, seq!['w', 'e', 'b', 'p'])
    ||| lower_eq(e, seq!['t', 'i', 'f', 'f'])
    ||| lower_eq(e, seq!['t', 'i', 'f'])
    ||| lower_eq(e, seq!['s', 'v', 'g'])
}

pub open spec fn video_name() -> Seq<char> {
    seq!['v', 'i', 'd', 'e', 'o']
}

pub open spec fn image_name() -> Seq<char> {
    seq!['i', 'm', 'a', 'g', 'e']
}

/// Whether `s`, case-folded as ASCII, equals `pat`.
fn eq_lower(s: &str, pat: &str) -> (r: bool)
    ensures
        r == lower_eq(s@, pat@),
{
    let n = s.unicode_len();
    if n != pat.unicode_len() {
        return false;
    }
    let mut i: usize = 0;
    while i < n
        invariant
            0 <= i <= n,
            n == s@.len(),
            n == pat@.len(),
            forall|k: int| 0 <= k < i ==> lower_code(#[trigger] s@[k]) == pat@[k] as u32,
        decreases n - i,
    {
        let c = s.get_char(i) as u32;
        let folded = if 65 <= c && c <= 90 {
            c + 32
        } else {
            c
        };
        if folded != pat.get_char(i) as u32 {
            return false;
        }
        i = i + 1;
    }
    true
}

/// Classifies a file extension (compared as ASCII, case-insensitively) as
/// `"video"`, `"image"`, or neither.
pub fn classify_extension(ext: &str) -> (r: Option<&'static str>)
    ensures
        is_video_ext(ext@) ==> (r matches Some(t) && t@ == video_name()),
        (!is_video_ext(ext@) && is_image_ext(ext@)) ==> (r matches Some(t) && t@ == image_name()),
        (!is_video_ext(ext@) && !is_image_ext(ext@)) ==> r is None,
{
    proof {
        reveal_strlit("mp4");
        reveal_strlit("mkv");
        reveal_strlit("avi");
        reveal_strlit("mov");
        reveal_strlit("wmv");
        reveal_strlit("flv");
        reveal_strlit("webm");
        reveal_strlit("m4v");
        reveal_strlit("ts");
        reveal_strlit("mts");
        reveal_strlit("jpg");
        reveal_strlit("jpeg");
        reveal_strlit("png");
        reveal_strlit("gif");
        reveal_strlit("bmp");
        reveal_strlit("webp");
        reveal_strlit("tiff");
        reveal_strlit("tif");
        reveal_strlit("svg");
        assert("mp4"@ =~= seq!['m', 'p', '4']);
        assert("mkv"@ =~= seq!['m', 'k', 'v']);
        assert("avi"@ =~= seq!['a', 'v', 'i']);
        assert("mov"@ =~= seq!['m', 'o', 'v']);
        assert("wmv"@ =~= seq!['w', 'm', 'v']);
        assert("flv"@ =~= seq!['f', 'l', 'v']);
        assert("webm"@ =~= seq!['w', 'e', 'b', 'm']);
        assert("m4v"@ =~= seq!['m', '4', 'v']);
        assert("ts"@ =~= seq!['t', 's']);
        assert("mts"@ =~= seq!['m', 't', 's']);
        assert("jpg"@ =~= seq!['j', 'p', 'g']);
        assert("jpeg"@ =~= seq!['j', 'p', 'e', 'g']);
        assert("png"@ =~= seq!['p', 'n', 'g']);
        assert("gif"@ =~= seq!['g', 'i', 'f']);
        assert("bmp"@ =~= seq!['b', 'm', 'p']);
        assert("webp"@ =~= seq!['w', 'e', 'b', 'p']);
        assert("tiff"@ =~= seq!['t', 'i', 'f', 'f']);
        assert("tif"@ =~= seq!['t', 'i', 'f']);
        assert("svg"@ =~= seq!['s', 'v', 'g']);
    }
    if eq_lower(ext, "mp4") || eq_lower(ext, "mkv") || eq_lower(ext, "avi") || eq_lower(ext, "mov")
        || eq_lower(ext, "wmv") || eq_lower(ext, "flv") || eq_lower(ext, "webm") || eq_lower(
        ext,
        "m4v",
    ) || eq_lower(ext, "ts") || eq_lower(ext, "mts") {
        let t = "video";
        proof {
            reveal_strlit("video");
            assert(t@ =~= video_name());
        }
        Some(t)
    } else if eq_lower(ext, "jpg") || eq_lower(ext, "jpeg") || eq_lower(ext, "png") || eq_lower(
        ext,
        "gif",
    ) || eq_lower(ext, "bmp") || eq_lower(ext, "webp") || eq_lower(ext, "tiff") || eq_lower(
        ext,
        "tif",
    ) || eq_lower(ext, "svg") {
        let t = "image";
        proof {
            reveal_strlit("image");
            assert(t@ =~= image_name());
        }
        Some(t)
    } else {
        None
    }
}

} // verus!
