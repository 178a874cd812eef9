//! Parsing of encoder probe output: duration, resolution, codecs and
//! bitrate, read from the diagnostic text the external encoder prints.

use vstd::prelude::*;

use vstd::arithmetic::div_mod::{
    lemma_div_denominator, lemma_div_pos_is_pos, lemma_fundamental_div_mod,
    lemma_mod_division_less_than_divisor,
};

use crate::models::VideoMetadata;
use crate::text::{
    all_digits, all_digits_check, digits_val, digits_value_checked, digits_value_saturating,
    find_sub, first_idx_of, first_sep_idx, first_space_idx, idx_of_char, idx_of_sep, idx_of_space,
    is_digit, lemma_digits_val_nonneg, lemma_first_idx_of_unique, lemma_spec_find, spec_find,
    spec_trim, spec_trim_start, trim_bounds,
};
use crate::timefmt::{lemma_pad2_props, lemma_pad3_props, pad2, pad3, spec_format_time};

verus! {

/// Value in milliseconds of a fractional-seconds digit run: the first three
/// digits, scaled to milliseconds; further digits are ignored.
pub open spec fn frac_ms(fr: Seq<char>) -> int {
    if fr.len() >= 3 {
        digits_val(fr.subrange(0, 3))
    } else if fr.len() == 2 {
        digits_val(fr) * 10
    } else if fr.len() == 1 {
        digits_val(fr) * 100
    } else {
        0
    }
}

/// Value of an integral time component (hours or minutes): its decimal
/// digits, or zero when the run is empty or holds a non-digit.
pub open spec fn spec_component(p: Seq<char>) -> int {
    if all_digits(p) {
        digits_val(p)
    } else {
        0
    }
}

/// Milliseconds of a seconds component, `SS` or `SS.frac` (either side of
/// the dot may be empty); a malformed component counts as zero.
pub open spec fn spec_seconds_ms(p: Seq<char>) -> int {
    let k = first_idx_of(p, '.');
    if k == p.len() {
        spec_component(p) * 1000
    } else {
        let ip = p.subrange(0, k);
        let fr = p.subrange(k + 1, p.len() as int);
        if all_digits(ip) && all_digits(fr) {
            digits_val(ip) * 1000 + frac_ms(fr)
        } else {
            0
        }
    }
}

/// An `HH:MM:SS[.frac]` encoding as milliseconds: exactly two colons, each
/// component read as decimal digits with a malformed component counting as
/// zero; any other shape counts as zero overall.
pub open spec fn spec_time_to_ms(s: Seq<char>) -> int {
    let i = first_idx_of(s, ':');
    if i == s.len() {
        0
    } else {
        let rest = s.subrange(i + 1, s.len() as int);
        let j = first_idx_of(rest, ':');
        if j == rest.len() {
            0
        } else {
            let secs = rest.subrange(j + 1, rest.len() as int);
            if first_idx_of(secs, ':') != secs.len() {
                0
            } else {
                spec_component(s.subrange(0, i)) * 3600000 + spec_component(rest.subrange(0, j))
                    * 60000 + spec_seconds_ms(secs)
            }
        }
    }
}

proof fn lemma_component_nonneg(p: Seq<char>)
    ensures
        spec_component(p) >= 0,
{
    if all_digits(p) {
        lemma_digits_val_nonneg(p);
    }
}

proof fn lemma_frac_nonneg(fr: Seq<char>)
    requires
        all_digits(fr),
    ensures
        frac_ms(fr) >= 0,
{
    if fr.len() >= 3 {
        assert(all_digits(fr.subrange(0, 3)));
        lemma_digits_val_nonneg(fr.subrange(0, 3));
    } else {
        lemma_digits_val_nonneg(fr);
    }
}

proof fn lemma_seconds_nonneg(p: Seq<char>)
    ensures
        spec_seconds_ms(p) >= 0,
{
    let k = first_idx_of(p, '.');
    if k == p.len() {
        lemma_component_nonneg(p);
    } else {
        let ip = p.subrange(0, k);
        let fr = p.subrange(k + 1, p.len() as int);
        if all_digits(ip) && all_digits(fr) {
            lemma_digits_val_nonneg(ip);
            lemma_frac_nonneg(fr);
        }
    }
}

/// The saturating value of an integral component.
fn component_value(p: &str) -> (r: u64)
    ensures
        r == if spec_component(p@) > u64::MAX {
            u64::MAX as int
        } else {
            spec_component(p@)
        },
{
    if all_digits_check(p) {
        digits_value_saturating(p)
    } else {
        0
    }
}

/// The saturating value in milliseconds of a seconds component.
fn seconds_value_ms(p: &str) -> (r: u64)
    ensures
        r == if spec_seconds_ms(p@) > u64::MAX {
            u64::MAX as int
        } else {
            spec_seconds_ms(p@)
        },
{
    let n = p.unicode_len();
    let k = idx_of_char(p, '.');
    if k == n {
        let v = component_value(p);
        proof {
            lemma_component_nonneg(p@);
        }
        let wide: u128 = (v as u128) * 1000;
        if wide > u64::MAX as u128 {
            u64::MAX
        } else {
            wide as u64
        }
    } else {
        let ip = p.substring_char(0, k);
        let fr = p.substring_char(k + 1, n);
        if all_digits_check(ip) && all_digits_check(fr) {
            proof {
                lemma_digits_val_nonneg(ip@);
                lemma_frac_nonneg(fr@);
            }
            let iv = digits_value_saturating(ip);
            let fv = frac_value_ms(fr);
            let wide: u128 = (iv as u128) * 1000 + (fv as u128);
            if wide > u64::MAX as u128 {
                u64::MAX
            } else {
                wide as u64
            }
        } else {
            0
        }
    }
}

proof fn lemma_digits_val_small(s: Seq<char>)
    requires
        all_digits(s),
        s.len() <= 3,
    ensures
        s.len() == 0 ==> digits_val(s) == 0,
        s.len() == 1 ==> digits_val(s) <= 9,
        s.len() == 2 ==> digits_val(s) <= 99,
        s.len() == 3 ==> digits_val(s) <= 999,
    decreases s.len(),
{
    if s.len() > 0 {
        assert(all_digits(s.drop_last()));
        lemma_digits_val_small(s.drop_last());
    }
}

/// Milliseconds contributed by the fractional digits.
fn frac_value_ms(fr: &str) -> (r: u64)
    requires
        all_digits(fr@),
    ensures
        r == frac_ms(fr@),
        r <= 999,
{
    let n = fr.unicode_len();
    if n >= 3 {
        let t = fr.substring_char(0, 3);
        proof {
            assert(all_digits(t@));
            lemma_digits_val_small(t@);
        }
        match digits_value_checked(t) {
            Some(v) => v,
            None => 0,
        }
    } else if n == 2 {
        proof {
            lemma_digits_val_small(fr@);
        }
        match digits_value_checked(fr) {
            Some(v) => v * 10,
            None => 0,
        }
    } else if n == 1 {
        proof {
            lemma_digits_val_small(fr@);
        }
        match digits_value_checked(fr) {
            Some(v) => v * 100,
            None => 0,
        }
    } else {
        0
    }
}

/// Converts an `HH:MM:SS[.frac]` string to milliseconds, saturating at
/// `u64::MAX`; a string of any other shape converts to zero.
pub fn parse_time_to_ms(time_str: &str) -> (r: u64)
    ensures
        r == if spec_time_to_ms(time_str@) > u64::MAX {
            u64::MAX as int
        } else {
            spec_time_to_ms(time_str@)
        },
{
    let n = time_str.unicode_len();
    let i = idx_of_char(time_str, ':');
    if i == n {
        return 0;
    }
    let rest = time_str.substring_char(i + 1, n);
    let rl = rest.unicode_len();
    let j = idx_of_char(rest, ':');
    if j == rl {
        return 0;
    }
    let secs = rest.substring_char(j + 1, rl);
    if idx_of_char(secs, ':') != secs.unicode_len() {
        return 0;
    }
    let hpart = time_str.substring_char(0, i);
    let mpart = rest.substring_char(0, j);
    let h = component_value(hpart);
    let m = component_value(mpart);
    let sec = seconds_value_ms(secs);
    proof {
        lemma_component_nonneg(hpart@);
        lemma_component_nonneg(mpart@);
        lemma_seconds_nonneg(secs@);
    }
    let total: u128 = (h as u128) * 3600000 + (m as u128) * 60000 + (sec as u128);
    if total > u64::MAX as u128 {
        u64::MAX
    } else {
        total as u64
    }
}

/// End of the first line: the position of the first newline, stepping back
/// over a carriage return that precedes it.
pub open spec fn line_end_at(s: Seq<char>) -> int {
    let nl = first_idx_of(s, '\n');
    if nl < s.len() && nl > 0 && s[nl - 1] == '\r' {
        nl - 1
    } else {
        nl
    }
}

/// Where the text after the first line begins.
pub open spec fn rest_start_at(s: Seq<char>) -> int {
    let nl = first_idx_of(s, '\n');
    if nl == s.len() {
        nl
    } else {
        nl + 1
    }
}

/// The bounds of the first line: its end and where the rest begins.
fn first_line_bounds(s: &str) -> (r: (usize, usize))
    ensures
        r.0 == line_end_at(s@),
        r.1 == rest_start_at(s@),
        0 <= r.0 <= r.1 <= s@.len(),
        s@.len() > 0 ==> s@.len() - r.1 < s@.len(),
{
    let n = s.unicode_len();
    let nl = idx_of_char(s, '\n');
    let le = if nl < n && nl > 0 && s.get_char(nl - 1) == '\r' {
        nl - 1
    } else {
        nl
    };
    let rs = if nl == n {
        n
    } else {
        nl + 1
    };
    (le, rs)
}

/// A token optionally prefixed with `+`, stripped of that sign.
pub open spec fn strip_plus(t: Seq<char>) -> Seq<char> {
    if t.len() > 0 && t[0] == '+' {
        t.drop_first()
    } else {
        t
    }
}

/// An unsigned decimal token's value, if it has digits only (after an
/// optional leading `+`) and fits a `u64`.
pub open spec fn spec_parse_u64(t: Seq<char>) -> Option<int> {
    let body = strip_plus(t);
    if body.len() > 0 && all_digits(body) && digits_val(body) <= u64::MAX {
        Some(digits_val(body))
    } else {
        None
    }
}

/// An unsigned decimal token's value, if it has digits only (after an
/// optional leading `+`) and fits a `u32`.
pub open spec fn spec_parse_u32(t: Seq<char>) -> Option<int> {
    let body = strip_plus(t);
    if body.len() > 0 && all_digits(body) && digits_val(body) <= u32::MAX {
        Some(digits_val(body))
    } else {
        None
    }
}

fn parse_u64_token(t: &str) -> (r: Option<u64>)
    ensures
        r matches Some(v) ==> spec_parse_u64(t@) == Some(v as int),
        r is None ==> spec_parse_u64(t@) is None,
{
    let n = t.unicode_len();
    let start: usize = if n > 0 && t.get_char(0) == '+' {
        1
    } else {
        0
    };
    let body = t.substring_char(start, n);
    proof {
        assert(body@ =~= strip_plus(t@));
    }
    if body.unicode_len() == 0 {
        return None;
    }
    if !all_digits_check(body) {
        return None;
    }
    digits_value_checked(body)
}

fn parse_u32_token(t: &str) -> (r: Option<u32>)
    ensures
        r matches Some(v) ==> spec_parse_u32(t@) == Some(v as int),
        r is None ==> spec_parse_u32(t@) is None,
{
    let n = t.unicode_len();
    let start: usize = if n > 0 && t.get_char(0) == '+' {
        1
    } else {
        0
    };
    let body = t.substring_char(start, n);
    proof {
        assert(body@ =~= strip_plus(t@));
    }
    if body.unicode_len() == 0 {
        return None;
    }
    if !all_digits_check(body) {
        return None;
    }
    match digits_value_checked(body) {
        Some(v) => {
            if v <= u32::MAX as u64 {
                Some(v as u32)
            } else {
                None
            }
        },
        None => None,
    }
}

pub open spec fn dur_pat() -> Seq<char> {
    seq!['D', 'u', 'r', 'a', 't', 'i', 'o', 'n', ':']
}

pub open spec fn video_pat() -> Seq<char> {
    seq!['V', 'i', 'd', 'e', 'o', ':']
}

pub open spec fn audio_pat() -> Seq<char> {
    seq!['A', 'u', 'd', 'i', 'o', ':']
}

pub open spec fn bitrate_pat() -> Seq<char> {
    seq!['b', 'i', 't', 'r', 'a', 't', 'e', ':']
}

pub open spec fn unknown_name() -> Seq<char> {
    seq!['u', 'n', 'k', 'n', 'o', 'w', 'n']
}

/// Duration read from probe output, in milliseconds: the first line holding
/// `Duration:` is consulted, taking the text after the marker up to the first
/// comma, trimmed, as an `HH:MM:SS[.frac]` stamp; absent or malformed output
/// reads as zero.
pub open spec fn spec_parse_duration(s: Seq<char>) -> int
    decreases s.len(),
    via spec_parse_duration_decreases
{
    if s.len() == 0 {
        0
    } else {
        let line = s.subrange(0, line_end_at(s));
        match spec_find(line, dur_pat()) {
            Some(i) => {
                let after = line.subrange(i + 9, line.len() as int);
                let piece = after.subrange(0, first_idx_of(after, ','));
                spec_time_to_ms(spec_trim(piece))
            },
            None => spec_parse_duration(s.subrange(rest_start_at(s), s.len() as int)),
        }
    }
}

#[via_fn]
proof fn spec_parse_duration_decreases(s: Seq<char>) {
    crate::text::lemma_first_idx_of_bounds(s, '\n');
}

/// Video codec read from probe output: the first token after the first
/// `Video:` marker, tokens being separated by spaces and commas; `unknown`
/// when no line holds the marker.
pub open spec fn spec_parse_video_codec(s: Seq<char>) -> Seq<char>
    decreases s.len(),
    via spec_parse_video_codec_decreases
{
    if s.len() == 0 {
        unknown_name()
    } else {
        let line = s.subrange(0, line_end_at(s));
        match spec_find(line, video_pat()) {
            Some(i) => {
                let after = line.subrange(i + 6, line.len() as int);
                let t = spec_trim(after);
                t.subrange(0, first_sep_idx(t))
            },
            None => spec_parse_video_codec(s.subrange(rest_start_at(s), s.len() as int)),
        }
    }
}

#[via_fn]
proof fn spec_parse_video_codec_decreases(s: Seq<char>) {
    crate::text::lemma_first_idx_of_bounds(s, '\n');
}

/// Audio codec read from probe output: the first non-empty token after an
/// `Audio:` marker, scanning line by line; `None` when no line yields one.
pub open spec fn spec_parse_audio_codec(s: Seq<char>) -> Option<Seq<char>>
    decreases s.len(),
    via spec_parse_audio_codec_decreases
{
    if s.len() == 0 {
        None
    } else {
        let line = s.subrange(0, line_end_at(s));
        let rest = s.subrange(rest_start_at(s), s.len() as int);
        match spec_find(line, audio_pat()) {
            Some(i) => {
                let after = line.subrange(i + 6, line.len() as int);
                let t = spec_trim(after);
                let tok = t.subrange(0, first_sep_idx(t));
                if tok.len() > 0 {
                    Some(tok)
                } else {
                    spec_parse_audio_codec(rest)
                }
            },
            None => spec_parse_audio_codec(rest),
        }
    }
}

#[via_fn]
proof fn spec_parse_audio_codec_decreases(s: Seq<char>) {
    crate::text::lemma_first_idx_of_bounds(s, '\n');
}

/// Overall bitrate read from probe output, in bits per second: the first
/// whitespace-delimited decimal token after a `bitrate:` marker (taken as
/// kilobits per second and scaled by 1000), scanning line by line past lines
/// whose token is missing or malformed; zero when no line yields one.
pub open spec fn spec_parse_bitrate(s: Seq<char>) -> int
    decreases s.len(),
    via spec_parse_bitrate_decreases
{
    if s.len() == 0 {
        0
    } else {
        let line = s.subrange(0, line_end_at(s));
        let rest = s.subrange(rest_start_at(s), s.len() as int);
        match spec_find(line, bitrate_pat()) {
            Some(i) => {
                let after = line.subrange(i + 8, line.len() as int);
                let t = spec_trim_start(after);
                let tok = t.subrange(0, first_space_idx(t));
                if tok.len() == 0 {
                    spec_parse_bitrate(rest)
                } else {
                    match spec_parse_u64(tok) {
                        Some(k) => k * 1000,
                        None => spec_parse_bitrate(rest),
                    }
                }
            },
            None => spec_parse_bitrate(rest),
        }
    }
}

#[via_fn]
proof fn spec_parse_bitrate_decreases(s: Seq<char>) {
    crate::text::lemma_first_idx_of_bounds(s, '\n');
}

/// A `WxH` token's dimensions, when both sides parse as decimal and lie in
/// the plausible range of video resolutions.
pub open spec fn spec_wxh(tok: Seq<char>) -> Option<(int, int)> {
    let k = first_idx_of(tok, 'x');
    if k == tok.len() {
        None
    } else {
        let l = tok.subrange(0, k);
        let r = tok.subrange(k + 1, tok.len() as int);
        match (spec_parse_u32(l), spec_parse_u32(r)) {
            (Some(w), Some(h)) => if 16 <= w <= 15360 && 16 <= h <= 8640 {
                Some((w, h))
            } else {
                None
            },
            _ => None,
        }
    }
}

/// The first token of the region (tokens separated by spaces and commas,
/// each trimmed) that reads as a plausible `WxH` resolution.
pub open spec fn spec_scan_tokens(t: Seq<char>) -> Option<(int, int)>
    decreases t.len(),
    via spec_scan_tokens_decreases
{
    if t.len() == 0 {
        None
    } else {
        let e = first_sep_idx(t);
        let tok = spec_trim(t.subrange(0, e));
        match spec_wxh(tok) {
            Some(wh) => Some(wh),
            None => if e == t.len() {
                None
            } else {
                spec_scan_tokens(t.subrange(e + 1, t.len() as int))
            },
        }
    }
}

#[via_fn]
proof fn spec_scan_tokens_decreases(t: Seq<char>) {
    crate::text::lemma_first_sep_idx_bounds(t);
}

/// Resolution read from probe output: scanning the lines that hold a
/// `Video:` marker, the first token of such a line that reads as `WxH`.
pub open spec fn spec_parse_resolution(s: Seq<char>) -> Option<(int, int)>
    decreases s.len(),
    via spec_parse_resolution_decreases
{
    if s.len() == 0 {
        None
    } else {
        let line = s.subrange(0, line_end_at(s));
        let rest = s.subrange(rest_start_at(s), s.len() as int);
        if spec_find(line, video_pat()) is Some {
            match spec_scan_tokens(line) {
                Some(wh) => Some(wh),
                None => spec_parse_resolution(rest),
            }
        } else {
            spec_parse_resolution(rest)
        }
    }
}

#[via_fn]
proof fn spec_parse_resolution_decreases(s: Seq<char>) {
    crate::text::lemma_first_idx_of_bounds(s, '\n');
}

/// Parses the duration from probe output like `Duration: 01:30:00.50,`,
/// in milliseconds (saturating); zero when absent or malformed.
pub fn parse_duration(output: &str) -> (r: u64)
    ensures
        r == if spec_parse_duration(output@) > u64::MAX {
            u64::MAX as int
        } else {
            spec_parse_duration(output@)
        },
    decreases output@.len(),
{
    let n = output.unicode_len();
    if n == 0 {
        return 0;
    }
    let (le, rs) = first_line_bounds(output);
    let line = output.substring_char(0, le);
    proof {
        reveal_strlit("Duration:");
        assert("Duration:"@ =~= dur_pat());
    }
    match find_sub(line, "Duration:") {
        Some(i) => {
            proof {
                lemma_spec_find(line@, dur_pat());
            }
            let ll = line.unicode_len();
            let after = line.substring_char(i + 9, ll);
            let cm = idx_of_char(after, ',');
            let piece = after.substring_char(0, cm);
            let (a, b) = trim_bounds(piece);
            let tp = piece.substring_char(a, b);
            parse_time_to_ms(tp)
        },
        None => parse_duration(output.substring_char(rs, n)),
    }
}

/// Parses the video codec from probe output like `Stream #0:0: Video: h264`;
/// `"unknown"` when no line names one.
pub fn parse_video_codec(output: &str) -> (r: String)
    ensures
        r@ == spec_parse_video_codec(output@),
    decreases output@.len(),
{
    let n = output.unicode_len();
    if n == 0 {
        let r = String::from_str("unknown");
        proof {
            reveal_strlit("unknown");
            assert(r@ =~= unknown_name());
        }
        return r;
    }
    let (le, rs) = first_line_bounds(output);
    let line = output.substring_char(0, le);
    proof {
        reveal_strlit("Video:");
        assert("Video:"@ =~= video_pat());
    }
    match find_sub(line, "Video:") {
        Some(i) => {
            proof {
                lemma_spec_find(line@, video_pat());
            }
            let ll = line.unicode_len();
            let after = line.substring_char(i + 6, ll);
            let (a, b) = trim_bounds(after);
            let t = after.substring_char(a, b);
            let e = idx_of_sep(t);
            let tok = t.substring_char(0, e);
            String::from_str(tok)
        },
        None => parse_video_codec(output.substring_char(rs, n)),
    }
}

/// Parses the audio codec from probe output like `Stream #0:1: Audio: aac`;
/// `None` when no line yields a non-empty codec token.
pub fn parse_audio_codec(output: &str) -> (r: Option<String>)
    ensures
        match spec_parse_audio_codec(output@) {
            Some(tok) => r matches Some(v) && v@ == tok,
            None => r is None,
        },
    decreases output@.len(),
{
    let n = output.unicode_len();
    if n == 0 {
        return None;
    }
    let (le, rs) = first_line_bounds(output);
    let line = output.substring_char(0, le);
    proof {
        reveal_strlit("Audio:");
        assert("Audio:"@ =~= audio_pat());
    }
    match find_sub(line, "Audio:") {
        Some(i) => {
            proof {
                lemma_spec_find(line@, audio_pat());
            }
            let ll = line.unicode_len();
            let after = line.substring_char(i + 6, ll);
            let (a, b) = trim_bounds(after);
            let t = after.substring_char(a, b);
            let e = idx_of_sep(t);
            let tok = t.substring_char(0, e);
            if tok.unicode_len() > 0 {
                Some(String::from_str(tok))
            } else {
                parse_audio_codec(output.substring_char(rs, n))
            }
        },
        None => parse_audio_codec(output.substring_char(rs, n)),
    }
}

/// Parses the overall bitrate from probe output like `bitrate: 5000 kb/s`,
/// in bits per second (saturating); zero when no line yields one.
pub fn parse_bitrate(output: &str) -> (r: u64)
    ensures
        r == if spec_parse_bitrate(output@) > u64::MAX {
            u64::MAX as int
        } else {
            spec_parse_bitrate(output@)
        },
    decreases output@.len(),
{
    let n = output.unicode_len();
    if n == 0 {
        return 0;
    }
    let (le, rs) = first_line_bounds(output);
    let line = output.substring_char(0, le);
    proof {
        reveal_strlit("bitrate:");
        assert("bitrate:"@ =~= bitrate_pat());
    }
    match find_sub(line, "bitrate:") {
        Some(i) => {
            proof {
                lemma_spec_find(line@, bitrate_pat());
            }
            let ll = line.unicode_len();
            let after = line.substring_char(i + 8, ll);
            let (a, _b) = trim_bounds(after);
            let al = after.unicode_len();
            let t = after.substring_char(a, al);
            let e = idx_of_space(t);
            let tok = t.substring_char(0, e);
            if tok.unicode_len() == 0 {
                parse_bitrate(output.substring_char(rs, n))
            } else {
                match parse_u64_token(tok) {
                    Some(k) => {
                        proof {
                            lemma_digits_val_nonneg(strip_plus(tok@));
                        }
                        let wide: u128 = (k as u128) * 1000;
                        if wide > u64::MAX as u128 {
                            u64::MAX
                        } else {
                            wide as u64
                        }
                    },
                    None => parse_bitrate(output.substring_char(rs, n)),
                }
            }
        },
        None => parse_bitrate(output.substring_char(rs, n)),
    }
}

fn wxh_token(tok: &str) -> (r: Option<(u32, u32)>)
    ensures
        match spec_wxh(tok@) {
            Some(wh) => r matches Some(v) && v.0 == wh.0 && v.1 == wh.1,
            None => r is None,
        },
{
    let n = tok.unicode_len();
    let k = idx_of_char(tok, 'x');
    if k == n {
        return None;
    }
    let l = tok.substring_char(0, k);
    let rr = tok.substring_char(k + 1, n);
    match (parse_u32_token(l), parse_u32_token(rr)) {
        (Some(w), Some(h)) => {
            if 16 <= w && w <= 15360 && 16 <= h && h <= 8640 {
                Some((w, h))
            } else {
                None
            }
        },
        _ => None,
    }
}

fn scan_tokens(t: &str) -> (r: Option<(u32, u32)>)
    ensures
        match spec_scan_tokens(t@) {
            Some(wh) => r matches Some(v) && v.0 == wh.0 && v.1 == wh.1,
            None => r is None,
        },
    decreases t@.len(),
{
    let n = t.unicode_len();
    if n == 0 {
        return None;
    }
    let e = idx_of_sep(t);
    let piece = t.substring_char(0, e);
    let (a, b) = trim_bounds(piece);
    let tok = piece.substring_char(a, b);
    match wxh_token(tok) {
        Some(wh) => Some(wh),
        None => {
            if e == n {
                None
            } else {
                scan_tokens(t.substring_char(e + 1, n))
            }
        },
    }
}

/// Parses the video resolution from probe output like `1920x1080`, looking
/// only at lines that name a video stream; `(0, 0)` when none is found.
pub fn parse_resolution(output: &str) -> (r: (u32, u32))
    ensures
        match spec_parse_resolution(output@) {
            Some(wh) => r.0 == wh.0 && r.1 == wh.1,
            None => r.0 == 0 && r.1 == 0,
        },
    decreases output@.len(),
{
    let n = output.unicode_len();
    if n == 0 {
        return (0, 0);
    }
    let (le, rs) = first_line_bounds(output);
    let line = output.substring_char(0, le);
    proof {
        reveal_strlit("Video:");
        assert("Video:"@ =~= video_pat());
    }
    match find_sub(line, "Video:") {
        Some(_) => {
            match scan_tokens(line) {
                Some(wh) => wh,
                None => parse_resolution(output.substring_char(rs, n)),
            }
        },
        None => parse_resolution(output.substring_char(rs, n)),
    }
}

/// The textual time encoding round-trips: a duration formatted as
/// `HH:MM:SS.mmm` reads back as the same number of milliseconds.
pub proof fn lemma_time_encoding_round_trip(ms: int)
    requires
        0 <= ms,
    ensures
        spec_time_to_ms(spec_format_time(ms)) == ms,
{
    let h = ms / 3600000;
    let m = (ms / 60000) % 60;
    let s = (ms / 1000) % 60;
    let r = ms % 1000;
    lemma_div_pos_is_pos(ms, 3600000);
    lemma_div_pos_is_pos(ms, 60000);
    lemma_div_pos_is_pos(ms, 1000);
    lemma_mod_division_less_than_divisor(ms / 60000, 60);
    lemma_mod_division_less_than_divisor(ms / 1000, 60);
    lemma_mod_division_less_than_divisor(ms, 1000);
    lemma_pad2_props(h);
    lemma_pad2_props(m);
    lemma_pad2_props(s);
    lemma_pad3_props(r);
    let ph = pad2(h);
    let pm = pad2(m);
    let ps = pad2(s);
    let pr = pad3(r);
    let full = spec_format_time(ms);

    assert forall|k: int| 0 <= k < ph.len() implies full[k] == ph[k] && is_digit(ph[k]) by {}
    assert(full[ph.len() as int] == ':');
    assert forall|c: char| is_digit(c) implies c != ':' && c != '.' by {}
    lemma_first_idx_of_unique(full, ':', ph.len() as int);
    assert(full.subrange(0, ph.len() as int) =~= ph);

    let rest = full.subrange(ph.len() as int + 1, full.len() as int);
    assert(rest =~= pm + seq![':'] + ps + seq!['.'] + pr);
    assert(pm.len() == 2);
    lemma_first_idx_of_unique(rest, ':', 2);
    assert(rest.subrange(0, 2) =~= pm);

    let secs = rest.subrange(3, rest.len() as int);
    assert(secs =~= ps + seq!['.'] + pr);
    assert(ps.len() == 2 && pr.len() == 3);
    assert forall|k: int| 0 <= k < secs.len() implies secs[k] != ':' by {}
    lemma_first_idx_of_unique(secs, ':', secs.len() as int);
    lemma_first_idx_of_unique(secs, '.', 2);
    assert(secs.subrange(0, 2) =~= ps);
    let fr = secs.subrange(3, secs.len() as int);
    assert(fr =~= pr);
    assert(fr.subrange(0, 3) =~= pr);
    assert(spec_seconds_ms(secs) == s * 1000 + r);
    assert(spec_time_to_ms(full) == h * 3600000 + m * 60000 + (s * 1000 + r));

    lemma_fundamental_div_mod(ms, 1000);
    lemma_fundamental_div_mod(ms / 1000, 60);
    lemma_fundamental_div_mod(ms / 60000, 60);
    lemma_div_denominator(ms, 1000, 60);
    lemma_div_denominator(ms, 60000, 60);
}

/// Assembles the metadata of a media file from its filesystem facts and the
/// encoder's probe output.
pub fn build_video_metadata(
    file_path: String,
    file_name: String,
    file_size: u64,
    format: String,
    probe_output: &str,
) -> (r: VideoMetadata)
    ensures
        r.file_path == file_path,
        r.file_name == file_name,
        r.file_size == file_size,
        r.format == format,
        r.duration_ms == if spec_parse_duration(probe_output@) > u64::MAX {
            u64::MAX as int
        } else {
            spec_parse_duration(probe_output@)
        },
        r.width as int == match spec_parse_resolution(probe_output@) {
            Some(wh) => wh.0,
            None => 0,
        },
        r.height as int == match spec_parse_resolution(probe_output@) {
            Some(wh) => wh.1,
            None => 0,
        },
        r.video_codec@ == spec_parse_video_codec(probe_output@),
        match spec_parse_audio_codec(probe_output@) {
            Some(tok) => r.audio_codec matches Some(v) && v@ == tok,
            None => r.audio_codec is None,
        },
        r.bitrate == if spec_parse_bitrate(probe_output@) > u64::MAX {
            u64::MAX as int
        } else {
            spec_parse_bitrate(probe_output@)
        },
{
    let duration_ms = parse_duration(probe_output);
    let (width, height) = parse_resolution(probe_output);
    let video_codec = parse_video_codec(probe_output);
    let audio_codec = parse_audio_codec(probe_output);
    let bitrate = parse_bitrate(probe_output);
    VideoMetadata {
        file_path,
        file_name,
        file_size,
        duration_ms,
        width,
        height,
        video_codec,
        audio_codec,
        bitrate,
        format,
    }
}

} // verus!
