//! Text-scanning primitives for parsing encoder output: first-occurrence
//! search, whitespace trimming and decimal digit runs, over character
//! sequences.

use vstd::prelude::*;

verus! {

/// ASCII whitespace, the separators that matter in encoder output.
pub open spec fn is_space(c: char) -> bool {
    c == ' ' || c == '\t' || c == '\r' || c == '\n'
}

/// An ASCII decimal digit.
pub open spec fn is_digit(c: char) -> bool {
    48 <= c as u32 <= 57
}

/// Index of the first character satisfying "is a space", or the length.
pub open spec fn first_space_idx(s: Seq<char>) -> int
    decreases s.len(),
{
    if s.len() == 0 {
        0
    } else if is_space(s[0]) {
        0
    } else {
        1 + first_space_idx(s.drop_first())
    }
}

/// Index of the first space or comma, or the length.
pub open spec fn first_sep_idx(s: Seq<char>) -> int
    decreases s.len(),
{
    if s.len() == 0 {
        0
    } else if s[0] == ' ' || s[0] == ',' {
        0
    } else {
        1 + first_sep_idx(s.drop_first())
    }
}

/// Index of the first occurrence of `c`, or the length.
pub open spec fn first_idx_of(s: Seq<char>, c: char) -> int
    decreases s.len(),
{
    if s.len() == 0 {
        0
    } else if s[0] == c {
        0
    } else {
        1 + first_idx_of(s.drop_first(), c)
    }
}

/// `first_idx_of` stays within the sequence's bounds.
pub proof fn lemma_first_idx_of_bounds(s: Seq<char>, c: char)
    ensures
        0 <= first_idx_of(s, c) <= s.len(),
    decreases s.len(),
{
    if s.len() > 0 && s[0] != c {
        lemma_first_idx_of_bounds(s.drop_first(), c);
    }
}

/// `first_sep_idx` stays within the sequence's bounds.
pub proof fn lemma_first_sep_idx_bounds(s: Seq<char>)
    ensures
        0 <= first_sep_idx(s) <= s.len(),
    decreases s.len(),
{
    if s.len() > 0 && s[0] != ' ' && s[0] != ',' {
        lemma_first_sep_idx_bounds(s.drop_first());
    }
}

/// A position characterised as "first where the character is `c`" is where
/// `first_idx_of` points.
pub proof fn lemma_first_idx_of_unique(s: Seq<char>, c: char, r: int)
    requires
        0 <= r <= s.len(),
        forall|k: int| 0 <= k < r ==> s[k] != c,
        r < s.len() ==> s[r] == c,
    ensures
        first_idx_of(s, c) == r,
    decreases s.len(),
{
    if r == 0 {
    } else {
        lemma_first_idx_of_unique(s.drop_first(), c, r - 1);
    }
}

/// A position characterised as "first space" is where `first_space_idx`
/// points.
pub proof fn lemma_first_space_idx_unique(s: Seq<char>, r: int)
    requires
        0 <= r <= s.len(),
        forall|k: int| 0 <= k < r ==> !is_space(s[k]),
        r < s.len() ==> is_space(s[r]),
    ensures
        first_space_idx(s) == r,
    decreases s.len(),
{
    if r == 0 {
    } else {
        lemma_first_space_idx_unique(s.drop_first(), r - 1);
    }
}

/// A position characterised as "first space or comma" is where
/// `first_sep_idx` points.
pub proof fn lemma_first_sep_idx_unique(s: Seq<char>, r: int)
    requires
        0 <= r <= s.len(),
        forall|k: int| 0 <= k < r ==> s[k] != ' ' && s[k] != ',',
        r < s.len() ==> (s[r] == ' ' || s[r] == ','),
    ensures
        first_sep_idx(s) == r,
    decreases s.len(),
{
    if r == 0 {
    } else {
        lemma_first_sep_idx_unique(s.drop_first(), r - 1);
    }
}

/// Whether `pat` occurs in `s` starting at position `i`.
pub open spec fn is_match_at(s: Seq<char>, pat: Seq<char>, i: int) -> bool {
    0 <= i && i + pat.len() <= s.len() && s.subrange(i, i + pat.len()) == pat
}

/// Position of the first occurrence of `pat` in `s`, if any.
pub open spec fn spec_find(s: Seq<char>, pat: Seq<char>) -> Option<int>
    decreases s.len(),
{
    if pat.len() > s.len() {
        None
    } else if s.subrange(0, pat.len() as int) == pat {
        Some(0int)
    } else if s.len() == 0 {
        None
    } else {
        match spec_find(s.drop_first(), pat) {
            Some(j) => Some(j + 1),
            None => None,
        }
    }
}

proof fn lemma_match_shift(s: Seq<char>, pat: Seq<char>, k: int)
    requires
        s.len() > 0,
        0 <= k,
    ensures
        is_match_at(s.drop_first(), pat, k) == is_match_at(s, pat, k + 1),
{
    if k + 1 + pat.len() <= s.len() {
        assert(s.drop_first().subrange(k, k + pat.len()) =~= s.subrange(
            k + 1,
            k + 1 + pat.len(),
        ));
    }
}

/// What `spec_find` returns is the first match; `None` means no match at all.
pub proof fn lemma_spec_find(s: Seq<char>, pat: Seq<char>)
    ensures
        match spec_find(s, pat) {
            Some(i) => is_match_at(s, pat, i) && forall|k: int|
                0 <= k < i ==> !is_match_at(s, pat, k),
            None => forall|k: int| !is_match_at(s, pat, k),
        },
    decreases s.len(),
{
    if pat.len() > s.len() {
        assert forall|k: int| !is_match_at(s, pat, k) by {}
    } else if s.subrange(0, pat.len() as int) == pat {
    } else {
        assert(s.len() > 0) by {
            if s.len() == 0 {
                assert(s.subrange(0, pat.len() as int) =~= pat);
            }
        }
        lemma_spec_find(s.drop_first(), pat);
        assert forall|k: int| 0 <= k implies is_match_at(s, pat, k + 1) == is_match_at(
            s.drop_first(),
            pat,
            k,
        ) by {
            lemma_match_shift(s, pat, k);
        }
        match spec_find(s.drop_first(), pat) {
            Some(j) => {
                assert(is_match_at(s.drop_first(), pat, j));
                assert(is_match_at(s, pat, j + 1));
                assert forall|k: int| 0 <= k < j + 1 implies !is_match_at(s, pat, k) by {
                    if k > 0 {
                        lemma_match_shift(s, pat, k - 1);
                    }
                }
            },
            None => {
                assert forall|k: int| !is_match_at(s, pat, k) by {
                    if k > 0 {
                        lemma_match_shift(s, pat, k - 1);
                    }
                }
            },
        }
    }
}

/// The sequence with leading whitespace removed.
pub open spec fn spec_trim_start(s: Seq<char>) -> Seq<char>
    decreases s.len(),
{
    if s.len() > 0 && is_space(s[0]) {
        spec_trim_start(s.drop_first())
    } else {
        s
    }
}

/// The sequence with trailing whitespace removed.
pub open spec fn spec_trim_end(s: Seq<char>) -> Seq<char>
    decreases s.len(),
{
    if s.len() > 0 && is_space(s.last()) {
        spec_trim_end(s.drop_last())
    } else {
        s
    }
}

/// The sequence with whitespace removed from both ends.
pub open spec fn spec_trim(s: Seq<char>) -> Seq<char> {
    spec_trim_end(spec_trim_start(s))
}

/// Trimming the start keeps the suffix that begins at the first non-space.
pub proof fn lemma_trim_start_unique(s: Seq<char>, r: int)
    requires
        0 <= r <= s.len(),
        forall|k: int| 0 <= k < r ==> is_space(s[k]),
        r < s.len() ==> !is_space(s[r]),
    ensures
        spec_trim_start(s) =~= s.subrange(r, s.len() as int),
    decreases s.len(),
{
    if r == 0 {
        if s.len() > 0 {
            assert(s.subrange(0, s.len() as int) =~= s);
        }
    } else {
        assert(s.drop_first() =~= s.subrange(1, s.len() as int));
        lemma_trim_start_unique(s.drop_first(), r - 1);
        assert(s.drop_first().subrange(r - 1, s.drop_first().len() as int) =~= s.subrange(
            r,
            s.len() as int,
        ));
    }
}

/// Trimming the end keeps the prefix that ends after the last non-space.
pub proof fn lemma_trim_end_unique(s: Seq<char>, r: int)
    requires
        0 <= r <= s.len(),
        forall|k: int| r <= k < s.len() ==> is_space(s[k]),
        r > 0 ==> !is_space(s[r - 1]),
    ensures
        spec_trim_end(s) =~= s.subrange(0, r),
    decreases s.len(),
{
    if r == s.len() {
        assert(s.subrange(0, s.len() as int) =~= s);
    } else {
        assert(s.drop_last() =~= s.subrange(0, s.len() - 1));
        lemma_trim_end_unique(s.drop_last(), r);
        assert(s.drop_last().subrange(0, r) =~= s.subrange(0, r));
    }
}

/// Numeric value of a run of decimal digits, most significant first.
/// Meaningful when every character is a digit; the empty run has value zero.
pub open spec fn digits_val(s: Seq<char>) -> int
    decreases s.len(),
{
    if s.len() == 0 {
        0
    } else {
        digits_val(s.drop_last()) * 10 + (s.last() as u32 - 48)
    }
}

/// Every character of the run is a decimal digit.
pub open spec fn all_digits(s: Seq<char>) -> bool {
    forall|k: int| 0 <= k < s.len() ==> is_digit(#[trigger] s[k])
}

/// The value of a digit run is non-negative.
pub proof fn lemma_digits_val_nonneg(s: Seq<char>)
    requires
        all_digits(s),
    ensures
        digits_val(s) >= 0,
    decreases s.len(),
{
    if s.len() > 0 {
        assert(all_digits(s.drop_last()));
        lemma_digits_val_nonneg(s.drop_last());
    }
}

/// One more digit extends the value by a factor of ten.
pub proof fn lemma_digits_val_extend(s: Seq<char>, i: int)
    requires
        0 <= i < s.len(),
    ensures
        digits_val(s.subrange(0, i + 1)) == digits_val(s.subrange(0, i)) * 10 + (s[i] as u32
            - 48),
{
    assert(s.subrange(0, i + 1).drop_last() =~= s.subrange(0, i));
    assert(s.subrange(0, i + 1).last() == s[i]);
}

/// A prefix of a digit run never exceeds the whole run's value.
pub proof fn lemma_digits_val_prefix_le(s: Seq<char>, i: int)
    requires
        all_digits(s),
        0 <= i <= s.len(),
    ensures
        digits_val(s.subrange(0, i)) <= digits_val(s),
    decreases s.len() - i,
{
    if i == s.len() {
        assert(s.subrange(0, i) =~= s);
    } else {
        lemma_digits_val_extend(s, i);
        assert(all_digits(s.subrange(0, i)));
        lemma_digits_val_nonneg(s.subrange(0, i));
        lemma_digits_val_prefix_le(s, i + 1);
    }
}

/// Whether the character is ASCII whitespace.
pub fn is_space_char(c: char) -> (r: bool)
    ensures
        r == is_space(c),
{
    c == ' ' || c == '\t' || c == '\r' || c == '\n'
}

/// Index of the first occurrence of `c` in `s`, or the length if absent.
pub fn idx_of_char(s: &str, c: char) -> (r: usize)
    ensures
        r == first_idx_of(s@, c),
        r <= s@.len(),
        r < s@.len() ==> s@[r as int] == c,
        forall|k: int| 0 <= k < r ==> s@[k] != c,
{
    let n = s.unicode_len();
    let mut i: usize = 0;
    while i < n
        invariant
            0 <= i <= n,
            n == s@.len(),
            forall|k: int| 0 <= k < i ==> s@[k] != c,
        decreases n - i,
    {
        if s.get_char(i) == c {
            proof {
                lemma_first_idx_of_unique(s@, c, i as int);
            }
            return i;
        }
        i = i + 1;
    }
    proof {
        lemma_first_idx_of_unique(s@, c, n as int);
    }
    n
}

/// Index of the first ASCII whitespace character, or the length if absent.
pub fn idx_of_space(s: &str) -> (r: usize)
    ensures
        r == first_space_idx(s@),
        r <= s@.len(),
        r < s@.len() ==> is_space(s@[r as int]),
        forall|k: int| 0 <= k < r ==> !is_space(s@[k]),
{
    let n = s.unicode_len();
    let mut i: usize = 0;
    while i < n
        invariant
            0 <= i <= n,
            n == s@.len(),
            forall|k: int| 0 <= k < i ==> !is_space(s@[k]),
        decreases n - i,
    {
        if is_space_char(s.get_char(i)) {
            proof {
                lemma_first_space_idx_unique(s@, i as int);
            }
            return i;
        }
        i = i + 1;
    }
    proof {
        lemma_first_space_idx_unique(s@, n as int);
    }
    n
}

/// Index of the first space or comma, or the length if absent.
pub fn idx_of_sep(s: &str) -> (r: usize)
    ensures
        r == first_sep_idx(s@),
        r <= s@.len(),
        r < s@.len() ==> (s@[r as int] == ' ' || s@[r as int] == ','),
        forall|k: int| 0 <= k < r ==> s@[k] != ' ' && s@[k] != ',',
{
    let n = s.unicode_len();
    let mut i: usize = 0;
    while i < n
        invariant
            0 <= i <= n,
            n == s@.len(),
            forall|k: int| 0 <= k < i ==> s@[k] != ' ' && s@[k] != ',',
        decreases n - i,
    {
        let c = s.get_char(i);
        if c == ' ' || c == ',' {
            proof {
                lemma_first_sep_idx_unique(s@, i as int);
            }
            return i;
        }
        i = i + 1;
    }
    proof {
        lemma_first_sep_idx_unique(s@, n as int);
    }
    n
}

/// Position of the first occurrence of `pat` in `s`, if any.
pub fn find_sub(s: &str, pat: &str) -> (r: Option<usize>)
    ensures
        r matches Some(i) ==> spec_find(s@, pat@) == Some(i as int),
        r is None ==> spec_find(s@, pat@) is None,
{
    let n = s.unicode_len();
    let m = pat.unicode_len();
    proof {
        lemma_spec_find(s@, pat@);
    }
    if m > n {
        return None;
    }
    if m == 0 {
        proof {
            assert(s@.subrange(0, 0) =~= pat@);
        }
        return Some(0);
    }
    let mut i: usize = 0;
    while i <= n - m
        invariant
            1 <= m <= n,
            n == s@.len(),
            m == pat@.len(),
            0 <= i <= n - m + 1,
            forall|k: int| 0 <= k < i ==> !is_match_at(s@, pat@, k),
        decreases n - m - i + 1,
    {
        let mut j: usize = 0;
        let mut matched = true;
        while j < m && matched
            invariant
                0 <= j <= m,
                i + m <= n,
                n == s@.len(),
                m == pat@.len(),
                matched ==> forall|t: int| 0 <= t < j ==> s@[i + t] == pat@[t],
                !matched ==> !is_match_at(s@, pat@, i as int),
            decreases m - j, (if matched {
                1int
            } else {
                0int
            }),
        {
            if s.get_char(i + j) != pat.get_char(j) {
                proof {
                    if is_match_at(s@, pat@, i as int) {
                        assert(s@.subrange(i as int, i + m) == pat@);
                        assert(s@.subrange(i as int, i + m)[j as int] == s@[i + j]);
                    }
                }
                matched = false;
            } else {
                j = j + 1;
            }
        }
        if matched {
            proof {
                assert(s@.subrange(i as int, i + m) =~= pat@);
                assert(is_match_at(s@, pat@, i as int));
                lemma_spec_find(s@, pat@);
                match spec_find(s@, pat@) {
                    Some(x) => {
                        if x < i {
                            assert(!is_match_at(s@, pat@, x));
                        }
                        if x > i {
                            assert(!is_match_at(s@, pat@, i as int));
                        }
                        assert(x == i);
                    },
                    None => {
                        assert(!is_match_at(s@, pat@, i as int));
                    },
                }
            }
            return Some(i);
        }
        i = i + 1;
    }
    proof {
        lemma_spec_find(s@, pat@);
        match spec_find(s@, pat@) {
            Some(x) => {
                assert(is_match_at(s@, pat@, x));
                assert(x <= n - m);
                assert(!is_match_at(s@, pat@, x));
            },
            None => {},
        }
    }
    None
}

/// The start and end of the sequence with whitespace trimmed at both ends.
pub fn trim_bounds(s: &str) -> (r: (usize, usize))
    ensures
        0 <= r.0 <= r.1 <= s@.len(),
        spec_trim(s@) == s@.subrange(r.0 as int, r.1 as int),
        spec_trim_start(s@) == s@.subrange(r.0 as int, s@.len() as int),
{
    let n = s.unicode_len();
    let mut a: usize = 0;
    while a < n && is_space_char(s.get_char(a))
        invariant
            0 <= a <= n,
            n == s@.len(),
            forall|k: int| 0 <= k < a ==> is_space(s@[k]),
        decreases n - a,
    {
        a = a + 1;
    }
    proof {
        lemma_trim_start_unique(s@, a as int);
    }
    let mut b: usize = n;
    while b > a && is_space_char(s.get_char(b - 1))
        invariant
            a <= b <= n,
            n == s@.len(),
            forall|k: int| b <= k < n ==> is_space(s@[k]),
        decreases b,
    {
        b = b - 1;
    }
    proof {
        let s2 = s@.subrange(a as int, n as int);
        assert forall|k: int| b - a <= k < s2.len() implies is_space(s2[k]) by {
            assert(s2[k] == s@[k + a]);
        }
        if b > a {
            assert(s2[b - a - 1] == s@[b - 1]);
        }
        lemma_trim_end_unique(s2, b as int - a as int);
        assert(s2.subrange(0, b as int - a as int) =~= s@.subrange(a as int, b as int));
    }
    (a, b)
}

/// Whether every character is a decimal digit.
pub fn all_digits_check(s: &str) -> (r: bool)
    ensures
        r == all_digits(s@),
{
    let n = s.unicode_len();
    let mut i: usize = 0;
    while i < n
        invariant
            0 <= i <= n,
            n == s@.len(),
            forall|k: int| 0 <= k < i ==> is_digit(#[trigger] s@[k]),
        decreases n - i,
    {
        let c = s.get_char(i);
        let v = c as u32;
        if v < 48 || v > 57 {
            return false;
        }
        i = i + 1;
    }
    true
}

/// The value of a digit run, when it fits a `u64`; `None` reports overflow.
pub fn digits_value_checked(s: &str) -> (r: Option<u64>)
    requires
        all_digits(s@),
    ensures
        r matches Some(v) ==> v == digits_val(s@),
        r is None ==> digits_val(s@) > u64::MAX,
{
    let n = s.unicode_len();
    let mut val: u64 = 0;
    let mut i: usize = 0;
    proof {
        assert(s@.subrange(0, 0) =~= Seq::<char>::empty());
    }
    while i < n
        invariant
            0 <= i <= n,
            n == s@.len(),
            all_digits(s@),
            val == digits_val(s@.subrange(0, i as int)),
        decreases n - i,
    {
        let c = s.get_char(i);
        let d = (c as u32 - 48) as u64;
        proof {
            lemma_digits_val_extend(s@, i as int);
        }
        if val > u64::MAX / 10 {
            proof {
                lemma_digits_val_prefix_le(s@, i as int + 1);
            }
            return None;
        }
        let v10 = val * 10;
        if d > u64::MAX - v10 {
            proof {
                lemma_digits_val_prefix_le(s@, i as int + 1);
            }
            return None;
        }
        val = v10 + d;
        i = i + 1;
    }
    proof {
        assert(s@.subrange(0, n as int) =~= s@);
    }
    Some(val)
}

/// The value of a digit run, saturating at `u64::MAX`.
pub fn digits_value_saturating(s: &str) -> (r: u64)
    requires
        all_digits(s@),
    ensures
        r == if digits_val(s@) > u64::MAX {
            u64::MAX as int
        } else {
            digits_val(s@)
        },
{
    proof {
        lemma_digits_val_nonneg(s@);
    }
    match digits_value_checked(s) {
        Some(v) => v,
        None => u64::MAX,
    }
}

} // verus!
