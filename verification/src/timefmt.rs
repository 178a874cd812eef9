//! Decimal and timestamp rendering: zero-padded decimal digits and the
//! `HH:MM:SS.mmm` textual encoding used for extraction boundaries.

use vstd::prelude::*;

use vstd::arithmetic::div_mod::lemma_div_decreases;

use crate::text::{all_digits, digits_val};

verus! {

/// The character for one decimal digit.
pub open spec fn digit_char(d: int) -> char {
    if d == 0 {
        '0'
    } else if d == 1 {
        '1'
    } else if d == 2 {
        '2'
    } else if d == 3 {
        '3'
    } else if d == 4 {
        '4'
    } else if d == 5 {
        '5'
    } else if d == 6 {
        '6'
    } else if d == 7 {
        '7'
    } else if d == 8 {
        '8'
    } else {
        '9'
    }
}

/// The decimal digits of a non-negative integer, most significant first,
/// without leading zeros (a single zero for 0).
pub open spec fn dec_digits(n: int) -> Seq<char>
    decreases n,
{
    if n < 10 {
        seq![digit_char(n)]
    } else {
        dec_digits(n / 10).push(digit_char(n % 10))
    }
}

/// Decimal digits, left-padded with zeros to at least two places.
pub open spec fn pad2(n: int) -> Seq<char> {
    if 0 <= n < 10 {
        seq!['0'] + dec_digits(n)
    } else {
        dec_digits(n)
    }
}

/// Decimal digits, left-padded with zeros to at least three places.
pub open spec fn pad3(n: int) -> Seq<char> {
    if 0 <= n < 10 {
        seq!['0', '0'] + dec_digits(n)
    } else if 10 <= n < 100 {
        seq!['0'] + dec_digits(n)
    } else {
        dec_digits(n)
    }
}

/// Decimal digits, left-padded with zeros to at least four places.
pub open spec fn pad4(n: int) -> Seq<char> {
    if 0 <= n < 10 {
        seq!['0', '0', '0'] + dec_digits(n)
    } else if 10 <= n < 100 {
        seq!['0', '0'] + dec_digits(n)
    } else if 100 <= n < 1000 {
        seq!['0'] + dec_digits(n)
    } else {
        dec_digits(n)
    }
}

/// The `HH:MM:SS.mmm` rendering of a duration given in milliseconds:
/// zero-padded hours, minutes and seconds, milliseconds to three places.
/// Hours grow beyond two digits when needed.
pub open spec fn spec_format_time(ms: int) -> Seq<char> {
    pad2(ms / 3600000) + seq![':'] + pad2((ms / 60000) % 60) + seq![':'] + pad2((ms / 1000) % 60)
        + seq!['.'] + pad3(ms % 1000)
}

/// The decimal rendering of `n` holds digits only, reads back as `n`, and is
/// as short as `n` allows.
pub proof fn lemma_dec_digits_props(n: int)
    requires
        0 <= n,
    ensures
        all_digits(dec_digits(n)),
        digits_val(dec_digits(n)) == n,
        dec_digits(n).len() >= 1,
        n < 10 ==> dec_digits(n).len() == 1,
        n < 100 ==> dec_digits(n).len() <= 2,
        n < 1000 ==> dec_digits(n).len() <= 3,
        n >= 10 ==> dec_digits(n).len() >= 2,
        n >= 100 ==> dec_digits(n).len() >= 3,
    decreases n,
{
    if n < 10 {
        assert(digits_val(dec_digits(n)) == digits_val(Seq::<char>::empty()) * 10 + (digit_char(
            n,
        ) as u32 - 48)) by {
            assert(dec_digits(n).drop_last() =~= Seq::<char>::empty());
        }
    } else {
        lemma_div_decreases(n, 10);
        lemma_dec_digits_props(n / 10);
        let s = dec_digits(n / 10);
        let c = digit_char(n % 10);
        assert(s.push(c).drop_last() =~= s);
        assert(digits_val(s.push(c)) == digits_val(s) * 10 + (c as u32 - 48));
        assert(n / 10 * 10 + n % 10 == n) by {
            vstd::arithmetic::div_mod::lemma_fundamental_div_mod(n, 10);
        }
    }
}

/// A leading zero does not change the value a digit run reads back as.
proof fn lemma_digits_val_leading_zero(s: Seq<char>)
    ensures
        digits_val(seq!['0'] + s) == digits_val(s),
        all_digits(s) ==> all_digits(seq!['0'] + s),
    decreases s.len(),
{
    let z = seq!['0'];
    if s.len() == 0 {
        assert(z + s =~= z);
        assert(z.drop_last() =~= Seq::<char>::empty());
        assert(digits_val(Seq::<char>::empty()) == 0);
        assert(digits_val(z) == digits_val(z.drop_last()) * 10 + ('0' as u32 - 48));
    } else {
        assert((z + s).drop_last() =~= z + s.drop_last());
        assert((z + s).last() == s.last());
        lemma_digits_val_leading_zero(s.drop_last());
    }
}

/// Two-place padding holds digits only, reads back unchanged, and fills
/// exactly two places for values below one hundred.
pub proof fn lemma_pad2_props(n: int)
    requires
        0 <= n,
    ensures
        all_digits(pad2(n)),
        digits_val(pad2(n)) == n,
        pad2(n).len() >= 2,
        n < 100 ==> pad2(n).len() == 2,
{
    lemma_dec_digits_props(n);
    if n < 10 {
        lemma_digits_val_leading_zero(dec_digits(n));
    }
}

/// Three-place padding holds digits only, reads back unchanged, and fills
/// exactly three places for values below one thousand.
pub proof fn lemma_pad3_props(n: int)
    requires
        0 <= n,
    ensures
        all_digits(pad3(n)),
        digits_val(pad3(n)) == n,
        pad3(n).len() >= 3,
        n < 1000 ==> pad3(n).len() == 3,
{
    lemma_dec_digits_props(n);
    if n < 10 {
        assert(seq!['0', '0'] + dec_digits(n) =~= seq!['0'] + (seq!['0'] + dec_digits(n)));
        lemma_digits_val_leading_zero(dec_digits(n));
        lemma_digits_val_leading_zero(seq!['0'] + dec_digits(n));
    } else if n < 100 {
        lemma_digits_val_leading_zero(dec_digits(n));
    }
}

/// Appends one decimal digit character.
fn push_digit(s: &mut String, d: u64)
    requires
        d < 10,
    ensures
        final(s)@ == old(s)@ + seq![digit_char(d as int)],
{
    if d == 0 {
        s.append("0");
        proof {
            reveal_strlit("0");
            assert(final(s)@ =~= old(s)@ + seq![digit_char(d as int)]);
        }
    } else if d == 1 {
        s.append("1");
        proof {
            reveal_strlit("1");
            assert(final(s)@ =~= old(s)@ + seq![digit_char(d as int)]);
        }
    } else if d == 2 {
        s.append("2");
        proof {
            reveal_strlit("2");
            assert(final(s)@ =~= old(s)@ + seq![digit_char(d as int)]);
        }
    } else if d == 3 {
        s.append("3");
        proof {
            reveal_strlit("3");
            assert(final(s)@ =~= old(s)@ + seq![digit_char(d as int)]);
        }
    } else if d == 4 {
        s.append("4");
        proof {
            reveal_strlit("4");
            assert(final(s)@ =~= old(s)@ + seq![digit_char(d as int)]);
        }
    } else if d == 5 {
        s.append("5");
        proof {
            reveal_strlit("5");
            assert(final(s)@ =~= old(s)@ + seq![digit_char(d as int)]);
        }
    } else if d == 6 {
        s.append("6");
        proof {
            reveal_strlit("6");
            assert(final(s)@ =~= old(s)@ + seq![digit_char(d as int)]);
        }
    } else if d == 7 {
        s.append("7");
        proof {
            reveal_strlit("7");
            assert(final(s)@ =~= old(s)@ + seq![digit_char(d as int)]);
        }
    } else if d == 8 {
        s.append("8");
        proof {
            reveal_strlit("8");
            assert(final(s)@ =~= old(s)@ + seq![digit_char(d as int)]);
        }
    } else {
        s.append("9");
        proof {
            reveal_strlit("9");
            assert(final(s)@ =~= old(s)@ + seq![digit_char(d as int)]);
        }
    }
}

/// Appends the decimal digits of `n`, most significant first.
pub fn push_dec(s: &mut String, n: u64)
    ensures
        final(s)@ == old(s)@ + dec_digits(n as int),
    decreases n,
{
    if n < 10 {
        push_digit(s, n);
    } else {
        push_dec(s, n / 10);
        push_digit(s, n % 10);
        proof {
            assert(final(s)@ =~= old(s)@ + dec_digits(n as int));
        }
    }
}

/// The decimal rendering of `n`, without padding.
pub fn u64_to_string(n: u64) -> (r: String)
    ensures
        r@ == dec_digits(n as int),
{
    let mut s = String::new();
    push_dec(&mut s, n);
    proof {
        assert(s@ =~= dec_digits(n as int));
    }
    s
}

/// Appends the decimal digits of `n`, zero-padded to at least two places.
pub fn push_pad2(s: &mut String, n: u64)
    ensures
        final(s)@ == old(s)@ + pad2(n as int),
{
    if n < 10 {
        push_digit(s, 0);
        push_digit(s, n);
        proof {
            assert(final(s)@ =~= old(s)@ + pad2(n as int));
        }
    } else {
        push_dec(s, n);
    }
}

/// Appends the decimal digits of `n`, zero-padded to at least three places.
pub fn push_pad3(s: &mut String, n: u64)
    ensures
        final(s)@ == old(s)@ + pad3(n as int),
{
    if n < 10 {
        push_digit(s, 0);
        push_digit(s, 0);
        push_digit(s, n);
        proof {
            assert(final(s)@ =~= old(s)@ + pad3(n as int));
        }
    } else if n < 100 {
        push_digit(s, 0);
        push_dec(s, n);
        proof {
            assert(final(s)@ =~= old(s)@ + pad3(n as int));
        }
    } else {
        push_dec(s, n);
    }
}

/// Appends the decimal digits of `n`, zero-padded to at least four places.
pub fn push_pad4(s: &mut String, n: u64)
    ensures
        final(s)@ == old(s)@ + pad4(n as int),
{
    if n < 10 {
        push_digit(s, 0);
        push_digit(s, 0);
        push_digit(s, 0);
        push_digit(s, n);
        proof {
            assert(final(s)@ =~= old(s)@ + pad4(n as int));
        }
    } else if n < 100 {
        push_digit(s, 0);
        push_digit(s, 0);
        push_dec(s, n);
        proof {
            assert(final(s)@ =~= old(s)@ + pad4(n as int));
        }
    } else if n < 1000 {
        push_digit(s, 0);
        push_dec(s, n);
        proof {
            assert(final(s)@ =~= old(s)@ + pad4(n as int));
        }
    } else {
        push_dec(s, n);
    }
}

/// Formats a duration in milliseconds as `HH:MM:SS.mmm`.
pub fn format_ffmpeg_time(ms: u64) -> (r: String)
    ensures
        r@ == spec_format_time(ms as int),
{
    let hours = ms / 3600000;
    let minutes = (ms / 60000) % 60;
    let seconds = (ms / 1000) % 60;
    let millis = ms % 1000;
    let mut s = String::new();
    push_pad2(&mut s, hours);
    s.append(":");
    push_pad2(&mut s, minutes);
    s.append(":");
    push_pad2(&mut s, seconds);
    s.append(".");
    push_pad3(&mut s, millis);
    proof {
        reveal_strlit(":");
        reveal_strlit(".");
        assert(":"@ =~= seq![':']);
        assert("."@ =~= seq!['.']);
        assert(s@ =~= spec_format_time(ms as int));
    }
    s
}

} // verus!
