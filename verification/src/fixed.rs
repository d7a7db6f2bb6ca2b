//! Fixed-point coordinate scale and exact decimal formatting.
//!
//! Coordinates are signed multiples of `1/SCALE` of a unit. All text the
//! library emits is built here: unsigned and signed decimal integers, and
//! fixed-point values rendered with exactly four (coordinates) or two
//! (color components) digits after the decimal point.

use vstd::prelude::*;

verus! {

/// Fixed-point subunits per coordinate unit.
pub const SCALE: i32 = 10000;

/// The decimal digit `d` (`0 <= d <= 9`) as a character.
pub open spec fn digit_char(d: int) -> char {
    if d == 0 {
        '0'
    } else if d == 1 {
        '1'
    } else if d == 2 {
        '2'
    } else if d == 3 {
        '3'
    } else if d == 4 {
        '4'
    } else if d == 5 {
        '5'
    } else if d == 6 {
        '6'
    } else if d == 7 {
        '7'
    } else if d == 8 {
        '8'
    } else {
        '9'
    }
}

/// Decimal digits of `n`, most significant first, no leading zeros
/// (a single `'0'` for `n == 0`).
pub open spec fn dec_digits(n: nat) -> Seq<char>
    decreases n,
{
    if n < 10 {
        seq![digit_char(n as int)]
    } else {
        dec_digits(n / 10) + seq![digit_char((n % 10) as int)]
    }
}

/// Signed decimal rendering of `v`: a leading `'-'` for negative values,
/// then the digits of the magnitude.
pub open spec fn int_chars(v: int) -> Seq<char> {
    if v < 0 {
        seq!['-'] + dec_digits((-v) as nat)
    } else {
        dec_digits(v as nat)
    }
}

/// The four zero-padded digits of a fraction `0 <= f < 10000`.
pub open spec fn frac4_chars(f: int) -> Seq<char> {
    seq![
        digit_char(f / 1000),
        digit_char((f / 100) % 10),
        digit_char((f / 10) % 10),
        digit_char(f % 10),
    ]
}

/// The two zero-padded digits of a fraction `0 <= f < 100`.
pub open spec fn frac2_chars(f: int) -> Seq<char> {
    seq![digit_char(f / 10), digit_char(f % 10)]
}

/// A fixed-point value `v` (in `1/SCALE` units) rendered with exactly four
/// digits after the decimal point, e.g. `-12500 ↦ "-1.2500"`.
pub open spec fn fp4_chars(v: int) -> Seq<char> {
    let m = if v < 0 {
        -v
    } else {
        v
    };
    (if v < 0 {
        seq!['-']
    } else {
        Seq::<char>::empty()
    }) + dec_digits((m / 10000) as nat) + seq!['.'] + frac4_chars(m % 10000)
}

/// A fixed-point value `v` (in hundredths) rendered with exactly two digits
/// after the decimal point, e.g. `100 ↦ "1.00"`.
pub open spec fn fp2_chars(v: int) -> Seq<char> {
    let m = if v < 0 {
        -v
    } else {
        v
    };
    (if v < 0 {
        seq!['-']
    } else {
        Seq::<char>::empty()
    }) + dec_digits((m / 100) as nat) + seq!['.'] + frac2_chars(m % 100)
}

/// Division truncating toward zero (Rust's `/` on machine integers),
/// for a positive divisor `d`.
pub open spec fn tdiv(a: int, d: int) -> int {
    if a >= 0 {
        a / d
    } else {
        -((-a) / d)
    }
}

/// Whether `c` is a decimal digit character.
pub open spec fn is_digit_char(c: char) -> bool {
    c == '0' || c == '1' || c == '2' || c == '3' || c == '4' || c == '5' || c == '6' || c == '7'
        || c == '8' || c == '9'
}

/// A decimal rendering is never empty and starts with a digit.
pub proof fn lemma_dec_digits_form(n: nat)
    ensures
        dec_digits(n).len() >= 1,
        is_digit_char(dec_digits(n)[0]),
    decreases n,
{
    if n >= 10 {
        lemma_dec_digits_form(n / 10);
    }
}

/// A fixed-point rendering is never empty and starts with a minus sign or
/// a digit — so it is no PostScript operator name.
pub proof fn lemma_fp4_form(v: int)
    ensures
        fp4_chars(v).len() >= 1,
        fp4_chars(v)[0] == '-' || is_digit_char(fp4_chars(v)[0]),
{
    let m = if v < 0 {
        -v
    } else {
        v
    };
    lemma_dec_digits_form((m / 10000) as nat);
}

/// Truncating division by a positive divisor is monotone.
pub proof fn lemma_tdiv_mono(a: int, b: int, d: int)
    requires
        a <= b,
        d > 0,
    ensures
        tdiv(a, d) <= tdiv(b, d),
{
    if a >= 0 {
        vstd::arithmetic::div_mod::lemma_div_is_ordered(a, b, d);
    } else if b < 0 {
        vstd::arithmetic::div_mod::lemma_div_is_ordered(-b, -a, d);
    } else {
        vstd::arithmetic::div_mod::lemma_div_pos_is_pos(-a, d);
        vstd::arithmetic::div_mod::lemma_div_pos_is_pos(b, d);
    }
}

/// The decimal digit `d` as a one-character string slice.
fn digit_str(d: u64) -> (s: &'static str)
    requires
        d < 10,
    ensures
        s@ == seq![digit_char(d as int)],
{
    proof {
        reveal_strlit("0");
        reveal_strlit("1");
        reveal_strlit("2");
        reveal_strlit("3");
        reveal_strlit("4");
        reveal_strlit("5");
        reveal_strlit("6");
        reveal_strlit("7");
        reveal_strlit("8");
        reveal_strlit("9");
    }
    match d {
        0 => "0",
        1 => "1",
        2 => "2",
        3 => "3",
        4 => "4",
        5 => "5",
        6 => "6",
        7 => "7",
        8 => "8",
        _ => "9",
    }
}

/// Appends the decimal digits of `n` to `out`.
pub fn append_u64(out: &mut String, n: u64)
    ensures
        final(out)@ == old(out)@ + dec_digits(n as nat),
    decreases n,
{
    if n < 10 {
        out.append(digit_str(n));
    } else {
        append_u64(out, n / 10);
        out.append(digit_str(n % 10));
        proof {
            assert(out@ =~= old(out)@ + dec_digits(n as nat));
        }
    }
}

/// The magnitude of `v` as an unsigned value (total, also at `i64::MIN`).
fn magnitude(v: i64) -> (m: u64)
    ensures
        m as int == if v < 0 {
            -(v as int)
        } else {
            v as int
        },
{
    if v >= 0 {
        v as u64
    } else {
        let wide: i128 = -(v as i128);
        wide as u64
    }
}

/// Appends the signed decimal rendering of `v` to `out`.
pub fn append_i64(out: &mut String, v: i64)
    ensures
        final(out)@ == old(out)@ + int_chars(v as int),
{
    if v < 0 {
        out.append("-");
        proof {
            reveal_strlit("-");
        }
    }
    let m = magnitude(v);
    append_u64(out, m);
    proof {
        assert(out@ =~= old(out)@ + int_chars(v as int));
    }
}

/// Appends `v` (in `1/SCALE` units) rendered with exactly four digits after
/// the decimal point.
pub fn append_fp4(out: &mut String, v: i64)
    ensures
        final(out)@ == old(out)@ + fp4_chars(v as int),
{
    if v < 0 {
        out.append("-");
        proof {
            reveal_strlit("-");
        }
    }
    let m = magnitude(v);
    append_u64(out, m / 10000);
    out.append(".");
    proof {
        reveal_strlit(".");
    }
    let f = m % 10000;
    out.append(digit_str(f / 1000));
    out.append(digit_str((f / 100) % 10));
    out.append(digit_str((f / 10) % 10));
    out.append(digit_str(f % 10));
    proof {
        assert(out@ =~= old(out)@ + fp4_chars(v as int));
    }
}

/// Appends `v` (in hundredths) rendered with exactly two digits after the
/// decimal point.
pub fn append_fp2(out: &mut String, v: i64)
    ensures
        final(out)@ == old(out)@ + fp2_chars(v as int),
{
    if v < 0 {
        out.append("-");
        proof {
            reveal_strlit("-");
        }
    }
    let m = magnitude(v);
    append_u64(out, m / 100);
    out.append(".");
    proof {
        reveal_strlit(".");
    }
    let f = m % 100;
    out.append(digit_str(f / 10));
    out.append(digit_str(f % 10));
    proof {
        assert(out@ =~= old(out)@ + fp2_chars(v as int));
    }
}

/// The quotient of a nonnegative value by a positive divisor.
pub fn div_nonneg(a: i64, d: u64) -> (r: i64)
    requires
        a >= 0,
        d > 0,
    ensures
        r == a as int / d as int,
{
    ((a as u64) / d) as i64
}

/// `v` in `1/SCALE` units reduced to whole units, truncating toward zero
/// (the rounding the integer `%%BoundingBox` fields use).
pub fn whole_units(v: i64) -> (r: i64)
    ensures
        r as int == tdiv(v as int, SCALE as int),
{
    let m = magnitude(v);
    let q = m / 10000;
    if v >= 0 {
        q as i64
    } else {
        -(q as i64)
    }
}

}
