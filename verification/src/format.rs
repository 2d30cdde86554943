//! Human-readable rendering of byte counts, in integer arithmetic.

use vstd::prelude::*;

use crate::text::chars_to_string;

verus! {

/// One kibibyte, in bytes.
pub const KB: u64 = 1024;

/// One mebibyte, in bytes.
pub const MB: u64 = 1024 * 1024;

/// One gibibyte, in bytes.
pub const GB: u64 = 1024 * 1024 * 1024;

/// The decimal digit as a character.
pub open spec fn digit_char(d: int) -> char {
    ((48 + d) as u8) as char
}

/// The decimal numeral of a non-negative number.
pub open spec fn decimal_of(n: int) -> Seq<char>
    decreases n,
{
    if n < 10 {
        seq![digit_char(n)]
    } else {
        decimal_of(n / 10) + seq![digit_char(n % 10)]
    }
}

/// The whole part and the two rounded decimal places of `bytes / unit`,
/// rounding half up; a fraction that rounds to a full unit carries into
/// the whole part.
pub open spec fn scaled_parts(bytes: int, unit: int) -> (int, int) {
    let whole: int = bytes / unit;
    let frac: int = ((bytes % unit) * 100 + unit / 2) / unit;
    if frac == 100 {
        (whole + 1, 0)
    } else {
        (whole, frac)
    }
}

/// The two decimal places as characters.
pub open spec fn frac_digits(f: int) -> Seq<char> {
    seq![digit_char(f / 10), digit_char(f % 10)]
}

/// What [`pretty_bytes`] returns: a count under one kibibyte as `N B`,
/// then `W.FF KB`, `W.FF MB` or `W.FF GB` with two decimal places.
pub open spec fn pretty_bytes_spec(bytes: int) -> Seq<char> {
    if bytes < KB {
        decimal_of(bytes) + seq![' ', 'B']
    } else if bytes < MB {
        let p = scaled_parts(bytes, KB as int);
        decimal_of(p.0) + seq!['.'] + frac_digits(p.1) + seq![' ', 'K', 'B']
    } else if bytes < GB {
        let p = scaled_parts(bytes, MB as int);
        decimal_of(p.0) + seq!['.'] + frac_digits(p.1) + seq![' ', 'M', 'B']
    } else {
        let p = scaled_parts(bytes, GB as int);
        decimal_of(p.0) + seq!['.'] + frac_digits(p.1) + seq![' ', 'G', 'B']
    }
}

/// Executable counterpart of [`digit_char`].
fn digit_exec(d: u64) -> (c: char)
    requires
        d < 10,
    ensures
        c == digit_char(d as int),
{
    ((48 + d as u8) as u8) as char
}

/// Appends the decimal numeral of `n`.
fn push_decimal(out: &mut Vec<char>, n: u64)
    ensures
        final(out)@ == old(out)@ + decimal_of(n as int),
    decreases n,
{
    if n < 10 {
        out.push(digit_exec(n));
        assert(final(out)@ =~= old(out)@ + decimal_of(n as int));
    } else {
        push_decimal(out, n / 10);
        out.push(digit_exec(n % 10));
        assert(final(out)@ =~= old(out)@ + decimal_of(n as int));
    }
}

/// Appends `W.FF <unit_char>B` for `bytes / unit`.
fn push_scaled(out: &mut Vec<char>, bytes: u64, unit: u64, unit_char: char)
    requires
        1024 <= unit <= GB,
    ensures
        ({
            let p = scaled_parts(bytes as int, unit as int);
            final(out)@ == old(out)@ + decimal_of(p.0) + seq!['.'] + frac_digits(p.1) + seq![
                ' ',
                unit_char,
                'B',
            ]
        }),
{
    let whole: u64 = bytes / unit;
    let rem: u64 = bytes % unit;
    let frac: u64 = (rem * 100 + unit / 2) / unit;
    proof {
        vstd::arithmetic::div_mod::lemma_div_is_ordered_by_denominator(
            bytes as int,
            1024,
            unit as int,
        );
        assert(whole + 1 <= u64::MAX);
        assert(frac <= 100) by (nonlinear_arith)
            requires
                0 < unit,
                rem < unit,
                frac as int == (rem as int * 100 + unit as int / 2) / (unit as int),
        {
        }
    }
    let w: u64 = if frac == 100 {
        whole + 1
    } else {
        whole
    };
    let f: u64 = if frac == 100 {
        0
    } else {
        frac
    };
    push_decimal(out, w);
    out.push('.');
    out.push(digit_exec(f / 10));
    out.push(digit_exec(f % 10));
    out.push(' ');
    out.push(unit_char);
    out.push('B');
    proof {
        let p = scaled_parts(bytes as int, unit as int);
        assert(out@ =~= old(out)@ + decimal_of(p.0) + seq!['.'] + frac_digits(p.1) + seq![
            ' ',
            unit_char,
            'B',
        ]);
    }
}

/// Renders a byte count with its binary unit and two decimal places,
/// rounding half up.
pub fn pretty_bytes(bytes: u64) -> (r: String)
    ensures
        r@ == pretty_bytes_spec(bytes as int),
{
    let mut out: Vec<char> = Vec::new();
    if bytes < KB {
        push_decimal(&mut out, bytes);
        out.push(' ');
        out.push('B');
        assert(out@ =~= pretty_bytes_spec(bytes as int));
    } else if bytes < MB {
        push_scaled(&mut out, bytes, KB, 'K');
        assert(out@ =~= pretty_bytes_spec(bytes as int));
    } else if bytes < GB {
        push_scaled(&mut out, bytes, MB, 'M');
        assert(out@ =~= pretty_bytes_spec(bytes as int));
    } else {
        push_scaled(&mut out, bytes, GB, 'G');
        assert(out@ =~= pretty_bytes_spec(bytes as int));
    }
    chars_to_string(&out)
}

} // verus!
