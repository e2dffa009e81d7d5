//! Decimal rendering of integers, human-readable file sizes with two
//! fixed decimal places, and MM:SS / HH:MM:SS durations.

use vstd::prelude::*;
use crate::text::string_from_chars;

verus! {

pub const KB: u64 = 1024;

pub const MB: u64 = 1024 * 1024;

pub const GB: u64 = 1024 * 1024 * 1024;

/// The character for one decimal digit.
pub open spec fn digit_char(d: nat) -> char
    recommends
        d < 10,
{
    ((48 + d) as u8) as char
}

/// The decimal digits of `n`, most significant first, no leading zeros
/// (a single `'0'` for zero).
pub open spec fn dec_digits(n: nat) -> Seq<char>
    decreases n,
{
    if n < 10 {
        seq![digit_char(n)]
    } else {
        dec_digits(n / 10).push(digit_char(n % 10))
    }
}

/// `n` in decimal, left-padded with `'0'` to at least two characters.
pub open spec fn pad2(n: nat) -> Seq<char> {
    if n < 10 {
        seq!['0'].push(digit_char(n))
    } else {
        dec_digits(n)
    }
}

/// Appends the decimal digits of `n` to `v`.
pub fn push_dec(v: &mut Vec<char>, n: u64)
    ensures
        final(v)@ == old(v)@ + dec_digits(n as nat),
    decreases n,
{
    if n < 10 {
        let c: char = (48 + (n as u8)) as char;
        v.push(c);
        proof {
            assert(v@ =~= old(v)@ + dec_digits(n as nat));
        }
    } else {
        push_dec(v, n / 10);
        let c: char = (48 + ((n % 10) as u8)) as char;
        v.push(c);
        proof {
            assert(v@ =~= old(v)@ + dec_digits(n as nat));
        }
    }
}

/// Appends `n` in decimal, zero-padded to at least two characters.
pub fn push_pad2(v: &mut Vec<char>, n: u64)
    ensures
        final(v)@ == old(v)@ + pad2(n as nat),
{
    if n < 10 {
        v.push('0');
    }
    push_dec(v, n);
    proof {
        if n < 10 {
            assert(v@ =~= old(v)@ + pad2(n as nat));
        }
    }
}

/// `size / unit` in hundredths, rounded to the nearest hundredth with
/// ties rounded to the even hundredth, as fixed-precision decimal
/// rendering rounds.
pub open spec fn hundredths(size: u64, unit: u64) -> nat
    recommends
        unit >= 100,
{
    let p = (size as int) * 100;
    let q = p / (unit as int);
    let r = p % (unit as int);
    (if 2 * r > unit {
        q + 1
    } else if 2 * r < unit {
        q
    } else if q % 2 == 0 {
        q
    } else {
        q + 1
    }) as nat
}

/// A quantity in hundredths rendered as "whole.fraction" with exactly two
/// fraction digits.
pub open spec fn two_decimals(h: nat) -> Seq<char> {
    dec_digits(h / 100) + seq!['.'] + pad2(h % 100)
}

/// The human-readable rendering of a byte count: whole bytes below 1024,
/// otherwise two decimal places of the largest applicable binary unit.
pub open spec fn size_string(size: u64) -> Seq<char> {
    if size >= GB {
        two_decimals(hundredths(size, GB)) + seq![' ', 'G', 'B']
    } else if size >= MB {
        two_decimals(hundredths(size, MB)) + seq![' ', 'M', 'B']
    } else if size >= KB {
        two_decimals(hundredths(size, KB)) + seq![' ', 'K', 'B']
    } else {
        dec_digits(size as nat) + seq![' ', 'B']
    }
}

/// Computes `hundredths(size, unit)` without overflow.
fn hundredths_exec(size: u64, unit: u64) -> (r: u64)
    requires
        100 <= unit,
    ensures
        r == hundredths(size, unit),
{
    let p: u128 = (size as u128) * 100;
    let u: u128 = unit as u128;
    let q: u128 = p / u;
    let rem: u128 = p % u;
    let h: u128 = if 2 * rem > u {
        q + 1
    } else if 2 * rem < u {
        q
    } else if q % 2 == 0 {
        q
    } else {
        q + 1
    };
    proof {
        vstd::arithmetic::div_mod::lemma_fundamental_div_mod(p as int, u as int);
        assert(p <= (size as int) * (unit as int)) by (nonlinear_arith)
            requires
                p == (size as int) * 100,
                100 <= unit,
                0 <= size,
        ;
        if rem == 0 {
            assert(q <= size) by (nonlinear_arith)
                requires
                    (q as int) * (unit as int) == p,
                    p <= (size as int) * (unit as int),
                    0 < unit,
                    0 <= q,
                    0 <= size,
            ;
        } else {
            assert(q < size) by (nonlinear_arith)
                requires
                    (q as int) * (unit as int) + rem == p,
                    p <= (size as int) * (unit as int),
                    0 < rem,
                    0 < unit,
                    0 <= q,
                    0 <= size,
            ;
        }
    }
    h as u64
}

/// Two fixed decimal places of `size / unit`, appended to `v`.
fn push_two_decimals(v: &mut Vec<char>, size: u64, unit: u64)
    requires
        100 <= unit,
    ensures
        final(v)@ == old(v)@ + two_decimals(hundredths(size, unit)),
{
    let h = hundredths_exec(size, unit);
    push_dec(v, h / 100);
    v.push('.');
    push_pad2(v, h % 100);
    proof {
        assert(v@ =~= old(v)@ + two_decimals(hundredths(size, unit)));
    }
}

/// Format a byte count as a human-readable size string.
pub fn format_size(size: u64) -> (r: String)
    ensures
        r@ == size_string(size),
{
    let mut v: Vec<char> = Vec::new();
    if size >= GB {
        push_two_decimals(&mut v, size, GB);
        v.push(' ');
        v.push('G');
        v.push('B');
    } else if size >= MB {
        push_two_decimals(&mut v, size, MB);
        v.push(' ');
        v.push('M');
        v.push('B');
    } else if size >= KB {
        push_two_decimals(&mut v, size, KB);
        v.push(' ');
        v.push('K');
        v.push('B');
    } else {
        push_dec(&mut v, size);
        v.push(' ');
        v.push('B');
    }
    proof {
        assert(v@ =~= size_string(size));
    }
    string_from_chars(&v)
}

/// A duration in whole seconds rendered as HH:MM:SS when it reaches one
/// hour and as MM:SS below that, each part zero-padded to two digits.
pub open spec fn duration_string(total_secs: u64) -> Seq<char> {
    let hours = total_secs as nat / 3600;
    let minutes = (total_secs as nat % 3600) / 60;
    let seconds = total_secs as nat % 60;
    if hours > 0 {
        pad2(hours) + seq![':'] + pad2(minutes) + seq![':'] + pad2(seconds)
    } else {
        pad2(minutes) + seq![':'] + pad2(seconds)
    }
}

/// Format a duration of whole seconds as MM:SS or HH:MM:SS.
pub fn format_duration(total_secs: u64) -> (r: String)
    ensures
        r@ == duration_string(total_secs),
{
    let hours = total_secs / 3600;
    let minutes = (total_secs % 3600) / 60;
    let seconds = total_secs % 60;
    let mut v: Vec<char> = Vec::new();
    if hours > 0 {
        push_pad2(&mut v, hours);
        v.push(':');
    }
    push_pad2(&mut v, minutes);
    v.push(':');
    push_pad2(&mut v, seconds);
    proof {
        assert(v@ =~= duration_string(total_secs));
    }
    string_from_chars(&v)
}

} // verus!
