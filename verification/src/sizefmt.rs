//! Human-readable byte sizes for request logging: a count of bytes
//! rendered against the binary units, with two decimal places (rounded to
//! the nearest hundredth, ties upward).

use vstd::prelude::*;

use crate::text::string_from_chars;

verus! {

pub const KB: usize = 1024;

pub const MB: usize = 1024 * 1024;

pub const GB: usize = 1024 * 1024 * 1024;

/// The character of one decimal digit.
pub open spec fn digit_char(d: int) -> char {
    ((d + 48) as u8) as char
}

/// Decimal representation, most significant digit first.
pub open spec fn decimal(n: nat) -> Seq<char>
    decreases n,
{
    if n < 10 {
        seq![digit_char(n as int)]
    } else {
        decimal(n / 10).push(digit_char((n % 10) as int))
    }
}

/// A value in hundredths of the unit, rounded to the nearest hundredth
/// with ties upward.
pub open spec fn scaled_hundredths(bytes: nat, unit: nat) -> nat
    recommends
        unit >= 2,
{
    (bytes * 100 + unit / 2) / unit
}

/// Exactly two digits, zero-padded.
pub open spec fn two_digits(f: nat) -> Seq<char>
    recommends
        f < 100,
{
    seq![digit_char((f / 10) as int), digit_char((f % 10) as int)]
}

/// A size against one unit: whole part, point, two fractional digits.
pub open spec fn scaled_text(bytes: nat, unit: nat) -> Seq<char>
    recommends
        unit >= 2,
{
    let v = scaled_hundredths(bytes, unit);
    decimal(v / 100) + seq!['.'] + two_digits(v % 100)
}

/// The text `format_bytes` renders: gigabytes, megabytes or kilobytes to
/// two decimal places against the largest unit not exceeding the count,
/// or the plain count of bytes.
pub open spec fn spec_format_bytes(bytes: nat) -> Seq<char> {
    if bytes >= 1024 * 1024 * 1024 {
        scaled_text(bytes, 1024 * 1024 * 1024) + " GB"@
    } else if bytes >= 1024 * 1024 {
        scaled_text(bytes, 1024 * 1024) + " MB"@
    } else if bytes >= 1024 {
        scaled_text(bytes, 1024) + " KB"@
    } else {
        decimal(bytes) + " bytes"@
    }
}

/// The decimal digits of `n`.
fn decimal_chars(n: u128) -> (r: Vec<char>)
    ensures
        r@ == decimal(n as nat),
{
    let mut r: Vec<char> = Vec::new();
    if n == 0 {
        r.push('0');
        proof {
            assert(decimal(0) =~= seq![digit_char(0)]);
            assert(r@ =~= seq![digit_char(0)]);
        }
        return r;
    }
    let mut m = n;
    while m > 0
        invariant
            decimal(n as nat) =~= if m > 0 {
                decimal(m as nat) + r@
            } else {
                r@
            },
        decreases m,
    {
        let ghost m0 = m as nat;
        let ghost r0 = r@;
        let d = (m % 10) as u8;
        let c = (d + 48) as char;
        proof {
            assert(c == digit_char((m0 % 10) as int));
        }
        r.insert(0, c);
        m = m / 10;
        proof {
            assert(r@ =~= seq![c] + r0);
            if m > 0 {
                assert(m0 >= 10);
                assert(decimal(m0) == decimal(m0 / 10).push(digit_char((m0 % 10) as int)));
                assert(decimal(m as nat) + r@ =~= (decimal(m as nat).push(c)) + r0);
            } else {
                assert(m0 < 10);
                assert(decimal(m0) =~= seq![digit_char(m0 as int)]);
                assert(m0 % 10 == m0);
            }
        }
    }
    r
}

/// The whole-and-hundredths rendering against one unit.
fn scaled_chars(bytes: usize, unit: usize) -> (r: Vec<char>)
    requires
        2 <= unit,
    ensures
        r@ == scaled_text(bytes as nat, unit as nat),
{
    let b = bytes as u128;
    let u = unit as u128;
    let v = (b * 100 + u / 2) / u;
    proof {
        assert(v as nat == scaled_hundredths(bytes as nat, unit as nat));
    }
    let mut r = decimal_chars(v / 100);
    let ghost whole = r@;
    r.push('.');
    let f = (v % 100) as u8;
    let d1 = (f / 10 + 48) as char;
    let d2 = (f % 10 + 48) as char;
    r.push(d1);
    r.push(d2);
    proof {
        let vn = scaled_hundredths(bytes as nat, unit as nat);
        assert(v / 100 == (vn / 100) as u128);
        assert(d1 == digit_char(((vn % 100) / 10) as int));
        assert(d2 == digit_char(((vn % 100) % 10) as int));
        assert(r@ =~= whole + seq!['.'] + two_digits(vn % 100));
    }
    r
}

/// A byte count as human-readable text, for logging upload sizes.
pub fn format_bytes(bytes: usize) -> (r: String)
    ensures
        r@ == spec_format_bytes(bytes as nat),
{
    if bytes >= GB {
        string_from_chars(&scaled_chars(bytes, GB)).concat(" GB")
    } else if bytes >= MB {
        string_from_chars(&scaled_chars(bytes, MB)).concat(" MB")
    } else if bytes >= KB {
        string_from_chars(&scaled_chars(bytes, KB)).concat(" KB")
    } else {
        string_from_chars(&decimal_chars(bytes as u128)).concat(" bytes")
    }
}

} // verus!
