//! File sizes for people: bytes, or a binary multiple with one decimal.

use vstd::prelude::*;
use crate::text::{append_decimal, append_str, decimal, digit_char, string_of};

verus! {

/// The bytes of a KB as it is counted here: 2^10.
pub const KIB: u64 = 1024;

/// The bytes of a MB: 2^20.
pub const MIB: u64 = 1048576;

/// The bytes of a GB: 2^30.
pub const GIB: u64 = 1073741824;

/// The integer nearest to `n / d`; of two that are equally near, the even
/// one.
pub open spec fn nearest_even(n: nat, d: nat) -> nat
    recommends
        d > 0,
{
    let q = n / d;
    let r = n % d;
    if 2 * r > d || (2 * r == d && q % 2 == 1) {
        q + 1
    } else {
        q
    }
}

/// The spacing of the double-precision numbers around `bytes`: 1 below 2^53,
/// and twice as much for each further bit.
pub open spec fn float_unit(bytes: nat) -> nat
    decreases bytes,
{
    if bytes < 0x20_0000_0000_0000 {
        1
    } else {
        2 * float_unit(bytes / 2)
    }
}

/// The double-precision number nearest to `bytes`.
pub open spec fn as_float(bytes: nat) -> nat {
    nearest_even(bytes, float_unit(bytes)) * float_unit(bytes)
}

/// `bytes / unit` in tenths: the size is taken as a double-precision number
/// and rounded to one decimal.
pub open spec fn tenths(bytes: nat, unit: nat) -> nat
    recommends
        unit > 0,
{
    nearest_even(as_float(bytes) * 10, unit)
}

/// The numeral of `bytes / unit` with one decimal.
pub open spec fn one_decimal(bytes: nat, unit: nat) -> Seq<char>
    recommends
        unit > 0,
{
    decimal(tenths(bytes, unit) / 10) + seq!['.', digit_char(tenths(bytes, unit) % 10)]
}

/// A size as it is shown: in bytes below 1 KiB, else in the largest of KB, MB
/// and GB that it reaches, with one decimal.
pub open spec fn size_text(bytes: nat) -> Seq<char> {
    if bytes < 1024 {
        decimal(bytes) + " B"@
    } else if bytes < 1048576 {
        one_decimal(bytes, 1024) + " KB"@
    } else if bytes < 1073741824 {
        one_decimal(bytes, 1048576) + " MB"@
    } else {
        one_decimal(bytes, 1073741824) + " GB"@
    }
}

/// Computes `nearest_even(n, d)`.
fn round_nearest(n: u128, d: u128) -> (q: u128)
    requires
        0 < d <= 0x1_0000_0000,
        n < 0x1_0000_0000_0000_0000_0000,
    ensures
        q == nearest_even(n as nat, d as nat),
        q <= n / d + 1,
        q * d <= n + d,
{
    let q = n / d;
    let r = n % d;
    proof {
        vstd::arithmetic::div_mod::lemma_remainder_lower(n as int, d as int);
        assert((q + 1) * d == q * d + d) by (nonlinear_arith);
    }
    if 2 * r > d || (2 * r == d && q % 2 == 1) {
        q + 1
    } else {
        q
    }
}

/// Computes `float_unit(bytes)`.
fn float_unit_of(bytes: u64) -> (unit: u64)
    ensures
        unit == float_unit(bytes as nat),
        unit == 1 || unit * 0x10_0000_0000_0000 <= bytes,
        unit >= 1,
    decreases bytes,
{
    if bytes < 0x20_0000_0000_0000 {
        1
    } else {
        let inner = float_unit_of(bytes / 2);
        2 * inner
    }
}

/// Appends the numeral of `bytes / unit` with one decimal.
fn append_one_decimal(out: &mut Vec<char>, bytes: u64, unit: u64)
    requires
        1024 <= unit <= 0x1_0000_0000,
    ensures
        final(out)@ == old(out)@ + one_decimal(bytes as nat, unit as nat),
{
    let spacing = float_unit_of(bytes);
    let steps = round_nearest(bytes as u128, spacing as u128);
    assert(steps * spacing <= bytes + spacing);
    let float: u128 = steps * (spacing as u128);
    let t: u128 = round_nearest(float * 10, unit as u128);
    assert(t == tenths(bytes as nat, unit as nat));
    proof {
        vstd::arithmetic::div_mod::lemma_div_is_ordered_by_denominator(
            float * 10,
            1024,
            unit as int,
        );
    }
    assert(t / 10 <= u64::MAX);
    append_decimal(out, (t / 10) as u64);
    out.push('.');
    let d: u8 = (t % 10) as u8;
    out.push((48u8 + d) as char);
    assert(out@ =~= old(out)@ + one_decimal(bytes as nat, unit as nat));
}

/// Writes a size for people to read.
pub fn format_size(bytes: u64) -> (text: String)
    ensures
        text@ == size_text(bytes as nat),
{
    let mut out: Vec<char> = Vec::new();
    if bytes < KIB {
        append_decimal(&mut out, bytes);
        append_str(&mut out, " B");
    } else if bytes < MIB {
        append_one_decimal(&mut out, bytes, KIB);
        append_str(&mut out, " KB");
    } else if bytes < GIB {
        append_one_decimal(&mut out, bytes, MIB);
        append_str(&mut out, " MB");
    } else {
        append_one_decimal(&mut out, bytes, GIB);
        append_str(&mut out, " GB");
    }
    assert(out@ =~= size_text(bytes as nat));
    string_of(&out)
}

} // verus!
