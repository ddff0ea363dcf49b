//! Human-readable rendering of byte counts: a size is scaled by the largest
//! binary unit below it and printed with a fixed number of decimals, the
//! last decimal rounded to nearest with ties to even.

use vstd::prelude::*;
use vstd::string::*;
use vstd::arithmetic::div_mod::lemma_div_is_ordered;
use vstd::arithmetic::div_mod::lemma_div_is_ordered_by_denominator;
use crate::chars::dec_digits;
use crate::chars::digit_char;
use crate::chars::digit_str;
use crate::chars::u64_to_string;

verus! {

/// `num / den` rounded to the nearest integer, ties to even.
pub open spec fn round_half_even(num: int, den: int) -> int {
    let q = num / den;
    let r = num % den;
    if 2 * r > den || (2 * r == den && q % 2 == 1) {
        q + 1
    } else {
        q
    }
}

/// Executable rounding division.
pub fn div_round_half_even(num: u128, den: u64) -> (q: u64)
    requires
        1 <= den,
        round_half_even(num as int, den as int) <= u64::MAX,
    ensures
        q as int == round_half_even(num as int, den as int),
{
    let d = den as u128;
    let q0 = num / d;
    let r = num % d;
    if 2 * r > d || (2 * r == d && q0 % 2 == 1) {
        (q0 + 1) as u64
    } else {
        q0 as u64
    }
}

/// The number scaled by `unit`, printed with one decimal, then the label.
pub open spec fn scaled_tenths(bytes: int, unit: int, label: Seq<char>) -> Seq<char> {
    let t = round_half_even(bytes * 10, unit);
    dec_digits(t / 10) + seq!['.'] + seq![digit_char(t % 10)] + label
}

/// The number scaled by `unit`, printed with two decimals, then the label.
pub open spec fn scaled_hundredths(bytes: int, unit: int, label: Seq<char>) -> Seq<char> {
    let h = round_half_even(bytes * 100, unit);
    dec_digits(h / 100) + seq!['.'] + seq![digit_char((h / 10) % 10), digit_char(h % 10)]
        + label
}

/// A byte count in human-readable form with one decimal: the unit ladder
/// `B`, `KB`, `MB`, `GB`, `TB`, `PB`, stepping up at each full multiple of
/// 1024, capped at `PB`.
pub open spec fn human_size_spec(bytes: int) -> Seq<char> {
    if bytes < 0x400 {
        dec_digits(bytes) + " B"@
    } else if bytes < 0x10_0000 {
        scaled_tenths(bytes, 0x400, " KB"@)
    } else if bytes < 0x4000_0000 {
        scaled_tenths(bytes, 0x10_0000, " MB"@)
    } else if bytes < 0x100_0000_0000 {
        scaled_tenths(bytes, 0x4000_0000, " GB"@)
    } else if bytes < 0x4_0000_0000_0000 {
        scaled_tenths(bytes, 0x100_0000_0000, " TB"@)
    } else {
        scaled_tenths(bytes, 0x4_0000_0000_0000, " PB"@)
    }
}

/// A byte count in human-readable form with two decimals: `B` below a
/// kibibyte, then `KB`, `MB`, `GB`, capped at `TB`.
pub open spec fn device_size_spec(bytes: int) -> Seq<char> {
    if bytes >= 0x100_0000_0000 {
        scaled_hundredths(bytes, 0x100_0000_0000, " TB"@)
    } else if bytes >= 0x4000_0000 {
        scaled_hundredths(bytes, 0x4000_0000, " GB"@)
    } else if bytes >= 0x10_0000 {
        scaled_hundredths(bytes, 0x10_0000, " MB"@)
    } else if bytes >= 0x400 {
        scaled_hundredths(bytes, 0x400, " KB"@)
    } else {
        dec_digits(bytes) + " B"@
    }
}

proof fn lemma_round_fits(num: int, den: int)
    requires
        0 <= num <= (u64::MAX as int) * 100,
        0x400 <= den,
    ensures
        round_half_even(num, den) <= u64::MAX,
{
    lemma_div_is_ordered_by_denominator(num, 0x400, den);
    lemma_div_is_ordered(num, (u64::MAX as int) * 100, 0x400);
    assert(num % den >= 0);
    assert(2 * (num % den) > den ==> round_half_even(num, den) == num / den + 1);
}

/// Render `bytes / unit` with one decimal and the unit label.
fn tenths_string(bytes: u64, unit: u64, label: &str) -> (r: String)
    requires
        0x400 <= unit,
    ensures
        r@ == scaled_tenths(bytes as int, unit as int, label@),
{
    proof {
        lemma_round_fits(bytes as int * 10, unit as int);
    }
    let t = div_round_half_even((bytes as u128) * 10, unit);
    let mut r = u64_to_string(t / 10);
    proof {
        reveal_strlit(".");
    }
    r.append(".");
    r.append(digit_str(t % 10));
    r.append(label);
    proof {
        assert(r@ =~= scaled_tenths(bytes as int, unit as int, label@));
    }
    r
}

/// Render `bytes / unit` with two decimals and the unit label.
pub fn hundredths_string(bytes: u64, unit: u64, label: &str) -> (r: String)
    requires
        0x400 <= unit,
    ensures
        r@ == scaled_hundredths(bytes as int, unit as int, label@),
{
    proof {
        lemma_round_fits(bytes as int * 100, unit as int);
    }
    let h = div_round_half_even((bytes as u128) * 100, unit);
    let mut r = u64_to_string(h / 100);
    proof {
        reveal_strlit(".");
    }
    r.append(".");
    r.append(digit_str((h / 10) % 10));
    r.append(digit_str(h % 10));
    r.append(label);
    proof {
        assert(r@ =~= scaled_hundredths(bytes as int, unit as int, label@));
    }
    r
}

/// Format a byte count with the one-decimal unit ladder up to `PB`.
pub fn format_size(bytes: u64) -> (r: String)
    ensures
        r@ == human_size_spec(bytes as int),
{
    if bytes < 0x400 {
        let mut r = u64_to_string(bytes);
        r.append(" B");
        proof {
            assert(r@ =~= human_size_spec(bytes as int));
        }
        r
    } else if bytes < 0x10_0000 {
        tenths_string(bytes, 0x400, " KB")
    } else if bytes < 0x4000_0000 {
        tenths_string(bytes, 0x10_0000, " MB")
    } else if bytes < 0x100_0000_0000 {
        tenths_string(bytes, 0x4000_0000, " GB")
    } else if bytes < 0x4_0000_0000_0000 {
        tenths_string(bytes, 0x100_0000_0000, " TB")
    } else {
        tenths_string(bytes, 0x4_0000_0000_0000, " PB")
    }
}

} // verus!
