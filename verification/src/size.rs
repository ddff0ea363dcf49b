//! The size parser: a human-readable size string such as `"800G"` becomes a
//! byte count.  The string is trimmed, split into a numeric portion (digits
//! and at most one decimal point) and a unit suffix, and the exact value
//! `number * multiplier` is computed and floored, saturating at `u64::MAX`.
//! A malformed numeric portion never fails: it counts as zero, so such a
//! device is later filtered out of the catalog rather than aborting
//! discovery.

use vstd::prelude::*;
use vstd::string::*;
use vstd::arithmetic::div_mod::lemma_div_denominator;
use vstd::arithmetic::div_mod::lemma_div_is_ordered;
use vstd::arithmetic::div_mod::lemma_div_multiples_vanish;
use vstd::arithmetic::div_mod::lemma_div_pos_is_pos;
use vstd::arithmetic::div_mod::lemma_hoist_over_denominator;
use crate::chars::digit_of_char;
use crate::chars::digit_value;
use crate::chars::is_digit;
use crate::chars::is_space;
use crate::strutil::str_trim;
use crate::strutil::trim_spec;

verus! {

/// Powers of ten.
pub open spec fn pow10(n: nat) -> int
    decreases n,
{
    if n == 0 {
        1
    } else {
        10 * pow10((n - 1) as nat)
    }
}

pub proof fn lemma_pow10_pos(n: nat)
    ensures
        pow10(n) >= 1,
    decreases n,
{
    if n > 0 {
        lemma_pow10_pos((n - 1) as nat);
    }
}

/// A character the numeric portion may hold.
pub open spec fn is_num_char(c: char) -> bool {
    is_digit(c) || c == '.'
}

/// Executable test matching `is_num_char`.
pub fn char_is_num(c: char) -> (r: bool)
    ensures
        r == is_num_char(c),
{
    ('0' <= c && c <= '9') || c == '.'
}

/// Value of a digit string, most significant digit first.
pub open spec fn digits_val(s: Seq<char>) -> int
    decreases s.len(),
{
    if s.len() == 0 {
        0
    } else {
        digits_val(s.drop_last()) * 10 + digit_value(s.last())
    }
}

/// Every character is a decimal digit.
pub open spec fn all_digits(s: Seq<char>) -> bool {
    forall|i: int| 0 <= i < s.len() ==> is_digit(s[i])
}

pub proof fn lemma_digits_val_bounds(s: Seq<char>)
    requires
        all_digits(s),
    ensures
        0 <= digits_val(s),
        s.len() > 0 ==> digits_val(s) < pow10(s.len() as nat),
    decreases s.len(),
{
    lemma_pow10_pos(s.len() as nat);
    if s.len() > 0 {
        assert(all_digits(s.drop_last()));
        lemma_digits_val_bounds(s.drop_last());
        lemma_pow10_pos((s.len() - 1) as nat);
        assert(digit_value(s.last()) <= 9);
        assert(digits_val(s.drop_last()) <= pow10((s.len() - 1) as nat) - 1);
        assert(digits_val(s) < pow10(s.len() as nat));
    }
}

/// A digit string's value decomposed at its first character.
pub proof fn lemma_digits_val_first(s: Seq<char>)
    requires
        s.len() > 0,
        all_digits(s),
    ensures
        digits_val(s) == digit_value(s[0]) * pow10((s.len() - 1) as nat) + digits_val(
            s.drop_first(),
        ),
    decreases s.len(),
{
    if s.len() == 1 {
        assert(s.drop_first() =~= Seq::<char>::empty());
        assert(s.drop_last() =~= Seq::<char>::empty());
        assert(digits_val(Seq::<char>::empty()) == 0);
        assert(digits_val(s) == digit_value(s[0]));
        assert(pow10((s.len() - 1) as nat) == 1);
        assert(digit_value(s[0]) * 1 == digit_value(s[0]));
    } else {
        let head = s.drop_last();
        assert(all_digits(head));
        lemma_digits_val_first(head);
        assert(head[0] == s[0]);
        assert(s.drop_first().drop_last() =~= head.drop_first());
        assert(s.drop_first().last() == s.last());
        let p = pow10((s.len() - 2) as nat);
        let d0 = digit_value(s[0]);
        let x = digits_val(head.drop_first());
        assert(digits_val(s) == (d0 * p + x) * 10 + digit_value(s.last()));
        assert((d0 * p + x) * 10 == d0 * (10 * p) + x * 10) by (nonlinear_arith);
        assert(digits_val(s.drop_first()) == x * 10 + digit_value(s.last()));
        assert(pow10((s.len() - 1) as nat) == 10 * p);
        assert(digits_val(s) == d0 * (10 * p) + (x * 10 + digit_value(s.last())));
        assert(d0 * pow10((s.len() - 1) as nat) == d0 * (10 * p));
    }
}

/// Number of `'.'` characters.
pub open spec fn dot_count(s: Seq<char>) -> int
    decreases s.len(),
{
    if s.len() == 0 {
        0
    } else {
        dot_count(s.drop_last()) + if s.last() == '.' {
            1int
        } else {
            0int
        }
    }
}

/// Number of decimal digit characters.
pub open spec fn digit_count(s: Seq<char>) -> int
    decreases s.len(),
{
    if s.len() == 0 {
        0
    } else {
        digit_count(s.drop_last()) + if is_digit(s.last()) {
            1int
        } else {
            0int
        }
    }
}

/// A numeric portion parses as a number when it has at most one decimal
/// point and at least one digit.
pub open spec fn num_well_formed(s: Seq<char>) -> bool {
    dot_count(s) <= 1 && digit_count(s) >= 1
}

pub proof fn lemma_dot_count_nonneg(s: Seq<char>)
    ensures
        dot_count(s) >= 0,
    decreases s.len(),
{
    if s.len() > 0 {
        lemma_dot_count_nonneg(s.drop_last());
    }
}

pub proof fn lemma_dot_count_one(s: Seq<char>, i: int)
    requires
        0 <= i < s.len(),
        s[i] == '.',
    ensures
        dot_count(s) >= 1,
    decreases s.len(),
{
    if i < s.len() - 1 {
        assert(s.drop_last()[i] == s[i]);
        lemma_dot_count_one(s.drop_last(), i);
    } else {
        lemma_dot_count_nonneg(s.drop_last());
    }
}

pub proof fn lemma_dot_count_two(s: Seq<char>, i: int, j: int)
    requires
        0 <= i < j < s.len(),
        s[i] == '.',
        s[j] == '.',
    ensures
        dot_count(s) >= 2,
    decreases s.len(),
{
    if j == s.len() - 1 {
        lemma_dot_count_one(s.drop_last(), i);
    } else {
        assert(s.drop_last()[i] == s[i]);
        assert(s.drop_last()[j] == s[j]);
        lemma_dot_count_two(s.drop_last(), i, j);
    }
}

/// Length of the leading run of numeric characters.
pub open spec fn num_prefix_len(s: Seq<char>) -> int
    decreases s.len(),
{
    if s.len() > 0 && is_num_char(s[0]) {
        1 + num_prefix_len(s.drop_first())
    } else {
        0
    }
}

pub proof fn lemma_num_prefix_len_bounds(s: Seq<char>)
    ensures
        0 <= num_prefix_len(s) <= s.len(),
    decreases s.len(),
{
    if s.len() > 0 && is_num_char(s[0]) {
        lemma_num_prefix_len_bounds(s.drop_first());
    }
}

/// The unit multiplier: `K`/`KB`, `M`/`MB`, `G`/`GB`, `T`/`TB` in any case
/// give the binary multipliers; anything else counts as plain bytes.
pub open spec fn unit_multiplier(u: Seq<char>) -> int {
    if u.len() == 1 {
        unit_char_multiplier(u[0])
    } else if u.len() == 2 && (u[1] == 'B' || u[1] == 'b') {
        unit_char_multiplier(u[0])
    } else {
        1
    }
}

/// Multiplier named by a single unit letter.
pub open spec fn unit_char_multiplier(c: char) -> int {
    if c == 'K' || c == 'k' {
        0x400
    } else if c == 'M' || c == 'm' {
        0x10_0000
    } else if c == 'G' || c == 'g' {
        0x4000_0000
    } else if c == 'T' || c == 't' {
        0x100_0000_0000
    } else {
        1
    }
}

/// Fold computing `floor(value(ds) * m / 10^|ds|)` for a fraction written as
/// the digit string `ds`, one digit at a time from the left.
pub open spec fn frac_scaled(ds: Seq<char>, m: int) -> int
    decreases ds.len(),
{
    if ds.len() == 0 {
        0
    } else {
        (m * digit_value(ds[0]) + frac_scaled(ds.drop_first(), m)) / 10
    }
}

pub proof fn lemma_div10_bound(x: int, m: int)
    requires
        0 <= x <= 10 * m,
    ensures
        0 <= x / 10 <= m,
{
    lemma_div_pos_is_pos(x, 10);
    lemma_div_is_ordered(x, 10 * m, 10);
    lemma_div_multiples_vanish(m, 10);
}

/// The fold equals the exact scaled-and-floored fraction value.
pub proof fn lemma_frac_scaled(ds: Seq<char>, m: int)
    requires
        all_digits(ds),
        m >= 0,
    ensures
        frac_scaled(ds, m) == (digits_val(ds) * m) / pow10(ds.len() as nat),
        0 <= frac_scaled(ds, m) <= m,
    decreases ds.len(),
{
    lemma_pow10_pos(ds.len() as nat);
    if ds.len() == 0 {
        assert((0int * m) / 1int == 0);
    } else {
        let rest = ds.drop_first();
        assert(all_digits(rest));
        lemma_frac_scaled(rest, m);
        let p = pow10(rest.len() as nat);
        lemma_pow10_pos(rest.len() as nat);
        let v = digits_val(rest);
        let d0 = digit_value(ds[0]);
        lemma_digits_val_bounds(rest);
        lemma_digits_val_first(ds);
        assert(digits_val(ds) == d0 * p + v);
        // hoist the integer part of the sum over the inner denominator
        assert((v * m) / p + (m * d0) == (v * m + (m * d0) * p) / p) by {
            lemma_hoist_over_denominator(v * m, m * d0, p as nat);
        }
        assert(v * m >= 0) by (nonlinear_arith)
            requires
                v >= 0,
                m >= 0,
        ;
        assert((m * d0) * p >= 0) by (nonlinear_arith)
            requires
                m >= 0,
                d0 >= 0,
                p >= 1,
        ;
        assert(((v * m + (m * d0) * p) / p) / 10 == (v * m + (m * d0) * p) / (p * 10)) by {
            lemma_div_denominator(v * m + (m * d0) * p, p, 10);
        }
        assert(digits_val(ds) * m == v * m + (m * d0) * p) by (nonlinear_arith)
            requires
                digits_val(ds) == d0 * p + v,
        ;
        assert(pow10(ds.len() as nat) == 10 * p);
        assert(p * 10 == 10 * p);
        assert(frac_scaled(ds, m) == (m * d0 + frac_scaled(rest, m)) / 10);
        assert(m * d0 <= m * 9) by (nonlinear_arith)
            requires
                d0 <= 9,
                m >= 0,
        ;
        assert(m * d0 >= 0) by (nonlinear_arith)
            requires
                d0 >= 0,
                m >= 0,
        ;
        lemma_div10_bound(m * d0 + frac_scaled(rest, m), m);
    }
}

/// Saturation at the largest byte count.
pub open spec fn clamp_u64(x: int) -> int {
    if x > u64::MAX {
        u64::MAX as int
    } else {
        x
    }
}

/// The exact scaled value of a well-formed numeric portion `num` under the
/// multiplier `m`: the decimal number it writes, times `m`, floored.
pub open spec fn num_scaled(num: Seq<char>, m: int) -> int {
    let d = first_dot(num);
    let ip = num.subrange(0, d);
    let fp = if d < num.len() {
        num.subrange(d + 1, num.len() as int)
    } else {
        Seq::empty()
    };
    ((digits_val(ip) * pow10(fp.len() as nat) + digits_val(fp)) * m) / pow10(fp.len() as nat)
}

/// Index of the first `'.'`, or the length when there is none.
pub open spec fn first_dot(s: Seq<char>) -> int
    decreases s.len(),
{
    if s.len() == 0 {
        0
    } else if s[0] == '.' {
        0
    } else {
        1 + first_dot(s.drop_first())
    }
}

pub proof fn lemma_first_dot(s: Seq<char>)
    ensures
        0 <= first_dot(s) <= s.len(),
        first_dot(s) < s.len() ==> s[first_dot(s)] == '.',
        forall|q: int| 0 <= q < first_dot(s) ==> s[q] != '.',
    decreases s.len(),
{
    if s.len() > 0 && s[0] != '.' {
        lemma_first_dot(s.drop_first());
        assert forall|q: int| 0 <= q < first_dot(s) implies s[q] != '.' by {
            if q > 0 {
                assert(s.drop_first()[q - 1] == s[q]);
            }
        }
    }
}

/// The byte count denoted by a size string.
pub open spec fn parse_size_spec(s: Seq<char>) -> int {
    let t = trim_spec(s);
    let k = num_prefix_len(t);
    let num = t.subrange(0, k);
    let unit = t.subrange(k, t.len() as int);
    if !num_well_formed(num) {
        0
    } else {
        clamp_u64(num_scaled(num, unit_multiplier(unit)))
    }
}

/// Splitting the scaled value at the decimal point.
proof fn lemma_num_scaled_split(ip: Seq<char>, fp: Seq<char>, m: int)
    requires
        all_digits(ip),
        all_digits(fp),
        m >= 1,
    ensures
        ((digits_val(ip) * pow10(fp.len() as nat) + digits_val(fp)) * m) / pow10(
            fp.len() as nat,
        ) == digits_val(ip) * m + frac_scaled(fp, m),
{
    let p = pow10(fp.len() as nat);
    lemma_pow10_pos(fp.len() as nat);
    let i = digits_val(ip);
    let f = digits_val(fp);
    lemma_digits_val_bounds(ip);
    lemma_digits_val_bounds(fp);
    assert((i * p + f) * m == f * m + (i * m) * p) by (nonlinear_arith);
    assert(f * m >= 0) by (nonlinear_arith)
        requires
            f >= 0,
            m >= 0,
    ;
    assert((f * m) / p + (i * m) == (f * m + (i * m) * p) / p) by {
        lemma_hoist_over_denominator(f * m, i * m, p as nat);
    }
    lemma_frac_scaled(fp, m);
}

/// Convert a size string such as `"800G"` into a byte count.
pub fn parse_size(size_str: &str) -> (bytes: u64)
    ensures
        bytes as int == parse_size_spec(size_str@),
{
    let trimmed = str_trim(size_str);
    let ts = trimmed.as_str();
    let n = ts.unicode_len();
    let ghost t = ts@;

    // Split off the numeric prefix.
    proof {
        assert(t.subrange(0, n as int) =~= t);
        lemma_num_prefix_len_bounds(t);
    }
    let mut k: usize = 0;
    while k < n && char_is_num(ts.get_char(k))
        invariant
            n == t.len(),
            ts@ == t,
            k <= n,
            num_prefix_len(t) == k + num_prefix_len(t.subrange(k as int, n as int)),
            forall|q: int| 0 <= q < k ==> is_num_char(t[q]),
        decreases n - k,
    {
        proof {
            let suf = t.subrange(k as int, n as int);
            assert(suf[0] == t[k as int]);
            assert(suf.drop_first() =~= t.subrange(k + 1, n as int));
            lemma_num_prefix_len_bounds(t.subrange(k + 1, n as int));
        }
        k = k + 1;
    }
    proof {
        let suf = t.subrange(k as int, n as int);
        assert(num_prefix_len(suf) == 0);
        assert(num_prefix_len(t) == k as int);
    }
    let ghost num = t.subrange(0, k as int);
    let ghost unit = t.subrange(k as int, n as int);

    // Scan the numeric portion: count dots and digits, note the first dot.
    let mut dots: usize = 0;
    let mut digits: usize = 0;
    let mut dp: usize = k;
    let mut found_dot = false;
    let mut j: usize = 0;
    proof {
        assert(t.subrange(0, 0) =~= Seq::<char>::empty());
    }
    while j < k
        invariant
            k <= n,
            n == t.len(),
            ts@ == t,
            j <= k,
            dots <= j,
            digits <= j,
            forall|q: int| 0 <= q < k ==> is_num_char(t[q]),
            dots == dot_count(t.subrange(0, j as int)),
            digits == digit_count(t.subrange(0, j as int)),
            found_dot ==> dp < j && t[dp as int] == '.' && (forall|q: int|
                0 <= q < dp ==> t[q] != '.'),
            !found_dot ==> dp == k && (forall|q: int| 0 <= q < j ==> t[q] != '.'),
        decreases k - j,
    {
        let c = ts.get_char(j);
        proof {
            assert(t.subrange(0, j + 1).drop_last() =~= t.subrange(0, j as int));
            assert(t.subrange(0, j + 1).last() == t[j as int]);
        }
        if c == '.' {
            dots = dots + 1;
            if !found_dot {
                found_dot = true;
                dp = j;
            }
        } else {
            digits = digits + 1;
        }
        j = j + 1;
    }
    proof {
        assert(t.subrange(0, k as int) == num);
    }

    // A malformed numeric portion counts as zero.
    if dots > 1 || digits == 0 {
        proof {
            assert(!num_well_formed(num));
        }
        return 0;
    }

    // The unit multiplier.
    let m: u64 = if k == n {
        1
    } else if n - k == 1 {
        unit_letter_multiplier(ts.get_char(k))
    } else if n - k == 2 {
        let c1 = ts.get_char(k + 1);
        if c1 == 'B' || c1 == 'b' {
            unit_letter_multiplier(ts.get_char(k))
        } else {
            1
        }
    } else {
        1
    };
    proof {
        assert(unit.len() == n - k);
        if k < n {
            assert(unit[0] == t[k as int]);
        }
        if n - k >= 2 {
            assert(unit[1] == t[k + 1]);
        }
        assert(m as int == unit_multiplier(unit));
    }

    // The first dot splits the numeric portion.
    proof {
        lemma_first_dot(num);
        if found_dot {
            assert(num[dp as int] == t[dp as int]);
            assert(forall|q: int| 0 <= q < dp ==> num[q] == t[q]);
            if first_dot(num) < dp {
                assert(t[first_dot(num)] == '.');
            }
            if first_dot(num) > dp {
                assert(num[dp as int] != '.');
            }
            assert(first_dot(num) == dp as int);
        } else {
            assert(forall|q: int| 0 <= q < num.len() ==> num[q] != '.');
            if first_dot(num) < num.len() {
                assert(num[first_dot(num)] == '.');
            }
            assert(first_dot(num) == num.len());
            assert(dp as int == first_dot(num));
        }
    }
    let ghost ip = num.subrange(0, dp as int);
    let ghost fp = if (dp as int) < num.len() {
        num.subrange(dp + 1, num.len() as int)
    } else {
        Seq::<char>::empty()
    };
    proof {
        assert(ip =~= t.subrange(0, dp as int));
        assert forall|q: int| 0 <= q < ip.len() implies is_digit(ip[q]) by {
            assert(ip[q] == t[q]);
            assert(t[q] != '.');
        }
        if (dp as int) < num.len() {
            assert forall|q: int| 0 <= q < fp.len() implies is_digit(fp[q]) by {
                assert(fp[q] == t[dp + 1 + q]);
                assert(is_num_char(t[dp + 1 + q]));
                if t[dp + 1 + q] == '.' {
                    lemma_dot_count_two(num, dp as int, dp + 1 + q);
                }
            }
        }
    }

    // Integer part, with saturation.
    let mut big = false;
    let mut ival: u128 = 0;
    let mut q: usize = 0;
    proof {
        assert(t.subrange(0, 0) =~= Seq::<char>::empty());
    }
    while q < dp
        invariant
            dp <= k <= n,
            n == t.len(),
            ts@ == t,
            q <= dp,
            ip == t.subrange(0, dp as int),
            all_digits(ip),
            forall|r: int| 0 <= r < dp ==> is_digit(t[r]),
            !big ==> ival as int == digits_val(t.subrange(0, q as int)) && ival <= u64::MAX,
            big ==> digits_val(t.subrange(0, q as int)) > u64::MAX,
        decreases dp - q,
    {
        let c = ts.get_char(q);
        let d = digit_of_char(c);
        proof {
            assert(t.subrange(0, q + 1).drop_last() =~= t.subrange(0, q as int));
            assert(t.subrange(0, q + 1).last() == t[q as int]);
        }
        if !big {
            let next = ival * 10 + (d as u128);
            if next > (u64::MAX as u128) {
                big = true;
            }
            ival = next;
        } else {
            proof {
                let prev = digits_val(t.subrange(0, q as int));
                assert(digits_val(t.subrange(0, q + 1)) == prev * 10 + digit_value(
                    t[q as int],
                ));
                assert(prev * 10 >= prev) by (nonlinear_arith)
                    requires
                        prev >= 0,
                ;
            }
        }
        q = q + 1;
    }
    proof {
        assert(t.subrange(0, dp as int) == ip);
    }

    // Fraction part, one digit at a time from the right.
    let fstart: usize = if dp < k {
        dp + 1
    } else {
        k
    };
    let ghost mi = m as int;
    let mut w: u64 = 0;
    let mut r: usize = k;
    proof {
        assert(t.subrange(k as int, k as int) =~= Seq::<char>::empty());
        if (dp as int) < num.len() {
            assert(fp =~= t.subrange(fstart as int, k as int));
        } else {
            assert(fp =~= t.subrange(fstart as int, k as int));
        }
        assert forall|x: int| fstart <= x < k implies is_digit(t[x]) by {
            assert(fp[x - fstart as int] == t[x]);
        }
    }
    while r > fstart
        invariant
            fstart <= r <= k,
            k <= n,
            n == t.len(),
            ts@ == t,
            1 <= m <= 0x100_0000_0000,
            fp == t.subrange(fstart as int, k as int),
            all_digits(fp),
            forall|x: int| fstart <= x < k ==> is_digit(t[x]),
            w as int == frac_scaled(t.subrange(r as int, k as int), mi),
            w <= m,
            mi == m as int,
        decreases r,
    {
        r = r - 1;
        let c = ts.get_char(r);
        let d = digit_of_char(c);
        let ghost seg = t.subrange(r as int, k as int);
        proof {
            assert(seg[0] == t[r as int]);
            assert(seg.drop_first() =~= t.subrange(r + 1, k as int));
            assert(m * d + w <= 10 * m) by (nonlinear_arith)
                requires
                    d < 10,
                    w <= m,
                    m >= 1,
            ;
            lemma_div10_bound(mi * digit_value(t[r as int]) + frac_scaled(
                t.subrange(r + 1, k as int),
                mi,
            ), mi);
        }
        w = (m * d + w) / 10;
    }
    proof {
        assert(t.subrange(fstart as int, k as int) == fp);
        lemma_frac_scaled(fp, mi);
        lemma_num_scaled_split(ip, fp, mi);
        lemma_digits_val_bounds(ip);
    }

    // Combine and saturate.
    if big {
        proof {
            let i = digits_val(ip);
            assert(i * mi >= i) by (nonlinear_arith)
                requires
                    i >= 0,
                    mi >= 1,
            ;
            assert(num_scaled(num, mi) > u64::MAX);
        }
        return u64::MAX;
    }
    proof {
        assert((ival as int) * (m as int) <= 0xffff_ffff_ffff_ffff * 0x100_0000_0000)
            by (nonlinear_arith)
            requires
                0 <= ival as int <= 0xffff_ffff_ffff_ffff,
                0 <= m as int <= 0x100_0000_0000,
        ;
        assert((ival as int) * (m as int) >= 0) by (nonlinear_arith)
            requires
                0 <= ival as int,
                0 <= m as int,
        ;
    }
    let total: u128 = ival * (m as u128) + (w as u128);
    proof {
        assert(total as int == num_scaled(num, mi));
    }
    if total > (u64::MAX as u128) {
        u64::MAX
    } else {
        total as u64
    }
}

pub proof fn lemma_trim_nospace(s: Seq<char>)
    requires
        s.len() > 0,
        !is_space(s[0]),
        !is_space(s.last()),
    ensures
        trim_spec(s) == s,
{
}

pub proof fn lemma_num_prefix_concat(ds: Seq<char>, u: Seq<char>)
    requires
        all_digits(ds),
        u.len() == 0 || !is_num_char(u[0]),
    ensures
        num_prefix_len(ds + u) == ds.len(),
    decreases ds.len(),
{
    if ds.len() == 0 {
        assert(ds + u =~= u);
    } else {
        assert((ds + u)[0] == ds[0]);
        assert((ds + u).drop_first() =~= ds.drop_first() + u);
        assert(all_digits(ds.drop_first()));
        lemma_num_prefix_concat(ds.drop_first(), u);
    }
}

pub proof fn lemma_all_digits_counts(ds: Seq<char>)
    requires
        all_digits(ds),
    ensures
        dot_count(ds) == 0,
        digit_count(ds) == ds.len(),
        first_dot(ds) == ds.len(),
    decreases ds.len(),
{
    if ds.len() > 0 {
        assert(all_digits(ds.drop_last()));
        assert(all_digits(ds.drop_first()));
        lemma_all_digits_counts(ds.drop_last());
        let rest = ds.drop_first();
        assert(dot_count(rest) == 0 && digit_count(rest) == rest.len() && first_dot(rest)
            == rest.len()) by {
            lemma_all_digits_counts(rest);
        }
    }
}

/// A size written as decimal digits followed by a unit suffix of
/// non-numeric, non-whitespace characters parses to exactly the written
/// number times the unit's multiplier, saturated at `u64::MAX`.  For the
/// recognized suffixes `K`/`KB`, `M`/`MB`, `G`/`GB`, `T`/`TB` in any case the
/// multiplier is the matching power of 1024; for any other suffix, including
/// none, it is one.
pub proof fn lemma_parse_size_units(ds: Seq<char>, u: Seq<char>)
    requires
        ds.len() >= 1,
        all_digits(ds),
        forall|i: int| 0 <= i < u.len() ==> !is_num_char(#[trigger] u[i]) && !is_space(u[i]),
    ensures
        parse_size_spec(ds + u) == clamp_u64(digits_val(ds) * unit_multiplier(u)),
{
    let s = ds + u;
    assert(s[0] == ds[0]);
    if u.len() > 0 {
        assert(s.last() == u[u.len() - 1]);
    } else {
        assert(s.last() == ds[ds.len() - 1]);
    }
    lemma_trim_nospace(s);
    lemma_num_prefix_concat(ds, u);
    let num = s.subrange(0, ds.len() as int);
    let unit = s.subrange(ds.len() as int, s.len() as int);
    assert(num =~= ds);
    assert(unit =~= u);
    lemma_all_digits_counts(ds);
    let m = unit_multiplier(u);
    assert(m >= 1);
    let ip = ds.subrange(0, first_dot(ds));
    assert(ip =~= ds);
    let fp = Seq::<char>::empty();
    lemma_num_scaled_split(ds, fp, m);
    assert(num_scaled(ds, m) == digits_val(ds) * m + frac_scaled(fp, m));
    assert(num_scaled(ds, m) == digits_val(ds) * m);
}

/// Multiplier for a one-letter unit, executable.
fn unit_letter_multiplier(c: char) -> (m: u64)
    ensures
        m as int == unit_char_multiplier(c),
        1 <= m <= 0x100_0000_0000,
{
    if c == 'K' || c == 'k' {
        0x400
    } else if c == 'M' || c == 'm' {
        0x10_0000
    } else if c == 'G' || c == 'g' {
        0x4000_0000
    } else if c == 'T' || c == 't' {
        0x100_0000_0000
    } else {
        1
    }
}

} // verus!
