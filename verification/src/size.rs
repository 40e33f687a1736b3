//! File sizes as text.
use vstd::prelude::*;

use crate::text::{decimal, push_decimal};

verus! {

/// Bytes in a kilobyte, a megabyte and a gigabyte.
pub const KB: u64 = 1024;

pub const MB: u64 = 1048576;

pub const GB: u64 = 1073741824;

/// How many integers a double-precision number holds without gaps: 2 to the power of 53.
pub const EXACT_LIMIT: u64 = 9007199254740992;

/// `n` divided by `d`, rounded to the nearest integer, and to the even one where two are nearest.
pub open spec fn rounded_quotient(n: nat, d: nat) -> nat {
    let q = n / d;
    let r = n % d;
    if 2 * r > d || (2 * r == d && q % 2 == 1) {
        q + 1
    } else {
        q
    }
}

/// The gap between double-precision numbers around `n`, found by doubling `gap`.
pub open spec fn gap_at(n: nat, gap: nat) -> nat
    decreases n / gap,
    via gap_at_decreases
{
    if gap == 0 || n / gap < EXACT_LIMIT {
        gap
    } else {
        gap_at(n, 2 * gap)
    }
}

/// The double-precision number nearest to `n`.
pub open spec fn nearest_double(n: nat) -> nat {
    rounded_quotient(n, gap_at(n, 1)) * gap_at(n, 1)
}

/// How many units a number is, with one decimal.
pub open spec fn with_tenth(n: nat, unit: nat) -> Seq<char> {
    let tenths = rounded_quotient(10 * n, unit);
    decimal(tenths / 10) + seq!['.'] + decimal(tenths % 10)
}

/// A size in bytes as text: gigabytes and megabytes with one decimal, kilobytes rounded down.
pub open spec fn size_text(n: nat) -> Seq<char> {
    if n >= GB {
        with_tenth(nearest_double(n), GB as nat) + seq!['G']
    } else if n >= MB {
        with_tenth(n, MB as nat) + seq!['M']
    } else if n >= KB {
        decimal(n / (KB as nat)) + seq!['K']
    } else {
        decimal(n) + seq!['B']
    }
}

proof fn lemma_halves(n: nat, gap: nat)
    requires
        gap > 0,
    ensures
        n / (2 * gap) == (n / gap) / 2,
{
    vstd::arithmetic::div_mod::lemma_div_denominator(n as int, gap as int, 2);
    assert(gap * 2 == 2 * gap);
}

#[via_fn]
proof fn gap_at_decreases(n: nat, gap: nat) {
    if gap > 0 {
        lemma_halves(n, gap);
    }
}

/// `n` divided by `d`, rounded to the nearest integer, and to the even one where two are nearest.
fn round_quotient(n: u128, d: u128) -> (r: u128)
    requires
        0 < d < 0x1_0000_0000_0000_0000,
        n <= 0x10_0000_0000_0000_0000,
    ensures
        r == rounded_quotient(n as nat, d as nat),
        r <= n + 1,
{
    let q: u128 = n / d;
    let r: u128 = n % d;
    proof {
        vstd::arithmetic::div_mod::lemma_div_is_ordered_by_denominator(n as int, 1, d as int);
        vstd::arithmetic::div_mod::lemma_div_basics(n as int);
        vstd::arithmetic::div_mod::lemma_mod_bound(n as int, d as int);
    }
    if 2 * r > d || (2 * r == d && q % 2 == 1) {
        q + 1
    } else {
        q
    }
}

/// The double-precision number nearest to `n`.
fn round_to_double(n: u64) -> (r: u128)
    ensures
        r == nearest_double(n as nat),
        r <= 0x1_0000_0000_0000_0000,
{
    let mut gap: u64 = 1;
    assert(n as nat / 1 == n);
    while n / gap >= EXACT_LIMIT
        invariant
            1 <= gap <= 2048,
            gap_at(n as nat, 1) == gap_at(n as nat, gap as nat),
            gap == 1 || gap == 2 || gap == 4 || gap == 8 || gap == 16 || gap == 32 || gap == 64
                || gap == 128 || gap == 256 || gap == 512 || gap == 1024 || gap == 2048,
        decreases 4096 - gap,
    {
        proof {
            lemma_halves(n as nat, gap as nat);
            assert(n / 2048 < EXACT_LIMIT);
        }
        gap = gap * 2;
    }
    let q: u128 = round_quotient(n as u128, gap as u128);
    proof {
        let m = n / gap;
        assert(q <= m + 1);
        assert(m < EXACT_LIMIT);
        assert(q * gap <= 9007199254740992 * 2048) by (nonlinear_arith)
            requires
                q <= 9007199254740992,
                gap <= 2048,
        ;
        assert(9007199254740992 * 2048 == 0x1_0000_0000_0000_0000) by (nonlinear_arith);
    }
    q * (gap as u128)
}

/// Appends how many units `n` is, with one decimal.
fn push_with_tenth(out: &mut String, n: u128, unit: u64)
    requires
        n <= 0x1_0000_0000_0000_0000,
        unit == GB || unit == MB,
    ensures
        final(out)@ == old(out)@ + with_tenth(n as nat, unit as nat),
{
    let tenths: u128 = round_quotient(10 * n, unit as u128);
    let ghost before = out@;
    proof {
        let most = 184467440737095516160int;
        vstd::arithmetic::div_mod::lemma_div_is_ordered(10 * n as int, most, unit as int);
        vstd::arithmetic::div_mod::lemma_div_is_ordered_by_denominator(most, MB as int, unit as int);
        assert(tenths <= most / (MB as int) + 1);
    }
    push_decimal(out, (tenths / 10) as u64);
    out.push('.');
    push_decimal(out, (tenths % 10) as u64);
    assert(out@ =~= before + with_tenth(n as nat, unit as nat));
}

/// A file size for people, in a compact form.
pub fn format_size(bytes: u64) -> (r: String)
    ensures
        r@ == size_text(bytes as nat),
{
    let mut out: String = String::new();
    if bytes >= GB {
        push_with_tenth(&mut out, round_to_double(bytes), GB);
        out.push('G');
    } else if bytes >= MB {
        push_with_tenth(&mut out, bytes as u128, MB);
        out.push('M');
    } else if bytes >= KB {
        push_decimal(&mut out, bytes / KB);
        out.push('K');
    } else {
        push_decimal(&mut out, bytes);
        out.push('B');
    }
    assert(out@ =~= size_text(bytes as nat));
    out
}

} // verus!
