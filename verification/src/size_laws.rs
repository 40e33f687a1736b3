//! What the text of a file size says.
use vstd::prelude::*;

use crate::size::{
    gap_at, nearest_double, rounded_quotient, size_text, EXACT_LIMIT, GB, MB,
};
use crate::text::decimal;

verus! {

/// A rounded quotient is off by half at most.
proof fn lemma_rounded(n: nat, d: nat)
    requires
        d > 0,
    ensures
        -(d as int) <= 2 * (rounded_quotient(n, d) * d - n) <= d,
{
    let q = n / d;
    let r = n % d;
    vstd::arithmetic::div_mod::lemma_fundamental_div_mod(n as int, d as int);
    vstd::arithmetic::div_mod::lemma_mod_bound(n as int, d as int);
    assert(d * q + r == n);
    assert(q * d == d * q) by (nonlinear_arith);
    assert((q + 1) * d == d * q + d) by (nonlinear_arith);
}

/// A size of less than a kilobyte is shown in bytes, and one of less than a megabyte in whole
/// kilobytes, rounded down.
pub proof fn law_small_sizes(n: nat)
    ensures
        n < 1024 ==> size_text(n) == decimal(n).push('B'),
        1024 <= n < 1024 * 1024 ==> size_text(n) == decimal(n / 1024).push('K'),
{
    assert(decimal(n) + seq!['B'] =~= decimal(n).push('B'));
    assert(decimal(n / 1024) + seq!['K'] =~= decimal(n / 1024).push('K'));
}

/// A size of a megabyte or more is shown in megabytes, and one of a gigabyte or more in gigabytes,
/// with one decimal; that is off by half a tenth at most. `tenths` is how many tenths are shown.
pub proof fn law_large_sizes(n: nat) -> (tenths: nat)
    requires
        1024 * 1024 <= n < 9007199254740992,
    ensures
        n < 1024 * 1024 * 1024 ==> {
            &&& size_text(n) == decimal(tenths / 10) + seq!['.'] + decimal(tenths % 10) + seq!['M']
            &&& -(1024 * 1024) <= 2 * (tenths * (1024 * 1024) - 10 * n) <= 1024 * 1024
        },
        n >= 1024 * 1024 * 1024 ==> {
            &&& size_text(n) == decimal(tenths / 10) + seq!['.'] + decimal(tenths % 10) + seq!['G']
            &&& -(1024 * 1024 * 1024) <= 2 * (tenths * (1024 * 1024 * 1024) - 10 * n) <= 1024 * 1024
                * 1024
        },
{
    if n < GB {
        lemma_rounded(10 * n, MB as nat);
        rounded_quotient(10 * n, MB as nat)
    } else {
        assert(n / 1 == n);
        assert(gap_at(n, 1) == 1);
        lemma_exact(n);
        lemma_rounded(10 * n, GB as nat);
        rounded_quotient(10 * n, GB as nat)
    }
}

/// Numbers that a double-precision number holds are not rounded.
proof fn lemma_exact(n: nat)
    requires
        n < EXACT_LIMIT,
    ensures
        nearest_double(n) == n,
{
    assert(n / 1 == n);
    assert(n % 1 == 0);
    assert(gap_at(n, 1) == 1);
    assert(rounded_quotient(n, 1) == n);
}

} // verus!
