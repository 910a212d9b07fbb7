//! Exact comparison of non-negative fractions. Threshold selection ranks
//! candidate thresholds by an inter-class variance that is a quotient of
//! two large integers; comparing such quotients by cross-multiplication
//! could overflow, so the comparison goes through the integer parts first
//! and cross-multiplies only the remainders, which are below the
//! denominators.

use vstd::prelude::*;
use vstd::arithmetic::div_mod::lemma_fundamental_div_mod;

verus! {

/// `n1 / d1 > n2 / d2`, as mathematical rationals.
pub open spec fn frac_gt(n1: int, d1: int, n2: int, d2: int) -> bool
    recommends
        d1 > 0,
        d2 > 0,
{
    n1 * d2 > n2 * d1
}

/// Splitting both fractions into integer part and remainder decides the
/// comparison: a larger integer part wins, equal integer parts reduce it
/// to the remainders.
proof fn lemma_frac_cmp_parts(n1: int, d1: int, n2: int, d2: int, q1: int, r1: int, q2: int, r2: int)
    requires
        d1 > 0,
        d2 > 0,
        n1 == q1 * d1 + r1,
        0 <= r1 < d1,
        n2 == q2 * d2 + r2,
        0 <= r2 < d2,
    ensures
        q1 > q2 ==> n1 * d2 > n2 * d1,
        q1 < q2 ==> n2 * d1 > n1 * d2,
        q1 == q2 ==> (n1 * d2 > n2 * d1) == (r1 * d2 > r2 * d1),
{
    assert(n1 * d2 == q1 * (d1 * d2) + r1 * d2) by (nonlinear_arith)
        requires
            n1 == q1 * d1 + r1,
    ;
    assert(n2 * d1 == q2 * (d1 * d2) + r2 * d1) by (nonlinear_arith)
        requires
            n2 == q2 * d2 + r2,
    ;
    assert(r1 * d2 < d1 * d2 && r2 * d1 < d1 * d2 && r1 * d2 >= 0 && r2 * d1 >= 0)
        by (nonlinear_arith)
        requires
            d1 > 0,
            d2 > 0,
            0 <= r1 < d1,
            0 <= r2 < d2,
    ;
    if q1 > q2 {
        assert(q1 * (d1 * d2) >= q2 * (d1 * d2) + d1 * d2) by (nonlinear_arith)
            requires
                q1 > q2,
                d1 > 0,
                d2 > 0,
        ;
    }
    if q1 < q2 {
        assert(q2 * (d1 * d2) >= q1 * (d1 * d2) + d1 * d2) by (nonlinear_arith)
            requires
                q1 < q2,
                d1 > 0,
                d2 > 0,
        ;
    }
}

/// Decides `n1 / d1 > n2 / d2` exactly. The denominators must stay below
/// 2^63 so that the remainder cross-products fit in 128 bits; the
/// numerators may use the full 128-bit range.
pub fn frac_gt_exec(n1: u128, d1: u128, n2: u128, d2: u128) -> (r: bool)
    requires
        1 <= d1 < 0x8000000000000000,
        1 <= d2 < 0x8000000000000000,
    ensures
        r == frac_gt(n1 as int, d1 as int, n2 as int, d2 as int),
{
    let q1 = n1 / d1;
    let r1 = n1 % d1;
    let q2 = n2 / d2;
    let r2 = n2 % d2;
    proof {
        lemma_fundamental_div_mod(n1 as int, d1 as int);
        lemma_fundamental_div_mod(n2 as int, d2 as int);
        lemma_frac_cmp_parts(
            n1 as int,
            d1 as int,
            n2 as int,
            d2 as int,
            q1 as int,
            r1 as int,
            q2 as int,
            r2 as int,
        );
        assert(r1 * d2 < 0x8000000000000000 * 0x8000000000000000) by (nonlinear_arith)
            requires
                0 <= r1 < 0x8000000000000000,
                0 < d2 < 0x8000000000000000,
        ;
        assert(r2 * d1 < 0x8000000000000000 * 0x8000000000000000) by (nonlinear_arith)
            requires
                0 <= r2 < 0x8000000000000000,
                0 < d1 < 0x8000000000000000,
        ;
    }
    if q1 > q2 {
        true
    } else if q1 < q2 {
        false
    } else {
        r1 * d2 > r2 * d1
    }
}

} // verus!
