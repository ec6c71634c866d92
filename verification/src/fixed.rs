//! Fixed-point scalar helpers.
//!
//! A coordinate is an `i64` counting units of `1/FP_ONE`; all intermediate
//! arithmetic is done in `i128`, wide enough that none of it can overflow for
//! values within the documented coordinate range.

use vstd::prelude::*;

verus! {

/// Number of fixed-point quanta in one scene unit.
pub const FP_ONE: i64 = 65536;

/// Floor division on mathematical integers (the spec-level `/` of Verus).
pub open spec fn floor_div(a: int, b: int) -> int
    recommends
        b > 0,
{
    a / b
}

/// Floor division of `a` by a positive `b`, exactly `a / b` rounded toward
/// negative infinity.
pub fn div_floor_i128(a: i128, b: i128) -> (r: i128)
    requires
        b > 0,
        a > i128::MIN,
    ensures
        r == floor_div(a as int, b as int),
{
    if a >= 0 {
        let q: u128 = (a as u128) / (b as u128);
        proof {
            vstd::arithmetic::div_mod::lemma_div_nonincreasing(a as int, b as int);
            vstd::arithmetic::div_mod::lemma_div_is_ordered_by_denominator(a as int, 1, b as int);
            assert(a as int / b as int >= 0) by {
                vstd::arithmetic::div_mod::lemma_div_pos_is_pos(a as int, b as int);
            }
        }
        q as i128
    } else {
        let na: u128 = (-a) as u128;
        let q: u128 = na / (b as u128);
        let rem: u128 = na % (b as u128);
        let qi: i128 = q as i128;
        let r: i128 = if rem != 0 {
            -qi - 1
        } else {
            -qi
        };
        proof {
            let ai = a as int;
            let bi = b as int;
            let nai = na as int;
            vstd::arithmetic::div_mod::lemma_fundamental_div_mod(nai, bi);
            vstd::arithmetic::div_mod::lemma_mod_bound(nai, bi);
            vstd::arithmetic::div_mod::lemma_div_pos_is_pos(nai, bi);
            vstd::arithmetic::div_mod::lemma_div_nonincreasing(nai, bi);
            assert(ai == -nai);
            if rem != 0 {
                assert(ai == (-(q as int) - 1) * bi + (bi - rem)) by (nonlinear_arith)
                    requires
                        nai == bi * (q as int) + rem,
                        ai == -nai,
                ;
                assert(0 <= bi - rem < bi);
                vstd::arithmetic::div_mod::lemma_fundamental_div_mod_converse(
                    ai, bi, -(q as int) - 1, bi - rem);
            } else {
                assert(ai == (-(q as int)) * bi + 0) by (nonlinear_arith)
                    requires
                        nai == bi * (q as int) + rem,
                        rem == 0,
                        ai == -nai,
                ;
                vstd::arithmetic::div_mod::lemma_fundamental_div_mod_converse(
                    ai, bi, -(q as int), 0);
            }
        }
        r
    }
}

/// Floor division by a positive divisor shrinks magnitudes: the quotient
/// stays between the dividend and zero.
pub proof fn lemma_floor_div_bound(a: int, b: int)
    requires
        b >= 1,
    ensures
        a >= 0 ==> 0 <= floor_div(a, b) <= a,
        a < 0 ==> a <= floor_div(a, b) <= 0,
{
    vstd::arithmetic::div_mod::lemma_fundamental_div_mod(a, b);
    vstd::arithmetic::div_mod::lemma_mod_bound(a, b);
    let q = a / b;
    let rem = a % b;
    assert(a >= 0 ==> 0 <= q <= a) by (nonlinear_arith)
        requires
            a == b * q + rem,
            0 <= rem < b,
            b >= 1,
    ;
    assert(a < 0 ==> a <= q <= 0) by (nonlinear_arith)
        requires
            a == b * q + rem,
            0 <= rem < b,
            b >= 1,
    ;
}

/// A dividend within `m` multiples of the divisor has its quotient within `m`.
pub proof fn lemma_floor_div_shrink(a: int, b: int, m: int)
    requires
        b >= 1,
        m >= 0,
        -(m * b) <= a <= m * b,
    ensures
        -m <= floor_div(a, b) <= m,
{
    vstd::arithmetic::div_mod::lemma_fundamental_div_mod(a, b);
    vstd::arithmetic::div_mod::lemma_mod_bound(a, b);
    let q = a / b;
    let rem = a % b;
    assert(-m <= q <= m) by (nonlinear_arith)
        requires
            a == b * q + rem,
            0 <= rem < b,
            b >= 1,
            m >= 0,
            -(m * b) <= a <= m * b,
    ;
}

/// Floor of the square root of `x`.
pub fn isqrt_u128(x: u128) -> (r: u128)
    ensures
        r * r <= x,
        x < (r + 1) * (r + 1),
{
    let mut lo: u128 = 0;
    let mut hi: u128 = 0x1_0000_0000_0000_0000;
    proof {
        assert(hi * hi > x) by (nonlinear_arith)
            requires
                hi == 0x1_0000_0000_0000_0000u128,
                x <= u128::MAX,
        ;
    }
    while lo + 1 < hi
        invariant
            lo < hi,
            hi <= 0x1_0000_0000_0000_0000,
            lo * lo <= x,
            x < hi * hi,
        decreases hi - lo,
    {
        let mid: u128 = lo + (hi - lo) / 2;
        proof {
            assert(lo < mid < hi);
            assert(mid * mid <= u128::MAX) by (nonlinear_arith)
                requires
                    0 < mid < 0x1_0000_0000_0000_0000u128,
            ;
        }
        if mid * mid <= x {
            lo = mid;
        } else {
            hi = mid;
        }
    }
    lo
}

/// Minimum of two scalars.
pub fn min_i64(a: i64, b: i64) -> (r: i64)
    ensures
        r == if a <= b { a as int } else { b as int },
{
    if a <= b { a } else { b }
}

/// Maximum of two scalars.
pub fn max_i64(a: i64, b: i64) -> (r: i64)
    ensures
        r == if a >= b { a as int } else { b as int },
{
    if a >= b { a } else { b }
}

} // verus!
