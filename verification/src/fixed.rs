//! Saturating fixed-point arithmetic on `i128` scalars.
//!
//! A scalar holds its value multiplied by `SCALE`.  Every operation clamps
//! its result into `[-FP_MAX, FP_MAX]`, and each executable operation has a
//! spec-level twin (`sp_add`, `sp_mul`, ...) that describes it exactly, so
//! contracts further up can state results as pure functions of the inputs.

use vstd::prelude::*;

verus! {

/// One unit, in fixed-point representation: scalars carry three fractional
/// decimal digits.
pub const SCALE: i128 = 1000;

/// Every stored scalar is kept within `[-FP_MAX, FP_MAX]` by saturation.
pub const FP_MAX: i128 = 1_000_000_000_000_000_000;

/// A scalar that the simulation may hold.
pub open spec fn fp_in_range(x: int) -> bool {
    -(FP_MAX as int) <= x <= FP_MAX as int
}

/// Saturation into `[-FP_MAX, FP_MAX]`.
pub open spec fn sp_clamp(x: int) -> int {
    if x > FP_MAX as int {
        FP_MAX as int
    } else if x < -(FP_MAX as int) {
        -(FP_MAX as int)
    } else {
        x
    }
}

/// Truncating (round-toward-zero) division.  Total; all callers pass a
/// positive divisor, and the definition is arbitrary (zero) otherwise.
pub open spec fn sp_divt(a: int, b: int) -> int {
    if b <= 0 {
        0
    } else if a >= 0 {
        a / b
    } else {
        -((-a) / b)
    }
}

/// Saturating fixed-point addition.
pub open spec fn sp_add(a: int, b: int) -> int {
    sp_clamp(a + b)
}

/// Saturating fixed-point subtraction.
pub open spec fn sp_sub(a: int, b: int) -> int {
    sp_clamp(a - b)
}

/// Saturating fixed-point multiplication (truncates toward zero).
pub open spec fn sp_mul(a: int, b: int) -> int {
    sp_clamp(sp_divt(a * b, SCALE as int))
}

/// Saturating fixed-point division (truncates toward zero); the divisor is
/// positive at every use.
pub open spec fn sp_div(a: int, b: int) -> int {
    sp_clamp(sp_divt(a * SCALE as int, b))
}

/// `r` is the integer square root of `x`.
pub open spec fn is_isqrt(x: int, r: int) -> bool {
    0 <= r && r * r <= x && x < (r + 1) * (r + 1)
}

/// The integer square root (of a nonnegative argument).
pub open spec fn sp_isqrt(x: int) -> int {
    choose|r: int| is_isqrt(x, r)
}

/// `r` is the integer cube root of `x`.
pub open spec fn is_icbrt(x: int, r: int) -> bool {
    0 <= r && r * r * r <= x && x < (r + 1) * (r + 1) * (r + 1)
}

/// The integer cube root (of a nonnegative argument).
pub open spec fn sp_icbrt(x: int) -> int {
    choose|r: int| is_icbrt(x, r)
}

pub proof fn lemma_isqrt_unique(x: int, r1: int, r2: int)
    by (nonlinear_arith)
    requires
        0 <= r1,
        r1 * r1 <= x,
        x < (r1 + 1) * (r1 + 1),
        0 <= r2,
        r2 * r2 <= x,
        x < (r2 + 1) * (r2 + 1),
    ensures
        r1 == r2,
{
}

pub proof fn lemma_icbrt_unique(x: int, r1: int, r2: int)
    by (nonlinear_arith)
    requires
        0 <= r1,
        r1 * r1 * r1 <= x,
        x < (r1 + 1) * (r1 + 1) * (r1 + 1),
        0 <= r2,
        r2 * r2 * r2 <= x,
        x < (r2 + 1) * (r2 + 1) * (r2 + 1),
    ensures
        r1 == r2,
{
}

/// Truncating division commutes with negation of the dividend.
pub proof fn lemma_sp_divt_neg(w: int, c: int)
    requires
        c > 0,
    ensures
        sp_divt(-w, c) == -sp_divt(w, c),
{
    if w > 0 {
        assert(sp_divt(-w, c) == -(w / c));
    } else if w < 0 {
        assert(sp_divt(-w, c) == (-w) / c);
    }
}

/// Fixed-point multiplication commutes with negation of either factor.
pub proof fn lemma_sp_mul_neg(a: int, b: int)
    ensures
        sp_mul(-a, b) == -sp_mul(a, b),
        sp_mul(a, -b) == -sp_mul(a, b),
{
    assert((-a) * b == -(a * b)) by (nonlinear_arith);
    assert(a * (-b) == -(a * b)) by (nonlinear_arith);
    lemma_sp_divt_neg(a * b, SCALE as int);
}

/// The integer square root of a perfect square.
pub proof fn lemma_isqrt_square(v: int)
    requires
        0 <= v,
    ensures
        sp_isqrt(v * v) == v,
{
    assert(v * v < (v + 1) * (v + 1)) by (nonlinear_arith)
        requires 0 <= v,
    ;
    assert(is_isqrt(v * v, v));
    assert(is_isqrt(v * v, sp_isqrt(v * v)));
    lemma_isqrt_unique(v * v, v, sp_isqrt(v * v));
}

/// Saturate a raw scalar into the representable range.
pub fn fp_clamp(x: i128) -> (r: i128)
    ensures
        r as int == sp_clamp(x as int),
        fp_in_range(r as int),
{
    if x > FP_MAX {
        FP_MAX
    } else if x < -FP_MAX {
        -FP_MAX
    } else {
        x
    }
}

/// Truncating division by a positive divisor.
pub fn divt(a: i128, b: i128) -> (r: i128)
    requires
        b > 0,
        a != i128::MIN,
    ensures
        r as int == sp_divt(a as int, b as int),
{
    if a >= 0 {
        let q = (a as u128) / (b as u128);
        proof {
            vstd::arithmetic::div_mod::lemma_div_is_ordered_by_denominator(a as int, 1, b as int);
            vstd::arithmetic::div_mod::lemma_div_by_self(1);
        }
        q as i128
    } else {
        let na = -a;
        let q = (na as u128) / (b as u128);
        proof {
            vstd::arithmetic::div_mod::lemma_div_is_ordered_by_denominator(na as int, 1, b as int);
            vstd::arithmetic::div_mod::lemma_div_by_self(1);
        }
        -(q as i128)
    }
}

/// Saturating addition.
pub fn fp_add(a: i128, b: i128) -> (r: i128)
    requires
        fp_in_range(a as int),
        fp_in_range(b as int),
    ensures
        r as int == sp_add(a as int, b as int),
        fp_in_range(r as int),
{
    fp_clamp(a + b)
}

/// Saturating subtraction.
pub fn fp_sub(a: i128, b: i128) -> (r: i128)
    requires
        fp_in_range(a as int),
        fp_in_range(b as int),
    ensures
        r as int == sp_sub(a as int, b as int),
        fp_in_range(r as int),
{
    fp_clamp(a - b)
}

/// Saturating fixed-point multiplication.
pub fn fp_mul(a: i128, b: i128) -> (r: i128)
    requires
        fp_in_range(a as int),
        fp_in_range(b as int),
    ensures
        r as int == sp_mul(a as int, b as int),
        fp_in_range(r as int),
{
    proof {
        lemma_product_bound(a as int, b as int, FP_MAX as int);
    }
    let p = a * b;
    fp_clamp(divt(p, SCALE))
}

/// Saturating fixed-point division by a positive divisor.
pub fn fp_div(a: i128, b: i128) -> (r: i128)
    requires
        fp_in_range(a as int),
        0 < b,
    ensures
        r as int == sp_div(a as int, b as int),
        fp_in_range(r as int),
{
    let p = a * SCALE;
    fp_clamp(divt(p, b))
}

/// `|a|, |b| <= m` bounds the product by `m * m`.
pub proof fn lemma_product_bound(a: int, b: int, m: int)
    by (nonlinear_arith)
    requires
        0 <= m,
        -m <= a <= m,
        -m <= b <= m,
    ensures
        -(m * m) <= a * b <= m * m,
{
}

/// Integer square root, for arguments up to twice `FP_MAX` squared
/// (the largest sum of two squared in-range scalars).
pub fn isqrt(x: i128) -> (r: i128)
    requires
        0 <= x,
        x as int <= 4 * (FP_MAX as int) * (FP_MAX as int),
    ensures
        is_isqrt(x as int, r as int),
        r as int == sp_isqrt(x as int),
        0 <= r,
{
    let xu = x as u128;
    let mut lo: u128 = 0;
    let mut hi: u128 = 2_000_000_000_000_000_000;
    proof {
        assert((2_000_000_000_000_000_000 + 1) * (2_000_000_000_000_000_000 + 1) >
            4 * (FP_MAX as int) * (FP_MAX as int)) by (nonlinear_arith);
    }
    while lo < hi
        invariant
            0 <= x,
            xu == x as u128,
            lo <= hi <= 2_000_000_000_000_000_000,
            (lo as int) * (lo as int) <= xu as int,
            (xu as int) < (hi as int + 1) * (hi as int + 1),
        decreases hi - lo,
    {
        let mid = lo + (hi - lo + 1) / 2;
        proof {
            assert((mid as int) * (mid as int) <=
                4_000_000_000_000_000_000_000_000_000_000_000_000) by (nonlinear_arith)
                requires 0 <= mid as int <= 2_000_000_000_000_000_000;
        }
        if mid * mid <= xu {
            lo = mid;
        } else {
            hi = mid - 1;
        }
    }
    proof {
        assert(is_isqrt(x as int, lo as int));
        lemma_isqrt_unique(x as int, lo as int, sp_isqrt(x as int));
    }
    lo as i128
}

/// Integer cube root, for arguments up to `FP_MAX * SCALE * SCALE`
/// (the largest scaled volume the radius computation can produce).
pub fn icbrt(x: i128) -> (r: i128)
    requires
        0 <= x,
        x as int <= (FP_MAX as int) * (SCALE as int) * (SCALE as int),
    ensures
        is_icbrt(x as int, r as int),
        r as int == sp_icbrt(x as int),
        0 <= r,
{
    let xu = x as u128;
    let mut lo: u128 = 0;
    let mut hi: u128 = 1_000_000_000;
    proof {
        assert((1_000_000_000 + 1) * (1_000_000_000 + 1) * (1_000_000_000 + 1) >
            (FP_MAX as int) * (SCALE as int) * (SCALE as int)) by (nonlinear_arith);
    }
    while lo < hi
        invariant
            0 <= x,
            xu == x as u128,
            lo <= hi <= 1_000_000_000,
            (lo as int) * (lo as int) * (lo as int) <= xu as int,
            (xu as int) < (hi as int + 1) * (hi as int + 1) * (hi as int + 1),
        decreases hi - lo,
    {
        let mid = lo + (hi - lo + 1) / 2;
        proof {
            assert((mid as int) * (mid as int) <= 1_000_000_000_000_000_000
                && (mid as int) * (mid as int) * (mid as int) <=
                    1_000_000_000_000_000_000_000_000_000) by (nonlinear_arith)
                requires 0 <= mid as int <= 1_000_000_000;
        }
        if mid * mid * mid <= xu {
            lo = mid;
        } else {
            hi = mid - 1;
        }
    }
    proof {
        assert(is_icbrt(x as int, lo as int));
        lemma_icbrt_unique(x as int, lo as int, sp_icbrt(x as int));
    }
    lo as i128
}

} // verus!
