//! Saturating fixed-point arithmetic: every stored value is an integer
//! multiple of `1/SCALE`, kept within `[-CAP, CAP]` so that sums and
//! products of bounded length always fit in an `i128` intermediate.
use vstd::prelude::*;

verus! {

/// Number of fixed-point units per 1.0.
pub const SCALE: i64 = 65536;

/// Largest magnitude a stored fixed-point value may take.
pub const CAP: i64 = 0x100_0000_0000;

/// Longest vector or matrix side the arithmetic admits; with entries bounded
/// by `CAP`, sums of `DIM_MAX` products of two entries stay inside `i128`.
pub const DIM_MAX: usize = 1048576;

/// Saturate an unbounded value into the representable range.
pub open spec fn spec_clamp(x: int) -> int {
    if x > CAP as int {
        CAP as int
    } else if x < -(CAP as int) {
        -(CAP as int)
    } else {
        x
    }
}

/// Division truncating toward zero (the behaviour of `/` on machine integers),
/// for a positive divisor.
pub open spec fn spec_tdiv(x: int, d: int) -> int {
    if x >= 0 {
        x / d
    } else {
        -((-x) / d)
    }
}

/// `spec_clamp` packed back into a machine word.
pub open spec fn clamp64(x: int) -> i64 {
    spec_clamp(x) as i64
}

/// The product of two in-range values never exceeds `CAP` squared.
pub proof fn lemma_abs_mul_cap(a: i64, b: i64)
    requires
        -CAP <= a <= CAP,
        -CAP <= b <= CAP,
    ensures
        -0x100000000000000000000 <= (a as int) * (b as int) <= 0x100000000000000000000,
{
    assert(-(CAP as int) * (CAP as int) <= (a as int) * (b as int) <= (CAP as int) * (
    CAP as int)) by (nonlinear_arith)
        requires
            -CAP <= a <= CAP,
            -CAP <= b <= CAP,
    ;
}

pub fn clamp_i128(x: i128) -> (r: i64)
    ensures
        r == spec_clamp(x as int),
        -CAP <= r <= CAP,
{
    if x > CAP as i128 {
        CAP
    } else if x < -(CAP as i128) {
        -CAP
    } else {
        x as i64
    }
}

/// Truncating division of a bounded value by `SCALE`.
pub fn div_scale(x: i128) -> (r: i128)
    requires
        -0x1_0000_0000_0000_0000_0000_0000_0000 <= x <= 0x1_0000_0000_0000_0000_0000_0000_0000,
    ensures
        r == spec_tdiv(x as int, SCALE as int),
{
    if x >= 0 {
        x / (SCALE as i128)
    } else {
        -((-x) / (SCALE as i128))
    }
}

/// Truncating division of a bounded value by a positive divisor.
pub fn div_trunc(x: i64, d: usize) -> (r: i64)
    requires
        1 <= d,
    ensures
        r == spec_tdiv(x as int, d as int),
        x >= 0 ==> 0 <= r <= x,
        x < 0 ==> x <= r <= 0,
{
    let dd: i128 = d as i128;
    let xx: i128 = x as i128;
    if xx >= 0 {
        (xx / dd) as i64
    } else {
        let q: i128 = (-xx) / dd;
        (-q) as i64
    }
}

/// Saturating fixed-point product.
pub open spec fn spec_fx_mul(a: int, b: int) -> int {
    spec_clamp(spec_tdiv(a * b, SCALE as int))
}

pub fn fx_mul(a: i64, b: i64) -> (r: i64)
    requires
        -CAP <= a <= CAP,
        -CAP <= b <= CAP,
    ensures
        r == spec_fx_mul(a as int, b as int),
        -CAP <= r <= CAP,
{
    proof {
        assert((a as int) * (b as int) <= (CAP as int) * (CAP as int) && (a as int) * (b as int)
            >= -((CAP as int) * (CAP as int))) by (nonlinear_arith)
            requires
                -CAP <= a <= CAP,
                -CAP <= b <= CAP,
        ;
    }
    let p: i128 = (a as i128) * (b as i128);
    let q: i128 = div_scale(p);
    clamp_i128(q)
}

} // verus!
