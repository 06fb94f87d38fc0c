//! Fixed-point scalars: an `i64` holds the real value times `SCALE`.
//!
//! All geometry in this crate is computed over this representation.
//! Division throughout the pipeline truncates toward zero, which
//! `tdiv` states exactly in terms of Verus's Euclidean `/`.

use vstd::prelude::*;

verus! {

/// One whole unit in fixed-point representation (16 fractional bits).
pub const SCALE: i64 = 65536;

/// Absolute value of a mathematical integer.
pub open spec fn iabs(n: int) -> int {
    if n >= 0 {
        n
    } else {
        -n
    }
}

/// Quotient of `n` by `d`, truncated toward zero (the rounding used by
/// machine division on signed integers).
pub open spec fn tdiv(n: int, d: int) -> int {
    if (n >= 0) == (d >= 0) {
        iabs(n) / iabs(d)
    } else {
        -(iabs(n) / iabs(d))
    }
}

/// Fixed-point product: the real product of `a` and `b`, still in
/// fixed-point representation, truncated toward zero.
pub open spec fn fxm(a: int, b: int) -> int {
    tdiv(a * b, SCALE as int)
}

/// Fixed-point quotient: the real quotient of `a` by `b`, still in
/// fixed-point representation, truncated toward zero.
pub open spec fn fxd(a: int, b: int) -> int {
    tdiv(a * (SCALE as int), b)
}

/// The magnitude of a product is the product of the magnitudes.
pub proof fn lemma_iabs_mul(a: int, b: int)
    ensures
        iabs(a * b) == iabs(a) * iabs(b),
{
    assert(iabs(a * b) == iabs(a) * iabs(b)) by (nonlinear_arith);
}

/// The magnitude of a product is bounded by the product of bounds on
/// the magnitudes of its factors.
pub proof fn lemma_mag_product(a: int, b: int, ab: int, bb: int)
    requires
        iabs(a) <= ab,
        iabs(b) <= bb,
        0 <= ab,
        0 <= bb,
    ensures
        iabs(a * b) <= ab * bb,
{
    lemma_iabs_mul(a, b);
    vstd::arithmetic::mul::lemma_mul_upper_bound(iabs(a), ab, iabs(b), bb);
}

/// Truncating division cannot exceed `m` in magnitude once the numerator
/// is within `m` times the denominator.
pub proof fn lemma_tdiv_mag(n: int, d: int, m: int)
    requires
        d != 0,
        m >= 0,
        iabs(n) <= m * iabs(d),
    ensures
        iabs(tdiv(n, d)) <= m,
{
    let na = iabs(n);
    let da = iabs(d);
    vstd::arithmetic::div_mod::lemma_div_pos_is_pos(na, da);
    assert(iabs(tdiv(n, d)) == na / da);
    vstd::arithmetic::div_mod::lemma_div_is_ordered(na, m * da, da);
    vstd::arithmetic::div_mod::lemma_div_multiples_vanish(m, da);
}

/// Truncating division on wide integers, the workhorse of the pipeline.
pub fn div_trunc(n: i128, d: i128) -> (q: i128)
    requires
        d != 0,
        n != i128::MIN,
        d != i128::MIN,
    ensures
        q == tdiv(n as int, d as int),
{
    let nn: u128 = if n < 0 {
        (-n) as u128
    } else {
        n as u128
    };
    let dd: u128 = if d < 0 {
        (-d) as u128
    } else {
        d as u128
    };
    assert(nn == iabs(n as int) && dd == iabs(d as int));
    let qq: u128 = nn / dd;
    assert(qq <= nn) by {
        vstd::arithmetic::div_mod::lemma_div_is_ordered_by_denominator(nn as int, 1, dd as int);
    }
    if (n < 0) != (d < 0) {
        -(qq as i128)
    } else {
        qq as i128
    }
}

/// Fixed-point multiplication with exact truncating semantics.
pub fn fx_mul(a: i64, b: i64) -> (r: i64)
    requires
        iabs(a as int) * iabs(b as int) <= 0x7fff_ffff_ffff_ffff * 0x10000,
    ensures
        r == fxm(a as int, b as int),
{
    proof {
        lemma_iabs_mul(a as int, b as int);
    }
    let p: i128 = (a as i128) * (b as i128);
    let q: i128 = div_trunc(p, 65536);
    proof {
        lemma_tdiv_mag(p as int, 65536, 0x7fff_ffff_ffff_ffff);
    }
    q as i64
}

/// Fixed-point division with exact truncating semantics.
pub fn fx_div(a: i64, b: i64) -> (r: i64)
    requires
        b != 0,
        iabs(a as int) * 0x10000 <= 0x7fff_ffff_ffff_ffff * iabs(b as int),
    ensures
        r == fxd(a as int, b as int),
{
    proof {
        lemma_iabs_mul(a as int, SCALE as int);
    }
    let p: i128 = (a as i128) * 65536;
    let q: i128 = div_trunc(p, b as i128);
    proof {
        lemma_tdiv_mag(p as int, b as int, 0x7fff_ffff_ffff_ffff);
    }
    q as i64
}

} // verus!
