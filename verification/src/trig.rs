//! Sine and cosine on fixed-point angles in radians.
//!
//! An angle is first reduced to one period, then folded into the first
//! quarter period, where a truncated Taylor polynomial evaluates the
//! function. Every step is exact integer arithmetic, so the results are
//! fully determined by the argument; `spec_sin_fx` and `spec_cos_fx`
//! state them exactly. At an angle of zero the results are exact:
//! sine 0 and cosine `SCALE`.

use vstd::prelude::*;
use crate::fixed::{SCALE, iabs, tdiv, fxm, fx_mul, div_trunc, lemma_iabs_mul, lemma_tdiv_mag};

verus! {

/// Half turn (pi) in fixed-point radians.
pub const PI_FX: i64 = 205887;

/// Full turn (two pi) in fixed-point radians.
pub const TWO_PI_FX: i64 = 411774;

/// Quarter turn, rounded up, so the four quadrant cases cover a period.
pub const HALF_PI_FX: i64 = 102944;

/// Three quarter turns: `PI_FX + HALF_PI_FX`.
pub const THREE_HALF_PI_FX: i64 = 308831;

/// The largest magnitude `sin_fx` or `cos_fx` can return.
pub const TRIG_BOUND: i64 = 131072;

/// An angle reduced to `[0, TWO_PI_FX)`.
pub open spec fn angle_norm(x: int) -> int {
    x % (TWO_PI_FX as int)
}

/// Taylor polynomial for sine on the first quarter period.
pub open spec fn spec_sin_poly(t: int) -> int {
    let t2 = fxm(t, t);
    let t3 = fxm(t2, t);
    let t5 = fxm(t3, t2);
    let t7 = fxm(t5, t2);
    let t9 = fxm(t7, t2);
    t - tdiv(t3, 6) + tdiv(t5, 120) - tdiv(t7, 5040) + tdiv(t9, 362880)
}

/// Taylor polynomial for cosine on the first quarter period.
pub open spec fn spec_cos_poly(t: int) -> int {
    let t2 = fxm(t, t);
    let t4 = fxm(t2, t2);
    let t6 = fxm(t4, t2);
    let t8 = fxm(t6, t2);
    let t10 = fxm(t8, t2);
    SCALE - tdiv(t2, 2) + tdiv(t4, 24) - tdiv(t6, 720) + tdiv(t8, 40320) - tdiv(t10, 3628800)
}

/// Sine of a fixed-point angle, by quadrant folding.
pub open spec fn spec_sin_fx(x: int) -> int {
    let m = angle_norm(x);
    if m < HALF_PI_FX {
        spec_sin_poly(m)
    } else if m < PI_FX {
        spec_sin_poly(PI_FX - m)
    } else if m < THREE_HALF_PI_FX {
        -spec_sin_poly(m - PI_FX)
    } else {
        -spec_sin_poly(TWO_PI_FX - m)
    }
}

/// Cosine of a fixed-point angle, by quadrant folding.
pub open spec fn spec_cos_fx(x: int) -> int {
    let m = angle_norm(x);
    if m < HALF_PI_FX {
        spec_cos_poly(m)
    } else if m < PI_FX {
        -spec_cos_poly(PI_FX - m)
    } else if m < THREE_HALF_PI_FX {
        -spec_cos_poly(m - PI_FX)
    } else {
        spec_cos_poly(TWO_PI_FX - m)
    }
}

/// Reduce an angle to `[0, TWO_PI_FX)`.
fn norm_angle(x: i64) -> (m: i64)
    requires
        x != i64::MIN,
    ensures
        m == angle_norm(x as int),
        0 <= m < TWO_PI_FX,
{
    if x >= 0 {
        let m = ((x as u64) % 411774u64) as i64;
        m
    } else {
        let p = ((-x) as u64) % 411774u64;
        proof {
            let t = TWO_PI_FX as int;
            let nx = -(x as int);
            vstd::arithmetic::div_mod::lemma_fundamental_div_mod(nx, t);
            let q0 = nx / t;
            if p == 0 {
                vstd::arithmetic::div_mod::lemma_fundamental_div_mod_converse_mod(
                    x as int, t, -q0, 0);
            } else {
                assert(x as int == (-q0 - 1) * t + (t - p)) by {
                    assert(nx == q0 * t + p);
                    vstd::arithmetic::mul::lemma_mul_is_distributive_add_other_way(
                        t, -q0, -1);
                }
                vstd::arithmetic::div_mod::lemma_fundamental_div_mod_converse_mod(
                    x as int, t, -q0 - 1, t - p as int);
            }
        }
        if p == 0 {
            0i64
        } else {
            411774i64 - (p as i64)
        }
    }
}

/// Evaluate the sine polynomial on the first quarter period.
fn sin_poly(t: i64) -> (r: i64)
    requires
        0 <= t <= HALF_PI_FX,
    ensures
        r == spec_sin_poly(t as int),
        -65536 <= r <= 131072,
{
    proof {
        vstd::arithmetic::mul::lemma_mul_upper_bound(t as int, 102944, t as int, 102944);
    }
    let t2 = fx_mul(t, t);
    proof {
        lemma_iabs_mul(t as int, t as int);
        lemma_tdiv_mag(t as int * t as int, 65536, 161705);
        vstd::arithmetic::div_mod::lemma_div_pos_is_pos(iabs(t as int * t as int), 65536);
        vstd::arithmetic::mul::lemma_mul_upper_bound(t2 as int, 161705, t as int, 102944);
    }
    assert(0 <= t2 <= 161705);
    let t3 = fx_mul(t2, t);
    proof {
        lemma_iabs_mul(t2 as int, t as int);
        lemma_tdiv_mag(t2 as int * t as int, 65536, 254010);
        vstd::arithmetic::div_mod::lemma_div_pos_is_pos(iabs(t2 as int * t as int), 65536);
        vstd::arithmetic::mul::lemma_mul_upper_bound(t3 as int, 254010, t2 as int, 161705);
    }
    assert(0 <= t3 <= 254010);
    let t5 = fx_mul(t3, t2);
    proof {
        lemma_iabs_mul(t3 as int, t2 as int);
        lemma_tdiv_mag(t3 as int * t2 as int, 65536, 626800);
        vstd::arithmetic::div_mod::lemma_div_pos_is_pos(iabs(t3 as int * t2 as int), 65536);
        vstd::arithmetic::mul::lemma_mul_upper_bound(t5 as int, 626800, t2 as int, 161705);
    }
    assert(0 <= t5 <= 626800);
    let t7 = fx_mul(t5, t2);
    proof {
        lemma_iabs_mul(t5 as int, t2 as int);
        lemma_tdiv_mag(t5 as int * t2 as int, 65536, 1547000);
        vstd::arithmetic::div_mod::lemma_div_pos_is_pos(iabs(t5 as int * t2 as int), 65536);
        vstd::arithmetic::mul::lemma_mul_upper_bound(t7 as int, 1547000, t2 as int, 161705);
    }
    assert(0 <= t7 <= 1547000);
    let t9 = fx_mul(t7, t2);
    proof {
        lemma_iabs_mul(t7 as int, t2 as int);
        lemma_tdiv_mag(t7 as int * t2 as int, 65536, 3818000);
        vstd::arithmetic::div_mod::lemma_div_pos_is_pos(iabs(t7 as int * t2 as int), 65536);
    }
    assert(0 <= t9 <= 3818000);
    let d3 = div_trunc(t3 as i128, 6) as i64;
    let d5 = div_trunc(t5 as i128, 120) as i64;
    let d7 = div_trunc(t7 as i128, 5040) as i64;
    let d9 = div_trunc(t9 as i128, 362880) as i64;
    proof {
        lemma_tdiv_mag(t3 as int, 6, 42335);
        lemma_tdiv_mag(t5 as int, 120, 5224);
        lemma_tdiv_mag(t7 as int, 5040, 307);
        lemma_tdiv_mag(t9 as int, 362880, 11);
        vstd::arithmetic::div_mod::lemma_div_pos_is_pos(t3 as int, 6);
        vstd::arithmetic::div_mod::lemma_div_pos_is_pos(t5 as int, 120);
        vstd::arithmetic::div_mod::lemma_div_pos_is_pos(t7 as int, 5040);
        vstd::arithmetic::div_mod::lemma_div_pos_is_pos(t9 as int, 362880);
    }
    t - d3 + d5 - d7 + d9
}

/// Evaluate the cosine polynomial on the first quarter period.
fn cos_poly(t: i64) -> (r: i64)
    requires
        0 <= t <= HALF_PI_FX,
    ensures
        r == spec_cos_poly(t as int),
        -65536 <= r <= 131072,
{
    proof {
        vstd::arithmetic::mul::lemma_mul_upper_bound(t as int, 102944, t as int, 102944);
    }
    let t2 = fx_mul(t, t);
    proof {
        lemma_iabs_mul(t as int, t as int);
        lemma_tdiv_mag(t as int * t as int, 65536, 161705);
        vstd::arithmetic::div_mod::lemma_div_pos_is_pos(iabs(t as int * t as int), 65536);
        vstd::arithmetic::mul::lemma_mul_upper_bound(t2 as int, 161705, t2 as int, 161705);
    }
    assert(0 <= t2 <= 161705);
    let t4 = fx_mul(t2, t2);
    proof {
        lemma_iabs_mul(t2 as int, t2 as int);
        lemma_tdiv_mag(t2 as int * t2 as int, 65536, 399000);
        vstd::arithmetic::div_mod::lemma_div_pos_is_pos(iabs(t2 as int * t2 as int), 65536);
        vstd::arithmetic::mul::lemma_mul_upper_bound(t4 as int, 399000, t2 as int, 161705);
    }
    assert(0 <= t4 <= 399000);
    let t6 = fx_mul(t4, t2);
    proof {
        lemma_iabs_mul(t4 as int, t2 as int);
        lemma_tdiv_mag(t4 as int * t2 as int, 65536, 984600);
        vstd::arithmetic::div_mod::lemma_div_pos_is_pos(iabs(t4 as int * t2 as int), 65536);
        vstd::arithmetic::mul::lemma_mul_upper_bound(t6 as int, 984600, t2 as int, 161705);
    }
    assert(0 <= t6 <= 984600);
    let t8 = fx_mul(t6, t2);
    proof {
        lemma_iabs_mul(t6 as int, t2 as int);
        lemma_tdiv_mag(t6 as int * t2 as int, 65536, 2430000);
        vstd::arithmetic::div_mod::lemma_div_pos_is_pos(iabs(t6 as int * t2 as int), 65536);
        vstd::arithmetic::mul::lemma_mul_upper_bound(t8 as int, 2430000, t2 as int, 161705);
    }
    assert(0 <= t8 <= 2430000);
    let t10 = fx_mul(t8, t2);
    proof {
        lemma_iabs_mul(t8 as int, t2 as int);
        lemma_tdiv_mag(t8 as int * t2 as int, 65536, 6000000);
        vstd::arithmetic::div_mod::lemma_div_pos_is_pos(iabs(t8 as int * t2 as int), 65536);
    }
    assert(0 <= t10 <= 6000000);
    let d2 = div_trunc(t2 as i128, 2) as i64;
    let d4 = div_trunc(t4 as i128, 24) as i64;
    let d6 = div_trunc(t6 as i128, 720) as i64;
    let d8 = div_trunc(t8 as i128, 40320) as i64;
    let d10 = div_trunc(t10 as i128, 3628800) as i64;
    proof {
        lemma_tdiv_mag(t2 as int, 2, 80853);
        lemma_tdiv_mag(t4 as int, 24, 16625);
        lemma_tdiv_mag(t6 as int, 720, 1368);
        lemma_tdiv_mag(t8 as int, 40320, 61);
        lemma_tdiv_mag(t10 as int, 3628800, 2);
        vstd::arithmetic::div_mod::lemma_div_pos_is_pos(t2 as int, 2);
        vstd::arithmetic::div_mod::lemma_div_pos_is_pos(t4 as int, 24);
        vstd::arithmetic::div_mod::lemma_div_pos_is_pos(t6 as int, 720);
        vstd::arithmetic::div_mod::lemma_div_pos_is_pos(t8 as int, 40320);
        vstd::arithmetic::div_mod::lemma_div_pos_is_pos(t10 as int, 3628800);
    }
    65536i64 - d2 + d4 - d6 + d8 - d10
}

/// Sine of any fixed-point angle.
pub fn sin_fx(x: i64) -> (r: i64)
    requires
        x != i64::MIN,
    ensures
        r == spec_sin_fx(x as int),
        iabs(r as int) <= TRIG_BOUND,
{
    let m = norm_angle(x);
    if m < HALF_PI_FX {
        sin_poly(m)
    } else if m < PI_FX {
        sin_poly(PI_FX - m)
    } else if m < THREE_HALF_PI_FX {
        let v = sin_poly(m - PI_FX);
        -v
    } else {
        let v = sin_poly(TWO_PI_FX - m);
        -v
    }
}

/// Cosine of any fixed-point angle.
pub fn cos_fx(x: i64) -> (r: i64)
    requires
        x != i64::MIN,
    ensures
        r == spec_cos_fx(x as int),
        iabs(r as int) <= TRIG_BOUND,
{
    let m = norm_angle(x);
    if m < HALF_PI_FX {
        cos_poly(m)
    } else if m < PI_FX {
        let v = cos_poly(PI_FX - m);
        -v
    } else if m < THREE_HALF_PI_FX {
        let v = cos_poly(m - PI_FX);
        -v
    } else {
        cos_poly(TWO_PI_FX - m)
    }
}

/// At angle zero the folded polynomials are exact: sine is 0 and cosine
/// is one whole unit.
pub proof fn lemma_trig_zero()
    ensures
        spec_sin_fx(0) == 0,
        spec_cos_fx(0) == SCALE,
{
    let t = TWO_PI_FX as int;
    vstd::arithmetic::div_mod::lemma_mod_self_0(t);
    assert(angle_norm(0) == 0) by {
        vstd::arithmetic::div_mod::lemma_small_mod(0nat, t as nat);
    }
    assert(fxm(0, 0) == 0) by {
        vstd::arithmetic::div_mod::lemma_div_of0(65536);
    }
    assert(tdiv(0, 6) == 0 && tdiv(0, 120) == 0 && tdiv(0, 5040) == 0 && tdiv(0, 362880) == 0
        && tdiv(0, 2) == 0 && tdiv(0, 24) == 0 && tdiv(0, 720) == 0 && tdiv(0, 40320) == 0
        && tdiv(0, 3628800) == 0) by {
        vstd::arithmetic::div_mod::lemma_div_of0(6);
        vstd::arithmetic::div_mod::lemma_div_of0(120);
        vstd::arithmetic::div_mod::lemma_div_of0(5040);
        vstd::arithmetic::div_mod::lemma_div_of0(362880);
        vstd::arithmetic::div_mod::lemma_div_of0(2);
        vstd::arithmetic::div_mod::lemma_div_of0(24);
        vstd::arithmetic::div_mod::lemma_div_of0(720);
        vstd::arithmetic::div_mod::lemma_div_of0(40320);
        vstd::arithmetic::div_mod::lemma_div_of0(3628800);
    }
}

} // verus!
