//! Angles and fixed-point trigonometry.
//!
//! An angle is a count of integer angle units, `TURN` of them to a full
//! turn.  Direction vectors are fixed-point values scaled by `UNIT`; sine
//! and cosine are computed by an integer rational approximation (Bhaskara's)
//! that is exact at multiples of a quarter turn, odd around zero, and kept
//! within `[-UNIT, UNIT]`.  Every consumer of a direction works against the
//! specification functions `sin_units` and `cos_units` defined here.

use vstd::prelude::*;
use vstd::arithmetic::div_mod::*;
use crate::num::{tdiv, iabs, lemma_tdiv_nonneg};

verus! {

/// Angle units in one full turn.
pub const TURN: i64 = 21600;

/// Angle units in half a turn.
pub const HALF_TURN: i64 = 10800;

/// Angle units in a quarter turn.
pub const QUARTER_TURN: i64 = 5400;

/// Fixed-point scale of direction components: `cos` and `sin` of an angle
/// are returned multiplied by `UNIT`.
pub const UNIT: i64 = 65536;

/// Angles above which the kernel refuses to accumulate further rotation;
/// far beyond anything a layout reaches, but safely inside `i64`.
pub const ANGLE_MAX: i64 = 1_000_000_000_000_000_000;

/// The representative of `a` in `[0, TURN)`.
pub open spec fn norm_angle(a: int) -> int {
    a % (TURN as int)
}

/// Bhaskara's rational approximation of `UNIT * sin(pi * x / HALF_TURN)`
/// for `x` in `[0, HALF_TURN]`.
pub open spec fn sin_poly(x: int) -> int
    recommends
        0 <= x <= HALF_TURN,
{
    let p: int = x * (HALF_TURN - x);
    tdiv(16 * p * (UNIT as int), 5 * (HALF_TURN as int) * (HALF_TURN as int) - 4 * p)
}

/// Fixed-point sine of the angle `a`, in `[-UNIT, UNIT]`.
pub open spec fn sin_units(a: int) -> int {
    let x: int = norm_angle(a);
    if x <= HALF_TURN {
        sin_poly(x)
    } else {
        -sin_poly(x - HALF_TURN)
    }
}

/// Fixed-point cosine of the angle `a`, in `[-UNIT, UNIT]`.
pub open spec fn cos_units(a: int) -> int {
    sin_units(a + QUARTER_TURN)
}

pub proof fn lemma_norm_angle_bounds(a: int)
    ensures
        0 <= norm_angle(a) < TURN,
{
    lemma_mod_bound(a, TURN as int);
}

/// In `[0, HALF_TURN]` the product `x * (HALF_TURN - x)` stays within
/// `[0, HALF_TURN * HALF_TURN / 4]`.
proof fn lemma_sin_poly_product(x: int)
    requires
        0 <= x <= HALF_TURN,
    ensures
        0 <= x * (HALF_TURN - x),
        4 * (x * (HALF_TURN - x)) <= (HALF_TURN as int) * (HALF_TURN as int),
{
    assert(0 <= x * (HALF_TURN - x) && 4 * (x * (HALF_TURN - x)) <= (HALF_TURN as int) * (
    HALF_TURN as int)) by (nonlinear_arith)
        requires
            0 <= x <= HALF_TURN,
    ;
}

pub proof fn lemma_sin_poly_range(x: int)
    requires
        0 <= x <= HALF_TURN,
    ensures
        0 <= sin_poly(x) <= UNIT,
{
    let p: int = x * (HALF_TURN - x);
    let num: int = 16 * p * (UNIT as int);
    let den: int = 5 * (HALF_TURN as int) * (HALF_TURN as int) - 4 * p;
    lemma_sin_poly_product(x);
    assert(den >= (HALF_TURN as int) * (HALF_TURN as int) && num >= 0 && num <= (UNIT as int)
        * den) by (nonlinear_arith)
        requires
            0 <= p,
            4 * p <= (HALF_TURN as int) * (HALF_TURN as int),
            num == 16 * p * (UNIT as int),
            den == 5 * (HALF_TURN as int) * (HALF_TURN as int) - 4 * p,
    ;
    lemma_tdiv_nonneg(num, den);
    lemma_div_is_ordered(num, (UNIT as int) * den, den);
    lemma_div_by_multiple(UNIT as int, den);
}

pub proof fn lemma_sin_units_range(a: int)
    ensures
        -UNIT <= sin_units(a) <= UNIT,
{
    lemma_norm_angle_bounds(a);
    let x: int = norm_angle(a);
    if x <= HALF_TURN {
        lemma_sin_poly_range(x);
    } else {
        lemma_sin_poly_range(x - HALF_TURN);
    }
}

pub proof fn lemma_cos_units_range(a: int)
    ensures
        -UNIT <= cos_units(a) <= UNIT,
{
    lemma_sin_units_range(a + QUARTER_TURN);
}

/// Strictly inside the first half turn, the fixed-point sine is strictly
/// positive.
pub proof fn lemma_sin_poly_pos(x: int)
    requires
        1 <= x <= HALF_TURN - 1,
    ensures
        sin_poly(x) >= 1,
{
    let p: int = x * (HALF_TURN - x);
    let num: int = 16 * p * (UNIT as int);
    let den: int = 5 * (HALF_TURN as int) * (HALF_TURN as int) - 4 * p;
    lemma_sin_poly_product(x);
    assert(p >= HALF_TURN - 1 && num >= den && den >= 1) by (nonlinear_arith)
        requires
            1 <= x <= HALF_TURN - 1,
            p == x * (HALF_TURN - x),
            num == 16 * p * (UNIT as int),
            den == 5 * (HALF_TURN as int) * (HALF_TURN as int) - 4 * p,
            4 * p <= (HALF_TURN as int) * (HALF_TURN as int),
    ;
    lemma_div_is_ordered(den, num, den);
    lemma_div_by_self(den);
}

/// For a deflection strictly inside a quarter turn either way, the
/// fixed-point cosine is strictly positive.
pub proof fn lemma_cos_units_pos(d: int)
    requires
        -QUARTER_TURN < d < QUARTER_TURN,
    ensures
        cos_units(d) >= 1,
{
    let x: int = norm_angle(d + QUARTER_TURN);
    assert(x == d + QUARTER_TURN) by {
        lemma_small_mod((d + QUARTER_TURN) as nat, TURN as nat);
    }
    lemma_sin_poly_pos(x);
}

/// The representative of `a` in `[0, TURN)`, executable form.
pub fn angle_norm(a: i64) -> (r: i64)
    requires
        a > i64::MIN,
    ensures
        r == norm_angle(a as int),
        0 <= r < TURN,
{
    proof {
        lemma_norm_angle_bounds(a as int);
    }
    if a >= 0 {
        let r: i64 = ((a as u64) % (TURN as u64)) as i64;
        proof {
            lemma_mod_bound(a as int, TURN as int);
        }
        r
    } else {
        let k: u64 = (-a) as u64;
        let m: u64 = k % (TURN as u64);
        proof {
            lemma_mod_bound(k as int, TURN as int);
            lemma_fundamental_div_mod(k as int, TURN as int);
            if m == 0 {
                lemma_fundamental_div_mod_converse_mod(
                    a as int,
                    TURN as int,
                    -((k as int) / (TURN as int)),
                    0,
                );
            } else {
                lemma_fundamental_div_mod_converse_mod(
                    a as int,
                    TURN as int,
                    -((k as int) / (TURN as int)) - 1,
                    TURN - m,
                );
            }
        }
        if m == 0 {
            0
        } else {
            TURN - (m as i64)
        }
    }
}

/// Executable fixed-point sine over `[0, HALF_TURN]`.
fn sin_poly_exec(x: i64) -> (r: i64)
    requires
        0 <= x <= HALF_TURN,
    ensures
        r == sin_poly(x as int),
        0 <= r <= UNIT,
{
    proof {
        lemma_sin_poly_product(x as int);
        lemma_sin_poly_range(x as int);
        assert(x as int * (HALF_TURN - x) <= (HALF_TURN as int) * (HALF_TURN as int)) by (
        nonlinear_arith)
            requires
                0 <= x <= HALF_TURN,
        ;
        assert((HALF_TURN as int) * (HALF_TURN as int) == 116_640_000) by (nonlinear_arith);
    }
    let p: i64 = x * (HALF_TURN - x);
    let num: i64 = 16 * p * UNIT;
    let den: i64 = 5 * (HALF_TURN * HALF_TURN) - 4 * p;
    proof {
        lemma_tdiv_nonneg(num as int, den as int);
    }
    num / den
}

/// Executable fixed-point sine of any angle.
pub fn sin_fp(a: i64) -> (r: i64)
    requires
        a > i64::MIN,
    ensures
        r == sin_units(a as int),
        -UNIT <= r <= UNIT,
{
    let x: i64 = angle_norm(a);
    if x <= HALF_TURN {
        sin_poly_exec(x)
    } else {
        let v: i64 = sin_poly_exec(x - HALF_TURN);
        -v
    }
}

/// Executable fixed-point cosine of any angle.
pub fn cos_fp(a: i64) -> (r: i64)
    requires
        a > i64::MIN,
        a <= i64::MAX - QUARTER_TURN,
    ensures
        r == cos_units(a as int),
        -UNIT <= r <= UNIT,
{
    sin_fp(a + QUARTER_TURN)
}

} // verus!
