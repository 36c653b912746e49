//! Exact two-dimensional vectors over `i64` coordinates.
//!
//! Rotation and projection go through the fixed-point directions of
//! `crate::angle`; their specification mirrors (`rot_vec`, `project`) are
//! what every shape contract is stated over.

use vstd::prelude::*;
use crate::num::{tdiv, iabs, sqrt_floor, isqrt128, lemma_tdiv_mag, lemma_sqrt_floor_unique};
use crate::angle::{UNIT, sin_units, cos_units, sin_fp, cos_fp, lemma_sin_units_range,
    lemma_cos_units_range};

verus! {

/// Coordinate magnitude up to which a vector may be rotated.
pub const ROT_MAX: i64 = 10_000_000_000_000;

/// Coordinate magnitude up to which a vector may be projected on a
/// direction.
pub const PROJ_MAX: i64 = 10_000_000_000_000;

/// Coordinate magnitude up to which vectors may be added.
pub const TRANS_MAX: i64 = 1_000_000_000_000_000_000;

/// Coordinate magnitude up to which a vector has a measurable length.
pub const MAG_MAX: i64 = 3_000_000_000;

#[derive(Clone, Copy, Debug, PartialEq, Eq, Structural)]
pub struct Vec2 {
    pub x: i64,
    pub y: i64,
}

/// The componentwise sum, as stored (exact whenever it fits).
pub open spec fn vec_plus(a: Vec2, b: Vec2) -> Vec2 {
    Vec2 { x: (a.x + b.x) as i64, y: (a.y + b.y) as i64 }
}

/// The componentwise negation, as stored (exact whenever it fits).
pub open spec fn vec_neg(a: Vec2) -> Vec2 {
    Vec2 { x: (-a.x) as i64, y: (-a.y) as i64 }
}

/// The projection of `v` onto the unit direction at `angle`, scaled back
/// from fixed point.
pub open spec fn project(v: Vec2, angle: int) -> int {
    tdiv(v.x * cos_units(angle) + v.y * sin_units(angle), UNIT as int)
}

/// `v` rotated by `angle`, in fixed-point arithmetic.
pub open spec fn rot_vec(v: Vec2, angle: int) -> Vec2 {
    let c: int = cos_units(angle);
    let s: int = sin_units(angle);
    Vec2 {
        x: tdiv(v.x * c - v.y * s, UNIT as int) as i64,
        y: tdiv(v.x * s + v.y * c, UNIT as int) as i64,
    }
}

/// The squared Euclidean length.
pub open spec fn mag2(v: Vec2) -> int {
    v.x * v.x + v.y * v.y
}

/// The Euclidean length rounded down.
pub open spec fn norm(v: Vec2) -> int {
    sqrt_floor(mag2(v) as nat) as int
}

impl Vec2 {
    /// Both coordinates have magnitude at most `b`.
    pub open spec fn bounded(self, b: int) -> bool {
        iabs(self.x as int) <= b && iabs(self.y as int) <= b
    }

    pub fn new(x: i64, y: i64) -> (r: Vec2)
        ensures
            r == (Vec2 { x, y }),
    {
        Vec2 { x, y }
    }

    pub fn zero() -> (r: Vec2)
        ensures
            r == (Vec2 { x: 0i64, y: 0i64 }),
    {
        Vec2 { x: 0, y: 0 }
    }

    pub fn plus(self, o: Vec2) -> (r: Vec2)
        requires
            self.bounded(TRANS_MAX as int),
            o.bounded(TRANS_MAX as int),
        ensures
            r == vec_plus(self, o),
            r.x == self.x + o.x,
            r.y == self.y + o.y,
    {
        Vec2 { x: self.x + o.x, y: self.y + o.y }
    }

    pub fn negate(self) -> (r: Vec2)
        requires
            self.x > i64::MIN,
            self.y > i64::MIN,
        ensures
            r == vec_neg(self),
            r.x == -self.x,
            r.y == -self.y,
    {
        Vec2 { x: -self.x, y: -self.y }
    }

    /// Projection of this vector onto the unit direction at `angle`.
    pub fn project_dir(self, angle: i64) -> (r: i64)
        requires
            self.bounded(PROJ_MAX as int),
            angle > i64::MIN,
            angle <= i64::MAX - crate::angle::QUARTER_TURN,
        ensures
            r == project(self, angle as int),
            iabs(r as int) <= iabs(self.x as int) + iabs(self.y as int),
    {
        let c: i64 = cos_fp(angle);
        let s: i64 = sin_fp(angle);
        proof {
            assert(iabs(self.x as int * c) <= (PROJ_MAX as int) * (UNIT as int) && iabs(
            self.y as int * s) <= (PROJ_MAX as int) * (UNIT as int) && iabs(
            self.x as int * c + self.y as int * s) <= (iabs(self.x as int) + iabs(self.y as int))
                * (UNIT as int)) by (nonlinear_arith)
                requires
                    -UNIT <= c <= UNIT,
                    -UNIT <= s <= UNIT,
                    iabs(self.x as int) <= PROJ_MAX,
                    iabs(self.y as int) <= PROJ_MAX,
            ;
            assert((PROJ_MAX as int) * (UNIT as int) * 2 < i64::MAX) by (nonlinear_arith);
            lemma_tdiv_mag(
                self.x as int * c + self.y as int * s,
                UNIT as int,
                iabs(self.x as int) + iabs(self.y as int),
            );
        }
        let px: i64 = self.x * c;
        let py: i64 = self.y * s;
        crate::num::tdiv_exec(px + py, UNIT)
    }

    /// This vector rotated by `angle`.
    pub fn rotated(self, angle: i64) -> (r: Vec2)
        requires
            self.bounded(ROT_MAX as int),
            angle > i64::MIN,
            angle <= i64::MAX - crate::angle::QUARTER_TURN,
        ensures
            r == rot_vec(self, angle as int),
            r.bounded(iabs(self.x as int) + iabs(self.y as int)),
    {
        let c: i64 = cos_fp(angle);
        let s: i64 = sin_fp(angle);
        proof {
            let m: int = iabs(self.x as int) + iabs(self.y as int);
            assert(iabs(self.x as int * c) <= (ROT_MAX as int) * (UNIT as int) && iabs(
            self.y as int * s) <= (ROT_MAX as int) * (UNIT as int) && iabs(self.x as int * s) <= (
            ROT_MAX as int) * (UNIT as int) && iabs(self.y as int * c) <= (ROT_MAX as int) * (
            UNIT as int) && iabs(self.x as int * c - self.y as int * s) <= m * (UNIT as int)
                && iabs(self.x as int * s + self.y as int * c) <= m * (UNIT as int)) by (
            nonlinear_arith)
                requires
                    -UNIT <= c <= UNIT,
                    -UNIT <= s <= UNIT,
                    m == iabs(self.x as int) + iabs(self.y as int),
                    iabs(self.x as int) <= ROT_MAX,
                    iabs(self.y as int) <= ROT_MAX,
            ;
            assert((ROT_MAX as int) * (UNIT as int) * 2 < i64::MAX) by (nonlinear_arith);
            lemma_tdiv_mag(self.x as int * c - self.y as int * s, UNIT as int, m);
            lemma_tdiv_mag(self.x as int * s + self.y as int * c, UNIT as int, m);
        }
        let rx: i64 = crate::num::tdiv_exec(self.x * c - self.y * s, UNIT);
        let ry: i64 = crate::num::tdiv_exec(self.x * s + self.y * c, UNIT);
        Vec2 { x: rx, y: ry }
    }

    /// The Euclidean length of this vector, rounded down.
    pub fn magnitude(self) -> (r: i64)
        requires
            self.bounded(MAG_MAX as int),
        ensures
            r == norm(self),
            0 <= r,
            r * r <= mag2(self),
    {
        proof {
            assert(0 <= mag2(self) <= u128::MAX) by (nonlinear_arith)
                requires
                    iabs(self.x as int) <= MAG_MAX,
                    iabs(self.y as int) <= MAG_MAX,
                    mag2(self) == self.x as int * self.x as int + self.y as int * self.y as int,
            ;
        }
        let mx: u64 = crate::num::mag64(self.x);
        let my: u64 = crate::num::mag64(self.y);
        proof {
            assert((mx as int) * (mx as int) == self.x as int * self.x as int && (my as int) * (
            my as int) == self.y as int * self.y as int && (mx as int) * (mx as int) + (my as int)
                * (my as int) <= 2 * (MAG_MAX as int) * (MAG_MAX as int) && 2 * (MAG_MAX as int)
                * (MAG_MAX as int) <= u128::MAX) by (nonlinear_arith)
                requires
                    mx == iabs(self.x as int),
                    my == iabs(self.y as int),
                    mx <= MAG_MAX,
                    my <= MAG_MAX,
            ;
        }
        let m2: u128 = (mx as u128) * (mx as u128) + (my as u128) * (my as u128);
        let r: u128 = isqrt128(m2);
        proof {
            assert(m2 == mag2(self));
            assert(r * r <= m2);
            assert(r <= 2 * (MAG_MAX as int)) by (nonlinear_arith)
                requires
                    r * r <= m2,
                    m2 <= 2 * (MAG_MAX as int) * (MAG_MAX as int),
                    r >= 0,
            ;
        }
        r as i64
    }
}

/// The projection of a `b`-bounded vector is bounded by `2 * b`.
pub proof fn lemma_project_bounds(v: Vec2, angle: int, b: int)
    requires
        v.bounded(b),
        b >= 0,
    ensures
        iabs(project(v, angle)) <= 2 * b,
{
    lemma_sin_units_range(angle);
    lemma_cos_units_range(angle);
    let c: int = cos_units(angle);
    let s: int = sin_units(angle);
    assert(iabs(v.x as int * c) <= b * (UNIT as int)) by (nonlinear_arith)
        requires
            -UNIT <= c <= UNIT,
            iabs(v.x as int) <= b,
            b >= 0,
    ;
    assert(iabs(v.y as int * s) <= b * (UNIT as int)) by (nonlinear_arith)
        requires
            -UNIT <= s <= UNIT,
            iabs(v.y as int) <= b,
            b >= 0,
    ;
    lemma_tdiv_mag(v.x as int * c + v.y as int * s, UNIT as int, 2 * b);
}

/// A rotated vector is bounded by the sum of its coordinate magnitudes.
pub proof fn lemma_rot_vec_bounds(v: Vec2, angle: int)
    requires
        iabs(v.x as int) + iabs(v.y as int) <= i64::MAX,
    ensures
        rot_vec(v, angle).bounded(iabs(v.x as int) + iabs(v.y as int)),
{
    let c: int = cos_units(angle);
    let s: int = sin_units(angle);
    lemma_sin_units_range(angle);
    lemma_cos_units_range(angle);
    assert(iabs(v.x as int * c) <= iabs(v.x as int) * (UNIT as int) && iabs(v.x as int * s)
        <= iabs(v.x as int) * (UNIT as int)) by (nonlinear_arith)
        requires
            -UNIT <= c <= UNIT,
            -UNIT <= s <= UNIT,
    ;
    assert(iabs(v.y as int * c) <= iabs(v.y as int) * (UNIT as int) && iabs(v.y as int * s)
        <= iabs(v.y as int) * (UNIT as int)) by (nonlinear_arith)
        requires
            -UNIT <= c <= UNIT,
            -UNIT <= s <= UNIT,
    ;
    let m: int = iabs(v.x as int) + iabs(v.y as int);
    assert(iabs(v.x as int) * (UNIT as int) + iabs(v.y as int) * (UNIT as int) == m * (
    UNIT as int)) by (nonlinear_arith)
        requires
            m == iabs(v.x as int) + iabs(v.y as int),
    ;
    lemma_tdiv_mag(v.x as int * c - v.y as int * s, UNIT as int, m);
    lemma_tdiv_mag(v.x as int * s + v.y as int * c, UNIT as int, m);
}

/// Rotating the zero vector gives the zero vector, exactly.
pub proof fn lemma_rot_vec_zero(angle: int)
    ensures
        rot_vec(Vec2 { x: 0i64, y: 0i64 }, angle) == (Vec2 { x: 0i64, y: 0i64 }),
{
    let z = Vec2 { x: 0i64, y: 0i64 };
    let c: int = cos_units(angle);
    let s: int = sin_units(angle);
    assert(z.x as int * c - z.y as int * s == 0 && z.x as int * s + z.y as int * c == 0) by (
    nonlinear_arith)
        requires
            z.x == 0i64,
            z.y == 0i64,
    ;
    assert(tdiv(0, UNIT as int) == 0) by {
        vstd::arithmetic::div_mod::lemma_div_of0(UNIT as int);
    }
}

} // verus!
