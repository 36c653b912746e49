//! Shape value types and their boundary queries.
//!
//! Every shape answers outer-boundary queries (coordinate ranges,
//! circumradius, directional support radius) and inner-boundary queries
//! (inradius, directional inner radius), and is mutated only through the
//! three affine operations `translate`, `rotate` and `scale`.
//!
//! Shapes with a positional offset store it as the negative vector from
//! the shape's local origin to its true center; `rotate` therefore turns
//! the offset by the negated angle, keeping the shape's own features fixed
//! in local coordinates, and `translate` adds to the offset directly.
//! Every query and transform is specified exactly against a spec-level
//! mirror over the fixed-point arithmetic of `crate::num` and
//! `crate::angle`.

use vstd::prelude::*;
use crate::num::{tdiv, cdiv, iabs, imax, imin, sqrt_floor, Ratio, COORD_MAX, tdiv_exec,
    tdiv_exec128, cdiv_exec, isqrt, lemma_tdiv_mag, lemma_tdiv_nonneg, lemma_sqrt_floor_bracket};
use crate::angle::{TURN, HALF_TURN, UNIT, QUARTER_TURN, ANGLE_MAX, sin_units, cos_units, cos_fp,
    sin_fp, lemma_sin_units_range, lemma_cos_units_range};
use crate::vec2::{Vec2, vec_plus, vec_neg, project, rot_vec, mag2, norm, ROT_MAX, TRANS_MAX,
    lemma_project_bounds, lemma_rot_vec_bounds};

verus! {

/// Largest coordinate magnitude a polygon vertex handed to the generic
/// polygon queries may have.
pub const VERTEX_MAX: i64 = 2_000_000_000;

/// Largest side count of a regular polygon.
pub const MAX_SIDES: usize = 3600;

/// A closed interval of coordinates.
#[derive(Clone, Copy, Debug, PartialEq, Eq, Structural)]
pub struct CoordRange {
    pub lo: i64,
    pub hi: i64,
}

/// A circle: a radius and the stored offset of its center.
#[derive(Clone, Copy, Debug, PartialEq, Eq, Structural)]
pub struct Circle {
    pub radius: i64,
    pub offset: Vec2,
}

/// The circle produced by `translate`.
pub open spec fn circle_translate(c: Circle, amount: Vec2) -> Circle {
    Circle { radius: c.radius, offset: vec_plus(c.offset, amount) }
}

/// The circle produced by `rotate`: the offset turns by the negated angle.
pub open spec fn circle_rotate(c: Circle, angle: int) -> Circle {
    Circle { radius: c.radius, offset: rot_vec(c.offset, -angle) }
}

/// The circle produced by `scale`.
pub open spec fn circle_scale(c: Circle, f: Ratio) -> Circle {
    Circle {
        radius: f.apply(c.radius as int) as i64,
        offset: Vec2 { x: f.apply(c.offset.x as int) as i64, y: f.apply(c.offset.y as int) as i64 },
    }
}

/// Support radius of a circle in the direction at `angle`.
pub open spec fn circle_radius_at(c: Circle, angle: int) -> int {
    project(c.offset, angle) + c.radius
}

/// Circumradius of a circle about the local origin.
pub open spec fn circle_radius(c: Circle) -> int {
    c.radius + norm(c.offset)
}

/// Inradius of a circle about the local origin, clamped at zero.
pub open spec fn circle_inner_radius(c: Circle) -> int {
    if c.radius - norm(c.offset) >= 0 {
        c.radius - norm(c.offset)
    } else {
        0
    }
}

impl Circle {
    /// The radius is never negative; a radius-zero circle is a point.
    pub open spec fn wf(self) -> bool {
        self.radius >= 0
    }

    /// Every stored scalar has magnitude at most `b`.
    pub open spec fn bounded(self, b: int) -> bool {
        iabs(self.radius as int) <= b && self.offset.bounded(b)
    }

    pub fn new(radius: i64, center: Vec2) -> (r: Circle)
        requires
            radius >= 0,
            center.x > i64::MIN,
            center.y > i64::MIN,
        ensures
            r == (Circle { radius, offset: vec_neg(center) }),
            r.wf(),
    {
        Circle { radius, offset: center.negate() }
    }

    pub fn from_radius(radius: i64) -> (r: Circle)
        requires
            radius >= 0,
        ensures
            r == (Circle { radius, offset: Vec2 { x: 0i64, y: 0i64 } }),
            r.wf(),
    {
        Circle { radius, offset: Vec2::zero() }
    }

    pub fn radius(&self) -> (r: i64)
        ensures
            r == self.radius,
    {
        self.radius
    }

    pub fn center(&self) -> (r: Vec2)
        requires
            self.offset.x > i64::MIN,
            self.offset.y > i64::MIN,
        ensures
            r == vec_neg(self.offset),
    {
        self.offset.negate()
    }

    /// Axis-aligned ranges covered by the circle's outer boundary.
    pub fn convex_coords_range(&self) -> (r: (CoordRange, CoordRange))
        requires
            self.wf(),
            self.bounded(COORD_MAX as int),
        ensures
            r.0 == (CoordRange {
                lo: (self.offset.x - self.radius) as i64,
                hi: (self.offset.x + self.radius) as i64,
            }),
            r.1 == (CoordRange {
                lo: (self.offset.y - self.radius) as i64,
                hi: (self.offset.y + self.radius) as i64,
            }),
    {
        (
            CoordRange { lo: self.offset.x - self.radius, hi: self.offset.x + self.radius },
            CoordRange { lo: self.offset.y - self.radius, hi: self.offset.y + self.radius },
        )
    }

    /// Circumradius: every point of the circle is within this distance of
    /// the local origin.
    pub fn convex_radius(&self) -> (r: i64)
        requires
            self.wf(),
            self.bounded(COORD_MAX as int),
        ensures
            r == circle_radius(*self),
            0 <= r <= 3 * COORD_MAX,
    {
        proof {
            assert(mag2(self.offset) >= 0) by (nonlinear_arith)
                requires
                    mag2(self.offset) == self.offset.x as int * self.offset.x as int
                        + self.offset.y as int * self.offset.y as int,
            ;
            crate::num::lemma_sqrt_floor_bracket(mag2(self.offset) as nat);
            assert(norm(self.offset) <= 2 * (COORD_MAX as int)) by (nonlinear_arith)
                requires
                    norm(self.offset) * norm(self.offset) <= mag2(self.offset),
                    mag2(self.offset) == self.offset.x as int * self.offset.x as int
                        + self.offset.y as int * self.offset.y as int,
                    iabs(self.offset.x as int) <= COORD_MAX,
                    iabs(self.offset.y as int) <= COORD_MAX,
                    norm(self.offset) >= 0,
            ;
        }
        self.radius + self.offset.magnitude()
    }

    /// Support radius in the direction at `angle`: the projection of the
    /// stored offset plus the radius.
    pub fn convex_radius_at(&self, angle: i64) -> (r: i64)
        requires
            self.wf(),
            self.bounded(COORD_MAX as int),
            angle > i64::MIN,
            angle <= i64::MAX - QUARTER_TURN,
        ensures
            r == circle_radius_at(*self, angle as int),
            iabs(r as int) <= 3 * COORD_MAX,
    {
        proof {
            lemma_project_bounds(self.offset, angle as int, COORD_MAX as int);
        }
        self.offset.project_dir(angle) + self.radius
    }

    /// Inradius: the largest distance such that the disc of that radius
    /// about the local origin stays inside the circle; zero when the
    /// origin lies outside.
    pub fn inner_radius(&self) -> (r: i64)
        requires
            self.wf(),
            self.bounded(COORD_MAX as int),
        ensures
            r == circle_inner_radius(*self),
            0 <= r <= self.radius,
    {
        let n: i64 = self.offset.magnitude();
        if self.radius >= n {
            self.radius - n
        } else {
            0
        }
    }

    pub fn translate(&mut self, amount: Vec2)
        requires
            old(self).bounded(TRANS_MAX as int),
            amount.bounded(TRANS_MAX as int),
        ensures
            *final(self) == circle_translate(*old(self), amount),
            final(self).radius == old(self).radius,
            final(self).offset.x == old(self).offset.x + amount.x,
            final(self).offset.y == old(self).offset.y + amount.y,
    {
        self.offset = self.offset.plus(amount);
    }

    pub fn rotate(&mut self, angle: i64)
        requires
            old(self).bounded(ROT_MAX as int),
            iabs(angle as int) <= ANGLE_MAX,
        ensures
            *final(self) == circle_rotate(*old(self), angle as int),
            final(self).radius == old(self).radius,
            final(self).offset.bounded(2 * iabs_max(old(self).offset)),
    {
        proof {
            lemma_rot_vec_bounds(self.offset, -angle as int);
        }
        self.offset = self.offset.rotated(-angle);
    }

    pub fn scale(&mut self, factor: Ratio)
        requires
            old(self).bounded(COORD_MAX as int),
            factor.wf(),
        ensures
            *final(self) == circle_scale(*old(self), factor),
            old(self).wf() ==> final(self).wf(),
            final(self).bounded(scale_bound(factor)),
    {
        proof {
            if old(self).wf() {
                assert(self.radius as int * factor.num >= 0) by (nonlinear_arith)
                    requires
                        self.radius >= 0,
                        factor.num >= 0,
                ;
                lemma_tdiv_nonneg(self.radius as int * factor.num as int, factor.den as int);
            }
        }
        self.radius = factor.scale_val(self.radius);
        self.offset = Vec2 {
            x: factor.scale_val(self.offset.x),
            y: factor.scale_val(self.offset.y),
        };
        proof {
            lemma_scale_bound(*old(self), factor);
        }
    }
}

/// The larger coordinate magnitude of a vector.
pub open spec fn iabs_max(v: Vec2) -> int {
    if iabs(v.x as int) >= iabs(v.y as int) {
        iabs(v.x as int)
    } else {
        iabs(v.y as int)
    }
}

/// Bound on any scalar scaled from the layout coordinate domain.
pub open spec fn scale_bound(f: Ratio) -> int {
    (COORD_MAX as int) * f.num
}

proof fn lemma_scale_bound(c: Circle, f: Ratio)
    requires
        c.bounded(COORD_MAX as int),
        f.wf(),
    ensures
        iabs(f.apply(c.radius as int)) <= scale_bound(f),
        iabs(f.apply(c.offset.x as int)) <= scale_bound(f),
        iabs(f.apply(c.offset.y as int)) <= scale_bound(f),
{
    lemma_apply_bound(c.radius as int, f);
    lemma_apply_bound(c.offset.x as int, f);
    lemma_apply_bound(c.offset.y as int, f);
}

/// Scaling a value from the layout coordinate domain keeps it within
/// `COORD_MAX * f.num`.
pub proof fn lemma_apply_bound(v: int, f: Ratio)
    requires
        iabs(v) <= COORD_MAX,
        f.wf(),
    ensures
        iabs(f.apply(v)) <= scale_bound(f),
{
    assert(iabs(v * f.num) <= (COORD_MAX as int) * f.num && (COORD_MAX as int) * f.num <= ((
    COORD_MAX as int) * f.num) * f.den && (COORD_MAX as int) * f.num >= 0) by (nonlinear_arith)
        requires
            iabs(v) <= COORD_MAX,
            0 <= f.num,
            1 <= f.den,
    ;
    lemma_tdiv_mag(v * f.num, f.den as int, (COORD_MAX as int) * f.num);
}

/// A line segment between two endpoints.
#[derive(Clone, Copy, Debug, PartialEq, Eq, Structural)]
pub struct Line {
    pub start: Vec2,
    pub end: Vec2,
}

pub open spec fn line_translate(l: Line, amount: Vec2) -> Line {
    Line { start: vec_plus(l.start, amount), end: vec_plus(l.end, amount) }
}

pub open spec fn line_rotate(l: Line, angle: int) -> Line {
    Line { start: rot_vec(l.start, angle), end: rot_vec(l.end, angle) }
}

pub open spec fn line_scale(l: Line, f: Ratio) -> Line {
    Line {
        start: Vec2 { x: f.apply(l.start.x as int) as i64, y: f.apply(l.start.y as int) as i64 },
        end: Vec2 { x: f.apply(l.end.x as int) as i64, y: f.apply(l.end.y as int) as i64 },
    }
}

/// Squared length of a vector from the layout coordinate domain.
pub fn mag2_exec(v: Vec2) -> (r: i64)
    requires
        v.bounded(COORD_MAX as int),
    ensures
        r == mag2(v),
        0 <= r <= 2_000_000_000_000_000_000,
{
    proof {
        assert(0 <= v.x as int * v.x as int <= 1_000_000_000_000_000_000 && 0 <= v.y as int
            * v.y as int <= 1_000_000_000_000_000_000) by (nonlinear_arith)
            requires
                iabs(v.x as int) <= COORD_MAX,
                iabs(v.y as int) <= COORD_MAX,
        ;
    }
    v.x * v.x + v.y * v.y
}

/// Squared length of a vector within three times the layout coordinate
/// domain, wide enough for perpendicular feet.
pub fn mag2_exec_wide(v: Vec2) -> (r: u64)
    requires
        v.bounded(3 * COORD_MAX as int),
    ensures
        r == mag2(v),
        r <= 18_000_000_000_000_000_000u64,
{
    let mx: u64 = crate::num::mag64(v.x);
    let my: u64 = crate::num::mag64(v.y);
    proof {
        assert((mx as int) * (mx as int) == v.x as int * v.x as int && (my as int) * (my as int)
            == v.y as int * v.y as int && (mx as int) * (mx as int) + (my as int) * (my as int)
            <= 18_000_000_000_000_000_000) by (nonlinear_arith)
            requires
                mx == iabs(v.x as int),
                my == iabs(v.y as int),
                mx <= 3 * COORD_MAX,
                my <= 3 * COORD_MAX,
        ;
    }
    mx * mx + my * my
}

/// The foot used by the line queries: for a degenerate segment the
/// endpoint itself stands in for the perpendicular foot.
pub open spec fn line_foot(l: Line) -> Vec2 {
    if l.start == l.end {
        l.start
    } else {
        foot_of(l.start, l.end)
    }
}

/// Circumradius of a segment: the farther endpoint.
pub open spec fn line_radius(l: Line) -> int {
    sqrt_floor(imax(mag2(l.start), mag2(l.end)) as nat) as int
}

/// Distance from the local origin to the infinite line through the
/// segment; a segment has no angular extent of its own, so the support
/// query answers this for every direction.
pub open spec fn line_radius_at(l: Line) -> int {
    sqrt_floor(mag2(line_foot(l)) as nat) as int
}

impl Line {
    pub open spec fn bounded(self, b: int) -> bool {
        self.start.bounded(b) && self.end.bounded(b)
    }

    /// Axis-aligned ranges covered by the segment.
    pub fn convex_coords_range(&self) -> (r: (CoordRange, CoordRange))
        requires
            self.bounded(COORD_MAX as int),
        ensures
            r.0.lo == imin(self.start.x as int, self.end.x as int),
            r.0.hi == imax(self.start.x as int, self.end.x as int),
            r.1.lo == imin(self.start.y as int, self.end.y as int),
            r.1.hi == imax(self.start.y as int, self.end.y as int),
    {
        let x_lo: i64 = if self.start.x <= self.end.x {
            self.start.x
        } else {
            self.end.x
        };
        let x_hi: i64 = if self.start.x >= self.end.x {
            self.start.x
        } else {
            self.end.x
        };
        let y_lo: i64 = if self.start.y <= self.end.y {
            self.start.y
        } else {
            self.end.y
        };
        let y_hi: i64 = if self.start.y >= self.end.y {
            self.start.y
        } else {
            self.end.y
        };
        (CoordRange { lo: x_lo, hi: x_hi }, CoordRange { lo: y_lo, hi: y_hi })
    }

    pub fn convex_radius(&self) -> (r: i64)
        requires
            self.bounded(COORD_MAX as int),
        ensures
            r == line_radius(*self),
            0 <= r <= 2 * COORD_MAX,
    {
        let ms: i64 = mag2_exec(self.start);
        let me: i64 = mag2_exec(self.end);
        let m: i64 = if ms >= me {
            ms
        } else {
            me
        };
        proof {
            lemma_sqrt_floor_bracket(m as nat);
            let s: int = sqrt_floor(m as nat) as int;
            assert(s <= 2 * (COORD_MAX as int)) by (nonlinear_arith)
                requires
                    s * s <= m as int,
                    0 <= s,
                    m <= 2_000_000_000_000_000_000i64,
            ;
        }
        isqrt(m as u64) as i64
    }

    /// Distance from the local origin to the line through the segment;
    /// the direction is accepted for interface uniformity but a bare
    /// segment supports every direction at the same distance.
    pub fn convex_radius_at(&self, _angle: i64) -> (r: i64)
        requires
            self.bounded(COORD_MAX as int),
        ensures
            r == line_radius_at(*self),
            0 <= r <= 5 * COORD_MAX,
    {
        let f: Vec2 = if self.start.x == self.end.x && self.start.y == self.end.y {
            self.start
        } else {
            vector_to_line(self.start, self.end)
        };
        proof {
            assert(f == line_foot(*self));
            assert(f.bounded(3 * COORD_MAX as int));
        }
        let m: u64 = mag2_exec_wide(f);
        proof {
            lemma_sqrt_floor_bracket(m as nat);
            let s: int = sqrt_floor(m as nat) as int;
            assert(s <= 5 * (COORD_MAX as int)) by (nonlinear_arith)
                requires
                    s * s <= m as int,
                    0 <= s,
                    m <= 18_000_000_000_000_000_000u64,
            ;
        }
        isqrt(m) as i64
    }

    pub fn new(start: Vec2, end: Vec2) -> (r: Line)
        ensures
            r == (Line { start, end }),
    {
        Line { start, end }
    }

    /// A segment rotates both endpoints; unlike the shapes with a stored
    /// offset, its points are world coordinates, so the angle is applied
    /// directly.
    pub fn rotate(&mut self, angle: i64)
        requires
            old(self).bounded(ROT_MAX as int),
            iabs(angle as int) <= ANGLE_MAX,
        ensures
            *final(self) == line_rotate(*old(self), angle as int),
    {
        self.start = self.start.rotated(angle);
        self.end = self.end.rotated(angle);
    }

    pub fn translate(&mut self, amount: Vec2)
        requires
            old(self).bounded(TRANS_MAX as int),
            amount.bounded(TRANS_MAX as int),
        ensures
            *final(self) == line_translate(*old(self), amount),
    {
        self.start = self.start.plus(amount);
        self.end = self.end.plus(amount);
    }

    pub fn scale(&mut self, factor: Ratio)
        requires
            old(self).bounded(COORD_MAX as int),
            factor.wf(),
        ensures
            *final(self) == line_scale(*old(self), factor),
    {
        self.start = Vec2 {
            x: factor.scale_val(self.start.x),
            y: factor.scale_val(self.start.y),
        };
        self.end = Vec2 { x: factor.scale_val(self.end.x), y: factor.scale_val(self.end.y) };
    }
}

/// The foot of the perpendicular from the local origin onto the infinite
/// line through `from` and `to`; meaningful only for distinct endpoints.
pub open spec fn foot_of(from: Vec2, to: Vec2) -> Vec2 {
    let dx: int = to.x - from.x;
    let dy: int = to.y - from.y;
    let den: int = dx * dx + dy * dy;
    let fac: int = -(from.x * dx + from.y * dy);
    Vec2 {
        x: (from.x + tdiv(fac * dx, den)) as i64,
        y: (from.y + tdiv(fac * dy, den)) as i64,
    }
}

/// The Cauchy-Schwarz inequality for two-dimensional integer vectors.
proof fn lemma_cauchy_schwarz(ax: int, ay: int, bx: int, by: int)
    ensures
        (ax * bx + ay * by) * (ax * bx + ay * by) <= (ax * ax + ay * ay) * (bx * bx + by * by),
{
    let p: int = ax * bx;
    let q: int = ay * by;
    let u: int = ax * by;
    let w: int = ay * bx;
    assert(p * q == u * w) by (nonlinear_arith)
        requires
            p == ax * bx,
            q == ay * by,
            u == ax * by,
            w == ay * bx,
    ;
    assert(p * p == (ax * ax) * (bx * bx)) by (nonlinear_arith)
        requires
            p == ax * bx,
    ;
    assert(q * q == (ay * ay) * (by * by)) by (nonlinear_arith)
        requires
            q == ay * by,
    ;
    assert(u * u == (ax * ax) * (by * by)) by (nonlinear_arith)
        requires
            u == ax * by,
    ;
    assert(w * w == (ay * ay) * (bx * bx)) by (nonlinear_arith)
        requires
            w == ay * bx,
    ;
    assert((ax * ax + ay * ay) * (bx * bx + by * by) == (ax * ax) * (bx * bx) + (ax * ax) * (by
        * by) + (ay * ay) * (bx * bx) + (ay * ay) * (by * by)) by (nonlinear_arith);
    assert((p + q) * (p + q) == p * p + 2 * (p * q) + q * q) by (nonlinear_arith);
    assert((u - w) * (u - w) == u * u - 2 * (u * w) + w * w) by (nonlinear_arith);
    assert((u - w) * (u - w) >= 0) by (nonlinear_arith);
}

/// The correction the foot formula adds to an endpoint never exceeds
/// twice the endpoint bound: the foot of a perpendicular is no farther
/// from the origin than the endpoints are.
proof fn lemma_foot_shift_bound(fx: int, fy: int, dx: int, dy: int, b: int)
    requires
        iabs(fx) <= b,
        iabs(fy) <= b,
        b >= 0,
        dx * dx + dy * dy >= 1,
    ensures
        iabs(tdiv(-(fx * dx + fy * dy) * dx, dx * dx + dy * dy)) <= 2 * b,
        iabs(tdiv(-(fx * dx + fy * dy) * dy, dx * dx + dy * dy)) <= 2 * b,
{
    let den: int = dx * dx + dy * dy;
    let fac: int = -(fx * dx + fy * dy);
    lemma_cauchy_schwarz(fx, fy, dx, dy);
    assert(fac * fac <= (fx * fx + fy * fy) * den) by (nonlinear_arith)
        requires
            fac == -(fx * dx + fy * dy),
            (fx * dx + fy * dy) * (fx * dx + fy * dy) <= (fx * fx + fy * fy) * (dx * dx + dy * dy),
            den == dx * dx + dy * dy,
    ;
    assert(fx * fx + fy * fy <= 4 * b * b) by (nonlinear_arith)
        requires
            iabs(fx) <= b,
            iabs(fy) <= b,
            b >= 0,
    ;
    assert(dx * dx <= den && dy * dy <= den) by (nonlinear_arith)
        requires
            den == dx * dx + dy * dy,
    ;
    assert(fac * fac <= (4 * b * b) * den) by (nonlinear_arith)
        requires
            fac * fac <= (fx * fx + fy * fy) * den,
            fx * fx + fy * fy <= 4 * b * b,
            den >= 1,
    ;
    assert((fac * dx) * (fac * dx) <= ((2 * b) * den) * ((2 * b) * den)) by (nonlinear_arith)
        requires
            fac * fac <= (4 * b * b) * den,
            dx * dx <= den,
            den >= 1,
            b >= 0,
    ;
    assert((fac * dy) * (fac * dy) <= ((2 * b) * den) * ((2 * b) * den)) by (nonlinear_arith)
        requires
            fac * fac <= (4 * b * b) * den,
            dy * dy <= den,
            den >= 1,
            b >= 0,
    ;
    assert(iabs(fac * dx) <= (2 * b) * den) by (nonlinear_arith)
        requires
            (fac * dx) * (fac * dx) <= ((2 * b) * den) * ((2 * b) * den),
            den >= 1,
            b >= 0,
    ;
    assert(iabs(fac * dy) <= (2 * b) * den) by (nonlinear_arith)
        requires
            (fac * dy) * (fac * dy) <= ((2 * b) * den) * ((2 * b) * den),
            den >= 1,
            b >= 0,
    ;
    lemma_tdiv_mag(fac * dx, den, 2 * b);
    lemma_tdiv_mag(fac * dy, den, 2 * b);
}

/// Perpendicular foot from the local origin onto the line through `from`
/// and `to`, executable form.
pub fn vector_to_line(from: Vec2, to: Vec2) -> (r: Vec2)
    requires
        from.bounded(VERTEX_MAX as int),
        to.bounded(VERTEX_MAX as int),
        from != to,
    ensures
        r == foot_of(from, to),
        r.bounded(3 * VERTEX_MAX),
        from.bounded(COORD_MAX as int) && to.bounded(COORD_MAX as int) ==> r.bounded(
            3 * COORD_MAX,
        ),
{
    let dx: i128 = (to.x as i128) - (from.x as i128);
    let dy: i128 = (to.y as i128) - (from.y as i128);
    proof {
        assert(dx != 0 || dy != 0) by {
            if dx == 0 && dy == 0 {
                assert(from.x == to.x && from.y == to.y);
                assert(from == to);
            }
        }
        assert(1 <= dx * dx + dy * dy <= 64_000_000_000_000_000_000 && 0 <= dx * dx
            <= 32_000_000_000_000_000_000 && 0 <= dy * dy <= 32_000_000_000_000_000_000 && iabs(
        from.x as int * dx) <= 8_000_000_000_000_000_000 && iabs(from.y as int * dy)
            <= 8_000_000_000_000_000_000) by (nonlinear_arith)
            requires
                iabs(dx as int) <= 2 * VERTEX_MAX,
                iabs(dy as int) <= 2 * VERTEX_MAX,
                dx != 0 || dy != 0,
                iabs(from.x as int) <= VERTEX_MAX,
                iabs(from.y as int) <= VERTEX_MAX,
        ;
    }
    let den: i128 = dx * dx + dy * dy;
    let fac: i128 = -((from.x as i128) * dx + (from.y as i128) * dy);
    proof {
        lemma_foot_shift_bound(from.x as int, from.y as int, dx as int, dy as int,
            VERTEX_MAX as int);
        if from.bounded(COORD_MAX as int) && to.bounded(COORD_MAX as int) {
            lemma_foot_shift_bound(from.x as int, from.y as int, dx as int, dy as int,
                COORD_MAX as int);
        }
        assert(iabs(fac * dx) <= 170_000_000_000_000_000_000_000_000_000_000_000_000 && iabs(
        fac * dy) <= 170_000_000_000_000_000_000_000_000_000_000_000_000) by (nonlinear_arith)
            requires
                iabs(fac as int) <= 16_000_000_000_000_000_000,
                iabs(dx as int) <= 2 * VERTEX_MAX,
                iabs(dy as int) <= 2 * VERTEX_MAX,
        ;
    }
    let qx: i128 = tdiv_exec128(fac * dx, den);
    let qy: i128 = tdiv_exec128(fac * dy, den);
    Vec2 { x: from.x + (qx as i64), y: from.y + (qy as i64) }
}

/// The index of the vertex after `i`, wrapping the polygon closed.
pub open spec fn poly_next(len: int, i: int) -> int {
    if i + 1 < len {
        i + 1
    } else {
        0
    }
}

/// The perpendicular foot from the local origin onto the supporting line
/// of side `i` of the closed polygon; a degenerate zero-length side
/// stands in with its own vertex.
pub open spec fn poly_side_foot(vs: Seq<Vec2>, i: int) -> Vec2 {
    let a = vs[i];
    let b = vs[poly_next(vs.len() as int, i)];
    if a == b {
        a
    } else {
        foot_of(a, b)
    }
}

/// Distance from the local origin to the supporting line of side `i`,
/// rounded down.
pub open spec fn poly_side_dist(vs: Seq<Vec2>, i: int) -> int {
    sqrt_floor(mag2(poly_side_foot(vs, i)) as nat) as int
}

/// Minimum side-line distance over the first `i` sides of a non-empty
/// polygon, seeded from the first side.
pub open spec fn poly_inner_upto(vs: Seq<Vec2>, i: int) -> int
    decreases i,
{
    if i <= 1 {
        poly_side_dist(vs, 0)
    } else {
        imin(poly_inner_upto(vs, i - 1), poly_side_dist(vs, i - 1))
    }
}

/// Inradius of the polygon with vertex sequence `vs`: the nearest
/// side-line distance from the local origin, never reported beyond the
/// circumradius.
pub open spec fn poly_inner(vs: Seq<Vec2>) -> int {
    imin(poly_inner_upto(vs, vs.len() as int), poly_radius(vs))
}

pub proof fn lemma_poly_inner_nonneg(vs: Seq<Vec2>)
    ensures
        0 <= poly_inner(vs) <= poly_radius(vs),
{
    lemma_poly_inner_upto_nonneg(vs, vs.len() as int);
}

proof fn lemma_poly_inner_upto_nonneg(vs: Seq<Vec2>, i: int)
    ensures
        poly_inner_upto(vs, i) >= 0,
    decreases i,
{
    if i > 1 {
        lemma_poly_inner_upto_nonneg(vs, i - 1);
    }
}

/// Every vertex of the sequence is `b`-bounded.
pub open spec fn verts_bounded(vs: Seq<Vec2>, b: int) -> bool {
    forall|i: int| 0 <= i < vs.len() ==> (#[trigger] vs[i]).bounded(b)
}

/// Maximum support over the first `i` vertices in the direction at
/// `angle`, folded from zero.
pub open spec fn poly_radius_at_upto(vs: Seq<Vec2>, angle: int, i: int) -> int
    decreases i,
{
    if i <= 0 {
        0
    } else {
        imax(poly_radius_at_upto(vs, angle, i - 1), project(vs[i - 1], angle))
    }
}

/// Support radius of the polygon with vertex sequence `vs` in the
/// direction at `angle`.
pub open spec fn poly_radius_at(vs: Seq<Vec2>, angle: int) -> int {
    poly_radius_at_upto(vs, angle, vs.len() as int)
}

/// Maximum squared vertex distance over the first `i` vertices, folded
/// from zero.
pub open spec fn poly_mag2_upto(vs: Seq<Vec2>, i: int) -> int
    decreases i,
{
    if i <= 0 {
        0
    } else {
        imax(poly_mag2_upto(vs, i - 1), mag2(vs[i - 1]))
    }
}

/// Circumradius of the polygon with vertex sequence `vs`: the distance of
/// the farthest vertex from the local origin, rounded down.
pub open spec fn poly_radius(vs: Seq<Vec2>) -> int {
    sqrt_floor(poly_mag2_upto(vs, vs.len() as int) as nat) as int
}

/// Coordinate folds over the first `i` vertices of a non-empty vertex
/// sequence, seeded from the first vertex: the bounds are those of the
/// vertex set alone.
pub open spec fn poly_x_lo_upto(vs: Seq<Vec2>, i: int) -> int
    decreases i,
{
    if i <= 1 {
        vs[0].x as int
    } else {
        imin(poly_x_lo_upto(vs, i - 1), vs[i - 1].x as int)
    }
}

pub open spec fn poly_x_hi_upto(vs: Seq<Vec2>, i: int) -> int
    decreases i,
{
    if i <= 1 {
        vs[0].x as int
    } else {
        imax(poly_x_hi_upto(vs, i - 1), vs[i - 1].x as int)
    }
}

pub open spec fn poly_y_lo_upto(vs: Seq<Vec2>, i: int) -> int
    decreases i,
{
    if i <= 1 {
        vs[0].y as int
    } else {
        imin(poly_y_lo_upto(vs, i - 1), vs[i - 1].y as int)
    }
}

pub open spec fn poly_y_hi_upto(vs: Seq<Vec2>, i: int) -> int
    decreases i,
{
    if i <= 1 {
        vs[0].y as int
    } else {
        imax(poly_y_hi_upto(vs, i - 1), vs[i - 1].y as int)
    }
}

/// Support radius of the polygon with the given vertices in the direction
/// at `angle`.
pub fn polygon_radius_at(vs: &Vec<Vec2>, angle: i64) -> (r: i64)
    requires
        verts_bounded(vs@, VERTEX_MAX as int),
        angle > i64::MIN,
        angle <= i64::MAX - QUARTER_TURN,
    ensures
        r == poly_radius_at(vs@, angle as int),
        0 <= r <= 2 * VERTEX_MAX,
{
    let mut acc: i64 = 0;
    let mut i: usize = 0;
    while i < vs.len()
        invariant
            i <= vs.len(),
            verts_bounded(vs@, VERTEX_MAX as int),
            angle > i64::MIN,
            angle <= i64::MAX - QUARTER_TURN,
            acc == poly_radius_at_upto(vs@, angle as int, i as int),
            0 <= acc <= 2 * VERTEX_MAX,
        decreases vs.len() - i,
    {
        let p: i64 = vs[i].project_dir(angle);
        if p > acc {
            acc = p;
        }
        i = i + 1;
    }
    acc
}

/// Circumradius of the polygon with the given vertices.
pub fn polygon_radius(vs: &Vec<Vec2>) -> (r: i64)
    requires
        verts_bounded(vs@, VERTEX_MAX as int),
    ensures
        r == poly_radius(vs@),
        0 <= r <= 3_000_000_000,
{
    let mut acc: i64 = 0;
    let mut i: usize = 0;
    while i < vs.len()
        invariant
            i <= vs.len(),
            verts_bounded(vs@, VERTEX_MAX as int),
            acc == poly_mag2_upto(vs@, i as int),
            0 <= acc <= 8_000_000_000_000_000_000,
        decreases vs.len() - i,
    {
        let v = vs[i];
        proof {
            assert(vs@[i as int].bounded(VERTEX_MAX as int));
            assert(0 <= v.x as int * v.x as int <= 4_000_000_000_000_000_000 && 0 <= v.y as int
                * v.y as int <= 4_000_000_000_000_000_000) by (nonlinear_arith)
                requires
                    iabs(v.x as int) <= VERTEX_MAX,
                    iabs(v.y as int) <= VERTEX_MAX,
            ;
        }
        let m2: i64 = v.x * v.x + v.y * v.y;
        if m2 > acc {
            acc = m2;
        }
        i = i + 1;
    }
    proof {
        lemma_sqrt_floor_bracket(acc as nat);
        let s: int = sqrt_floor(acc as nat) as int;
        assert(s <= 3_000_000_000) by (nonlinear_arith)
            requires
                s * s <= acc as int,
                0 <= s,
                acc <= 8_000_000_000_000_000_000i64,
        ;
    }
    isqrt(acc as u64) as i64
}

/// Axis-aligned coordinate ranges of the polygon with the given
/// vertices: exactly the least and greatest vertex coordinates.
pub fn polygon_coords_range(vs: &Vec<Vec2>) -> (r: (CoordRange, CoordRange))
    requires
        vs@.len() >= 1,
        verts_bounded(vs@, VERTEX_MAX as int),
    ensures
        r.0.lo == poly_x_lo_upto(vs@, vs@.len() as int),
        r.0.hi == poly_x_hi_upto(vs@, vs@.len() as int),
        r.1.lo == poly_y_lo_upto(vs@, vs@.len() as int),
        r.1.hi == poly_y_hi_upto(vs@, vs@.len() as int),
{
    proof {
        assert(vs@[0].bounded(VERTEX_MAX as int));
    }
    let mut x_lo: i64 = vs[0].x;
    let mut x_hi: i64 = vs[0].x;
    let mut y_lo: i64 = vs[0].y;
    let mut y_hi: i64 = vs[0].y;
    let mut i: usize = 1;
    while i < vs.len()
        invariant
            1 <= i <= vs.len(),
            verts_bounded(vs@, VERTEX_MAX as int),
            x_lo == poly_x_lo_upto(vs@, i as int),
            x_hi == poly_x_hi_upto(vs@, i as int),
            y_lo == poly_y_lo_upto(vs@, i as int),
            y_hi == poly_y_hi_upto(vs@, i as int),
        decreases vs.len() - i,
    {
        let v = vs[i];
        proof {
            assert(vs@[i as int].bounded(VERTEX_MAX as int));
        }
        if v.x < x_lo {
            x_lo = v.x;
        }
        if v.x > x_hi {
            x_hi = v.x;
        }
        if v.y < y_lo {
            y_lo = v.y;
        }
        if v.y > y_hi {
            y_hi = v.y;
        }
        i = i + 1;
    }
    (CoordRange { lo: x_lo, hi: x_hi }, CoordRange { lo: y_lo, hi: y_hi })
}

/// The sides sequence of the closed polygon: the perpendicular foot of
/// each side's supporting line, one per vertex.
#[verifier::loop_isolation(false)]
pub fn polygon_sides(vs: &Vec<Vec2>) -> (r: Vec<Vec2>)
    requires
        vs@.len() >= 1,
        verts_bounded(vs@, VERTEX_MAX as int),
    ensures
        r@.len() == vs@.len(),
        forall|i: int| 0 <= i < vs@.len() ==> (#[trigger] r@[i]) == poly_side_foot(vs@, i),
        forall|i: int| 0 <= i < vs@.len() ==> (#[trigger] r@[i]).bounded(3 * VERTEX_MAX),
{
    let n: usize = vs.len();
    let mut out: Vec<Vec2> = Vec::new();
    let mut i: usize = 0;
    while i < n
        invariant
            i <= n,
            n == vs@.len(),
            out@.len() == i,
            forall|k: int| 0 <= k < i ==> (#[trigger] out@[k]) == poly_side_foot(vs@, k),
            forall|k: int| 0 <= k < i ==> (#[trigger] out@[k]).bounded(3 * VERTEX_MAX),
        decreases n - i,
    {
        let j: usize = if i + 1 < n {
            i + 1
        } else {
            0
        };
        let a = vs[i];
        let b = vs[j];
        proof {
            assert(vs@[i as int].bounded(VERTEX_MAX as int));
            assert(vs@[j as int].bounded(VERTEX_MAX as int));
        }
        let f: Vec2 = if a.x == b.x && a.y == b.y {
            a
        } else {
            vector_to_line(a, b)
        };
        out.push(f);
        i = i + 1;
    }
    out
}

/// Squared length of a perpendicular foot, wide enough for the vertex
/// domain.
fn mag2_exec_u128(v: Vec2) -> (r: u128)
    requires
        v.bounded(3 * VERTEX_MAX),
    ensures
        r == mag2(v),
        r <= 72_000_000_000_000_000_000u128,
{
    let mx: u64 = crate::num::mag64(v.x);
    let my: u64 = crate::num::mag64(v.y);
    proof {
        assert((mx as int) * (mx as int) == v.x as int * v.x as int && (my as int) * (my as int)
            == v.y as int * v.y as int && (mx as int) * (mx as int) + (my as int) * (my as int)
            <= 72_000_000_000_000_000_000) by (nonlinear_arith)
            requires
                mx == iabs(v.x as int),
                my == iabs(v.y as int),
                mx <= 3 * VERTEX_MAX,
                my <= 3 * VERTEX_MAX,
        ;
    }
    (mx as u128) * (mx as u128) + (my as u128) * (my as u128)
}

/// Inradius of the polygon with the given vertices: the nearest
/// side-line distance from the local origin, capped at the circumradius.
#[verifier::loop_isolation(false)]
pub fn polygon_inner_radius(vs: &Vec<Vec2>) -> (r: i64)
    requires
        vs@.len() >= 1,
        verts_bounded(vs@, VERTEX_MAX as int),
    ensures
        r == poly_inner(vs@),
        0 <= r <= 3_000_000_000,
{
    let sides = polygon_sides(vs);
    proof {
        assert(sides@[0] == poly_side_foot(vs@, 0));
        lemma_side_dist_bounds(vs@, 0);
    }
    let mut acc: i64 = side_dist_exec(sides[0]);
    let mut i: usize = 1;
    while i < sides.len()
        invariant
            1 <= i <= sides@.len(),
            sides@.len() == vs@.len(),
            forall|k: int| 0 <= k < vs@.len() ==> (#[trigger] sides@[k]) == poly_side_foot(
                vs@,
                k,
            ),
            forall|k: int| 0 <= k < vs@.len() ==> (#[trigger] sides@[k]).bounded(
                3 * VERTEX_MAX,
            ),
            acc == poly_inner_upto(vs@, i as int),
            0 <= acc,
        decreases sides@.len() - i,
    {
        proof {
            lemma_side_dist_bounds(vs@, i as int);
        }
        let d = side_dist_exec(sides[i]);
        if d < acc {
            acc = d;
        }
        i = i + 1;
    }
    let outer = polygon_radius(vs);
    if outer < acc {
        acc = outer;
    }
    acc
}

/// Distance of a foot from the local origin, rounded down.
fn side_dist_exec(f: Vec2) -> (r: i64)
    requires
        f.bounded(3 * VERTEX_MAX),
    ensures
        r == sqrt_floor(mag2(f) as nat) as int,
        0 <= r,
{
    let m2 = mag2_exec_u128(f);
    let r = crate::num::isqrt128(m2);
    proof {
        assert(mag2(f) >= 0) by (nonlinear_arith)
            requires
                mag2(f) == f.x as int * f.x as int + f.y as int * f.y as int,
        ;
        let s: int = sqrt_floor(m2 as nat) as int;
        crate::num::lemma_sqrt_floor_bracket(m2 as nat);
        assert(s <= 9_000_000_000) by (nonlinear_arith)
            requires
                s * s <= m2 as int,
                0 <= s,
                m2 <= 72_000_000_000_000_000_000u128,
        ;
    }
    r as i64
}

/// A side distance of a bounded polygon is nonnegative.
proof fn lemma_side_dist_bounds(vs: Seq<Vec2>, i: int)
    ensures
        poly_side_dist(vs, i) >= 0,
{
}

/// An axis-free rectangle: width and height in its own frame, a rotation,
/// and the stored offset of its center.
#[derive(Clone, Copy, Debug, PartialEq, Eq, Structural)]
pub struct Rect {
    pub width: i64,
    pub height: i64,
    pub offset: Vec2,
    pub rotation: i64,
}

pub open spec fn rect_translate(r: Rect, amount: Vec2) -> Rect {
    Rect { offset: vec_plus(r.offset, amount), ..r }
}

pub open spec fn rect_rotate(r: Rect, angle: int) -> Rect {
    Rect {
        rotation: (r.rotation + angle) as i64,
        offset: rot_vec(r.offset, -angle),
        ..r
    }
}

pub open spec fn rect_scale(r: Rect, f: Ratio) -> Rect {
    Rect {
        width: f.apply(r.width as int) as i64,
        height: f.apply(r.height as int) as i64,
        offset: Vec2 { x: f.apply(r.offset.x as int) as i64, y: f.apply(r.offset.y as int) as i64 },
        rotation: r.rotation,
    }
}

/// The corner of the rectangle in its own frame, before rotation, in the
/// order used by the vertex sequence.
pub open spec fn rect_corner(r: Rect, k: int) -> Vec2 {
    let hw: int = tdiv(r.width as int, 2);
    let hh: int = tdiv(r.height as int, 2);
    if k == 0 {
        Vec2 { x: (-hw) as i64, y: (-hh) as i64 }
    } else if k == 1 {
        Vec2 { x: hw as i64, y: (-hh) as i64 }
    } else if k == 2 {
        Vec2 { x: hw as i64, y: hh as i64 }
    } else {
        Vec2 { x: (-hw) as i64, y: hh as i64 }
    }
}

/// A vertex of the rectangle: its corner rotated by the rectangle's own
/// rotation and carried to the stored offset.
pub open spec fn rect_vertex(r: Rect, k: int) -> Vec2 {
    vec_plus(rot_vec(rect_corner(r, k), r.rotation as int), r.offset)
}

pub open spec fn rect_vertices(r: Rect) -> Seq<Vec2> {
    Seq::new(4, |k: int| rect_vertex(r, k))
}

impl Rect {
    /// Width and height are never negative.
    pub open spec fn wf(self) -> bool {
        self.width >= 0 && self.height >= 0
    }

    pub open spec fn bounded(self, b: int) -> bool {
        &&& iabs(self.width as int) <= b
        &&& iabs(self.height as int) <= b
        &&& iabs(self.rotation as int) <= b
        &&& self.offset.bounded(b)
    }

    pub fn new(width: i64, height: i64, rotation: i64, center: Vec2) -> (r: Rect)
        requires
            width >= 0,
            height >= 0,
            center.x > i64::MIN,
            center.y > i64::MIN,
        ensures
            r == (Rect { width, height, offset: vec_neg(center), rotation }),
            r.wf(),
    {
        Rect { width, height, offset: center.negate(), rotation }
    }

    pub fn from_width_height_rotation(width: i64, height: i64, rotation: i64) -> (r: Rect)
        requires
            width >= 0,
            height >= 0,
        ensures
            r == (Rect { width, height, offset: Vec2 { x: 0i64, y: 0i64 }, rotation }),
            r.wf(),
    {
        Rect { width, height, offset: Vec2::zero(), rotation }
    }

    pub fn from_width_height(width: i64, height: i64) -> (r: Rect)
        requires
            width >= 0,
            height >= 0,
        ensures
            r == (Rect {
                width,
                height,
                offset: Vec2 { x: 0i64, y: 0i64 },
                rotation: 0i64,
            }),
            r.wf(),
    {
        Self::from_width_height_rotation(width, height, 0)
    }

    pub fn width(&self) -> (r: i64)
        ensures
            r == self.width,
    {
        self.width
    }

    pub fn height(&self) -> (r: i64)
        ensures
            r == self.height,
    {
        self.height
    }

    pub fn center(&self) -> (r: Vec2)
        requires
            self.offset.x > i64::MIN,
            self.offset.y > i64::MIN,
        ensures
            r == vec_neg(self.offset),
    {
        self.offset.negate()
    }

    pub fn rotation(&self) -> (r: i64)
        ensures
            r == self.rotation,
    {
        self.rotation
    }

    /// The four vertices, counter-clockwise from the corner at negative
    /// width and height.
    pub fn vertices(&self) -> (r: Vec<Vec2>)
        requires
            self.wf(),
            self.bounded(COORD_MAX as int),
        ensures
            r@ == rect_vertices(*self),
            verts_bounded(r@, VERTEX_MAX as int),
    {
        let hw: i64 = self.width / 2;
        let hh: i64 = self.height / 2;
        let mut vs: Vec<Vec2> = Vec::new();
        let c0 = Vec2 { x: -hw, y: -hh };
        let c1 = Vec2 { x: hw, y: -hh };
        let c2 = Vec2 { x: hw, y: hh };
        let c3 = Vec2 { x: -hw, y: hh };
        proof {
            assert(c0 == rect_corner(*self, 0));
            assert(c1 == rect_corner(*self, 1));
            assert(c2 == rect_corner(*self, 2));
            assert(c3 == rect_corner(*self, 3));
        }
        vs.push(c0.rotated(self.rotation).plus(self.offset));
        vs.push(c1.rotated(self.rotation).plus(self.offset));
        vs.push(c2.rotated(self.rotation).plus(self.offset));
        vs.push(c3.rotated(self.rotation).plus(self.offset));
        proof {
            assert(vs@ =~= rect_vertices(*self));
        }
        vs
    }

    pub fn convex_coords_range(&self) -> (r: (CoordRange, CoordRange))
        requires
            self.wf(),
            self.bounded(COORD_MAX as int),
        ensures
            r.0.lo == poly_x_lo_upto(rect_vertices(*self), 4),
            r.0.hi == poly_x_hi_upto(rect_vertices(*self), 4),
            r.1.lo == poly_y_lo_upto(rect_vertices(*self), 4),
            r.1.hi == poly_y_hi_upto(rect_vertices(*self), 4),
    {
        let vs = self.vertices();
        polygon_coords_range(&vs)
    }

    pub fn convex_radius(&self) -> (r: i64)
        requires
            self.wf(),
            self.bounded(COORD_MAX as int),
        ensures
            r == poly_radius(rect_vertices(*self)),
            0 <= r <= 3_000_000_000,
    {
        let vs = self.vertices();
        polygon_radius(&vs)
    }

    pub fn convex_radius_at(&self, angle: i64) -> (r: i64)
        requires
            self.wf(),
            self.bounded(COORD_MAX as int),
            angle > i64::MIN,
            angle <= i64::MAX - QUARTER_TURN,
        ensures
            r == poly_radius_at(rect_vertices(*self), angle as int),
            0 <= r <= 2 * VERTEX_MAX,
    {
        let vs = self.vertices();
        polygon_radius_at(&vs, angle)
    }

    pub fn translate(&mut self, amount: Vec2)
        requires
            old(self).bounded(TRANS_MAX as int),
            amount.bounded(TRANS_MAX as int),
        ensures
            *final(self) == rect_translate(*old(self), amount),
    {
        self.offset = self.offset.plus(amount);
    }

    pub fn rotate(&mut self, angle: i64)
        requires
            old(self).bounded(ROT_MAX as int),
            iabs(angle as int) <= ANGLE_MAX,
        ensures
            *final(self) == rect_rotate(*old(self), angle as int),
    {
        proof {
            lemma_rot_vec_bounds(self.offset, -angle as int);
        }
        self.rotation = self.rotation + angle;
        self.offset = self.offset.rotated(-angle);
    }

    pub fn scale(&mut self, factor: Ratio)
        requires
            old(self).bounded(COORD_MAX as int),
            factor.wf(),
        ensures
            *final(self) == rect_scale(*old(self), factor),
            old(self).wf() ==> final(self).wf(),
    {
        proof {
            if old(self).wf() {
                assert(self.width as int * factor.num >= 0 && self.height as int * factor.num
                    >= 0) by (nonlinear_arith)
                    requires
                        self.width >= 0,
                        self.height >= 0,
                        factor.num >= 0,
                ;
                lemma_tdiv_nonneg(self.width as int * factor.num as int, factor.den as int);
                lemma_tdiv_nonneg(self.height as int * factor.num as int, factor.den as int);
            }
        }
        self.width = factor.scale_val(self.width);
        self.height = factor.scale_val(self.height);
        self.offset = Vec2 {
            x: factor.scale_val(self.offset.x),
            y: factor.scale_val(self.offset.y),
        };
    }
}

/// A regular polygon: side count, circumradius, the angle of its first
/// vertex, and the stored offset of its center.
#[derive(Clone, Copy, Debug, PartialEq, Eq, Structural)]
pub struct RegularPolygon {
    pub num_sides: usize,
    pub outer_radius: i64,
    pub rotation: i64,
    pub offset: Vec2,
}

pub open spec fn rp_translate(p: RegularPolygon, amount: Vec2) -> RegularPolygon {
    RegularPolygon { offset: vec_plus(p.offset, amount), ..p }
}

pub open spec fn rp_rotate(p: RegularPolygon, angle: int) -> RegularPolygon {
    RegularPolygon {
        rotation: (p.rotation + angle) as i64,
        offset: rot_vec(p.offset, -angle),
        ..p
    }
}

pub open spec fn rp_scale(p: RegularPolygon, f: Ratio) -> RegularPolygon {
    RegularPolygon {
        outer_radius: f.apply(p.outer_radius as int) as i64,
        offset: Vec2 { x: f.apply(p.offset.x as int) as i64, y: f.apply(p.offset.y as int) as i64 },
        ..p
    }
}

/// The angle at which the polygon's vertex `k` sits.
pub open spec fn rp_vertex_angle(p: RegularPolygon, k: int) -> int {
    p.rotation + tdiv(k * (TURN as int), p.num_sides as int)
}

pub open spec fn rp_vertex(p: RegularPolygon, k: int) -> Vec2 {
    let a: int = rp_vertex_angle(p, k);
    Vec2 {
        x: (tdiv(p.outer_radius as int * cos_units(a), UNIT as int) + p.offset.x) as i64,
        y: (tdiv(p.outer_radius as int * sin_units(a), UNIT as int) + p.offset.y) as i64,
    }
}

pub open spec fn rp_vertices(p: RegularPolygon) -> Seq<Vec2> {
    Seq::new(p.num_sides as nat, |k: int| rp_vertex(p, k))
}

impl RegularPolygon {
    /// At least three sides, at most `MAX_SIDES`, and a nonnegative
    /// circumradius.
    pub open spec fn wf(self) -> bool {
        &&& 3 <= self.num_sides <= MAX_SIDES
        &&& self.outer_radius >= 0
    }

    pub open spec fn bounded(self, b: int) -> bool {
        &&& iabs(self.outer_radius as int) <= b
        &&& iabs(self.rotation as int) <= b
        &&& self.offset.bounded(b)
    }

    pub fn new(num_sides: usize, outer_radius: i64, rotation: i64) -> (r: RegularPolygon)
        requires
            3 <= num_sides <= MAX_SIDES,
            outer_radius >= 0,
        ensures
            r == (RegularPolygon {
                num_sides,
                outer_radius,
                rotation,
                offset: Vec2 { x: 0i64, y: 0i64 },
            }),
            r.wf(),
    {
        RegularPolygon { num_sides, outer_radius, rotation, offset: Vec2::zero() }
    }

    pub fn num_sides(&self) -> (r: usize)
        ensures
            r == self.num_sides,
    {
        self.num_sides
    }

    pub fn outer_radius(&self) -> (r: i64)
        ensures
            r == self.outer_radius,
    {
        self.outer_radius
    }

    pub fn center(&self) -> (r: Vec2)
        requires
            self.offset.x > i64::MIN,
            self.offset.y > i64::MIN,
        ensures
            r == vec_neg(self.offset),
    {
        self.offset.negate()
    }

    pub fn rotation(&self) -> (r: i64)
        ensures
            r == self.rotation,
    {
        self.rotation
    }

    /// The vertices, one per side, the first at the polygon's own
    /// rotation.
    pub fn vertices(&self) -> (r: Vec<Vec2>)
        requires
            self.wf(),
            self.bounded(COORD_MAX as int),
        ensures
            r@ == rp_vertices(*self),
            verts_bounded(r@, VERTEX_MAX as int),
            r@.len() == self.num_sides,
    {
        let n: usize = self.num_sides;
        let mut vs: Vec<Vec2> = Vec::new();
        let mut k: usize = 0;
        while k < n
            invariant
                k <= n,
                n == self.num_sides,
                self.wf(),
                self.bounded(COORD_MAX as int),
                vs@.len() == k,
                forall|j: int| 0 <= j < k ==> (#[trigger] vs@[j]) == rp_vertex(*self, j)
                    && vs@[j].bounded(VERTEX_MAX as int),
            decreases n - k,
        {
            let step: i64 = ((k as i64) * TURN) / (n as i64);
            proof {
                assert(0 <= (k as int) * (TURN as int) <= (MAX_SIDES as int) * (TURN as int)
                    && (k as int) * (TURN as int) < (n as int) * (TURN as int)) by (
                nonlinear_arith)
                    requires
                        0 <= k < n <= MAX_SIDES,
                ;
                lemma_tdiv_nonneg((k as int) * (TURN as int), n as int);
                lemma_tdiv_mag((k as int) * (TURN as int), n as int, TURN as int);
            }
            let a: i64 = self.rotation + step;
            let c: i64 = cos_fp(a);
            let s: i64 = sin_fp(a);
            proof {
                assert(iabs(self.outer_radius as int * c) <= (COORD_MAX as int) * (UNIT as int)
                    && iabs(self.outer_radius as int * s) <= (COORD_MAX as int) * (
                UNIT as int)) by (nonlinear_arith)
                    requires
                        -UNIT <= c <= UNIT,
                        -UNIT <= s <= UNIT,
                        iabs(self.outer_radius as int) <= COORD_MAX,
                ;
                assert((COORD_MAX as int) * (UNIT as int) < i64::MAX) by (nonlinear_arith);
                lemma_tdiv_mag(self.outer_radius as int * c, UNIT as int, COORD_MAX as int);
                lemma_tdiv_mag(self.outer_radius as int * s, UNIT as int, COORD_MAX as int);
            }
            let vx: i64 = tdiv_exec(self.outer_radius * c, UNIT) + self.offset.x;
            let vy: i64 = tdiv_exec(self.outer_radius * s, UNIT) + self.offset.y;
            vs.push(Vec2 { x: vx, y: vy });
            k = k + 1;
        }
        proof {
            assert(vs@ =~= rp_vertices(*self));
        }
        vs
    }

    pub fn convex_coords_range(&self) -> (r: (CoordRange, CoordRange))
        requires
            self.wf(),
            self.bounded(COORD_MAX as int),
        ensures
            r.0.lo == poly_x_lo_upto(rp_vertices(*self), self.num_sides as int),
            r.0.hi == poly_x_hi_upto(rp_vertices(*self), self.num_sides as int),
            r.1.lo == poly_y_lo_upto(rp_vertices(*self), self.num_sides as int),
            r.1.hi == poly_y_hi_upto(rp_vertices(*self), self.num_sides as int),
    {
        let vs = self.vertices();
        polygon_coords_range(&vs)
    }

    pub fn convex_radius(&self) -> (r: i64)
        requires
            self.wf(),
            self.bounded(COORD_MAX as int),
        ensures
            r == poly_radius(rp_vertices(*self)),
            0 <= r <= 3_000_000_000,
    {
        let vs = self.vertices();
        polygon_radius(&vs)
    }

    pub fn convex_radius_at(&self, angle: i64) -> (r: i64)
        requires
            self.wf(),
            self.bounded(COORD_MAX as int),
            angle > i64::MIN,
            angle <= i64::MAX - QUARTER_TURN,
        ensures
            r == poly_radius_at(rp_vertices(*self), angle as int),
            0 <= r <= 2 * VERTEX_MAX,
    {
        let vs = self.vertices();
        polygon_radius_at(&vs, angle)
    }

    pub fn translate(&mut self, amount: Vec2)
        requires
            old(self).bounded(TRANS_MAX as int),
            amount.bounded(TRANS_MAX as int),
        ensures
            *final(self) == rp_translate(*old(self), amount),
    {
        self.offset = self.offset.plus(amount);
    }

    pub fn rotate(&mut self, angle: i64)
        requires
            old(self).bounded(ROT_MAX as int),
            iabs(angle as int) <= ANGLE_MAX,
        ensures
            *final(self) == rp_rotate(*old(self), angle as int),
            final(self).num_sides == old(self).num_sides,
            final(self).outer_radius == old(self).outer_radius,
    {
        proof {
            lemma_rot_vec_bounds(self.offset, -angle as int);
        }
        self.rotation = self.rotation + angle;
        self.offset = self.offset.rotated(-angle);
    }

    pub fn scale(&mut self, factor: Ratio)
        requires
            old(self).bounded(COORD_MAX as int),
            factor.wf(),
        ensures
            *final(self) == rp_scale(*old(self), factor),
            old(self).wf() ==> final(self).wf(),
    {
        proof {
            if old(self).wf() {
                assert(self.outer_radius as int * factor.num >= 0) by (nonlinear_arith)
                    requires
                        self.outer_radius >= 0,
                        factor.num >= 0,
                ;
                lemma_tdiv_nonneg(self.outer_radius as int * factor.num as int, factor.den as int);
            }
        }
        self.outer_radius = factor.scale_val(self.outer_radius);
        self.offset = Vec2 {
            x: factor.scale_val(self.offset.x),
            y: factor.scale_val(self.offset.y),
        };
    }
}

/// A boundary shape: one of the concrete kinds, or an ordered, non-empty
/// composite whose outer boundary is the union of its members'.
#[derive(Debug, PartialEq)]
pub enum Shape {
    Circle(Circle),
    Rect(Rect),
    RegularPolygon(RegularPolygon),
    Line(Line),
    Composite(Vec<Shape>),
}

/// Well-formedness of a shape: the concrete kinds' invariants, and at
/// least one member in every composite.
pub open spec fn shape_wf(s: Shape) -> bool
    decreases s,
{
    match s {
        Shape::Circle(c) => c.wf(),
        Shape::Rect(r) => r.wf(),
        Shape::RegularPolygon(p) => p.wf(),
        Shape::Line(_) => true,
        Shape::Composite(ms) => ms@.len() >= 1 && forall|i: int|
            0 <= i < ms@.len() ==> shape_wf(#[trigger] ms@[i]),
    }
}

/// Every scalar stored anywhere in the shape has magnitude at most `b`.
pub open spec fn shape_bounded(s: Shape, b: int) -> bool
    decreases s,
{
    match s {
        Shape::Circle(c) => c.bounded(b),
        Shape::Rect(r) => r.bounded(b),
        Shape::RegularPolygon(p) => p.bounded(b),
        Shape::Line(l) => l.bounded(b),
        Shape::Composite(ms) => forall|i: int|
            0 <= i < ms@.len() ==> shape_bounded(#[trigger] ms@[i], b),
    }
}

/// Circumradius of a shape; for a composite, the maximum over members,
/// folded from zero.
pub open spec fn shape_radius(s: Shape) -> int
    decreases s,
{
    match s {
        Shape::Circle(c) => circle_radius(c),
        Shape::Rect(r) => poly_radius(rect_vertices(r)),
        Shape::RegularPolygon(p) => poly_radius(rp_vertices(p)),
        Shape::Line(l) => line_radius(l),
        Shape::Composite(ms) => shapes_radius_upto(ms@, ms@.len() as int),
    }
}

pub open spec fn shapes_radius_upto(ss: Seq<Shape>, i: int) -> int
    decreases ss, i,
{
    if i <= 0 || i > ss.len() {
        0
    } else {
        imax(shapes_radius_upto(ss, i - 1), shape_radius(ss[i - 1]))
    }
}

/// Support radius of a shape in the direction at `angle`; for a
/// composite, the maximum over members, folded from zero.
pub open spec fn shape_radius_at(s: Shape, angle: int) -> int
    decreases s,
{
    match s {
        Shape::Circle(c) => circle_radius_at(c, angle),
        Shape::Rect(r) => poly_radius_at(rect_vertices(r), angle),
        Shape::RegularPolygon(p) => poly_radius_at(rp_vertices(p), angle),
        Shape::Line(l) => line_radius_at(l),
        Shape::Composite(ms) => shapes_radius_at_upto(ms@, angle, ms@.len() as int),
    }
}

pub open spec fn shapes_radius_at_upto(ss: Seq<Shape>, angle: int, i: int) -> int
    decreases ss, i,
{
    if i <= 0 || i > ss.len() {
        0
    } else {
        imax(shapes_radius_at_upto(ss, angle, i - 1), shape_radius_at(ss[i - 1], angle))
    }
}

/// The four bounds of a shape's axis-aligned coordinate ranges, as
/// `(x lo, x hi, y lo, y hi)`: for the polygon kinds the bounds of the
/// vertex set, for a composite the union of the members' ranges.
pub open spec fn shape_ranges(s: Shape) -> (int, int, int, int)
    decreases s,
{
    match s {
        Shape::Circle(c) => (
            c.offset.x - c.radius,
            c.offset.x + c.radius,
            c.offset.y - c.radius,
            c.offset.y + c.radius,
        ),
        Shape::Rect(r) => (
            poly_x_lo_upto(rect_vertices(r), 4),
            poly_x_hi_upto(rect_vertices(r), 4),
            poly_y_lo_upto(rect_vertices(r), 4),
            poly_y_hi_upto(rect_vertices(r), 4),
        ),
        Shape::RegularPolygon(p) => (
            poly_x_lo_upto(rp_vertices(p), p.num_sides as int),
            poly_x_hi_upto(rp_vertices(p), p.num_sides as int),
            poly_y_lo_upto(rp_vertices(p), p.num_sides as int),
            poly_y_hi_upto(rp_vertices(p), p.num_sides as int),
        ),
        Shape::Line(l) => (
            imin(l.start.x as int, l.end.x as int),
            imax(l.start.x as int, l.end.x as int),
            imin(l.start.y as int, l.end.y as int),
            imax(l.start.y as int, l.end.y as int),
        ),
        Shape::Composite(ms) => shapes_ranges_upto(ms@, ms@.len() as int),
    }
}

pub open spec fn shapes_ranges_upto(ss: Seq<Shape>, i: int) -> (int, int, int, int)
    decreases ss, i,
{
    if ss.len() == 0 {
        (0, 0, 0, 0)
    } else if i <= 1 || i > ss.len() {
        shape_ranges(ss[0])
    } else {
        let acc = shapes_ranges_upto(ss, i - 1);
        let m = shape_ranges(ss[i - 1]);
        (imin(acc.0, m.0), imax(acc.1, m.1), imin(acc.2, m.2), imax(acc.3, m.3))
    }
}

impl Shape {
    /// Circumradius of this shape about the local origin.
    #[verifier::loop_isolation(false)]
    pub fn convex_radius(&self) -> (r: i64)
        requires
            shape_wf(*self),
            shape_bounded(*self, COORD_MAX as int),
        ensures
            r == shape_radius(*self),
            0 <= r <= 5 * COORD_MAX,
        decreases *self,
    {
        match self {
            Shape::Circle(c) => c.convex_radius(),
            Shape::Rect(rc) => rc.convex_radius(),
            Shape::RegularPolygon(p) => p.convex_radius(),
            Shape::Line(l) => l.convex_radius(),
            Shape::Composite(ms) => {
                let mut acc: i64 = 0;
                let mut i: usize = 0;
                while i < ms.len()
                    invariant
                        i <= ms.len(),
                        acc == shapes_radius_upto(ms@, i as int),
                        0 <= acc <= 5 * COORD_MAX,
                    decreases ms.len() - i,
                {
                    let r = ms[i].convex_radius();
                    if r > acc {
                        acc = r;
                    }
                    i = i + 1;
                }
                acc
            },
        }
    }

    /// Support radius of this shape in the direction at `angle`.
    #[verifier::loop_isolation(false)]
    pub fn convex_radius_at(&self, angle: i64) -> (r: i64)
        requires
            shape_wf(*self),
            shape_bounded(*self, COORD_MAX as int),
            angle > i64::MIN,
            angle <= i64::MAX - QUARTER_TURN,
        ensures
            r == shape_radius_at(*self, angle as int),
            -5 * COORD_MAX <= r <= 5 * COORD_MAX,
        decreases *self,
    {
        match self {
            Shape::Circle(c) => c.convex_radius_at(angle),
            Shape::Rect(rc) => rc.convex_radius_at(angle),
            Shape::RegularPolygon(p) => p.convex_radius_at(angle),
            Shape::Line(l) => l.convex_radius_at(angle),
            Shape::Composite(ms) => {
                let mut acc: i64 = 0;
                let mut i: usize = 0;
                while i < ms.len()
                    invariant
                        i <= ms.len(),
                        acc == shapes_radius_at_upto(ms@, angle as int, i as int),
                        -5 * COORD_MAX <= acc <= 5 * COORD_MAX,
                    decreases ms.len() - i,
                {
                    let r = ms[i].convex_radius_at(angle);
                    if r > acc {
                        acc = r;
                    }
                    i = i + 1;
                }
                acc
            },
        }
    }

    /// Axis-aligned coordinate ranges of this shape.
    #[verifier::loop_isolation(false)]
    pub fn convex_coords_range(&self) -> (r: (CoordRange, CoordRange))
        requires
            shape_wf(*self),
            shape_bounded(*self, COORD_MAX as int),
        ensures
            r.0.lo == shape_ranges(*self).0,
            r.0.hi == shape_ranges(*self).1,
            r.1.lo == shape_ranges(*self).2,
            r.1.hi == shape_ranges(*self).3,
            -3 * COORD_MAX <= r.0.lo <= 3 * COORD_MAX,
            -3 * COORD_MAX <= r.0.hi <= 3 * COORD_MAX,
            -3 * COORD_MAX <= r.1.lo <= 3 * COORD_MAX,
            -3 * COORD_MAX <= r.1.hi <= 3 * COORD_MAX,
        decreases *self,
    {
        proof {
            lemma_shape_ranges_bounds(*self);
        }
        match self {
            Shape::Circle(c) => c.convex_coords_range(),
            Shape::Rect(rc) => rc.convex_coords_range(),
            Shape::RegularPolygon(p) => p.convex_coords_range(),
            Shape::Line(l) => l.convex_coords_range(),
            Shape::Composite(ms) => {
                let (xr0, yr0) = ms[0].convex_coords_range();
                let mut x_lo: i64 = xr0.lo;
                let mut x_hi: i64 = xr0.hi;
                let mut y_lo: i64 = yr0.lo;
                let mut y_hi: i64 = yr0.hi;
                let mut i: usize = 1;
                while i < ms.len()
                    invariant
                        1 <= i <= ms.len(),
                        (x_lo as int, x_hi as int, y_lo as int, y_hi as int)
                            == shapes_ranges_upto(ms@, i as int),
                        -3 * COORD_MAX <= x_lo <= 3 * COORD_MAX,
                        -3 * COORD_MAX <= x_hi <= 3 * COORD_MAX,
                        -3 * COORD_MAX <= y_lo <= 3 * COORD_MAX,
                        -3 * COORD_MAX <= y_hi <= 3 * COORD_MAX,
                    decreases ms.len() - i,
                {
                    let (xr, yr) = ms[i].convex_coords_range();
                    proof {
                        lemma_shape_ranges_bounds(ms@[i as int]);
                    }
                    if xr.lo < x_lo {
                        x_lo = xr.lo;
                    }
                    if xr.hi > x_hi {
                        x_hi = xr.hi;
                    }
                    if yr.lo < y_lo {
                        y_lo = yr.lo;
                    }
                    if yr.hi > y_hi {
                        y_hi = yr.hi;
                    }
                    i = i + 1;
                }
                (CoordRange { lo: x_lo, hi: x_hi }, CoordRange { lo: y_lo, hi: y_hi })
            },
        }
    }
}

impl Circle {
    /// Smallest circle about the local origin enclosing `shape`, inflated
    /// by `padding`.
    pub fn wrap(shape: &Shape, padding: i64) -> (r: Circle)
        requires
            shape_wf(*shape),
            shape_bounded(*shape, COORD_MAX as int),
            0 <= padding <= COORD_MAX,
        ensures
            r.radius == shape_radius(*shape) + padding,
            r.offset == (Vec2 { x: 0i64, y: 0i64 }),
            r.wf(),
            0 <= r.radius <= 6 * COORD_MAX,
    {
        Circle::from_radius(shape.convex_radius() + padding)
    }
}

/// The width the axis wrap gives an extent pair, before padding: twice
/// the larger magnitude of the two bounds.
pub open spec fn wrap_extent(lo: int, hi: int) -> int {
    2 * imax(iabs(lo), iabs(hi))
}

impl Rect {
    /// Smallest axis-aligned rectangle centered on the local origin
    /// enclosing `shape`, inflated by `padding` on each side.
    pub fn wrap(shape: &Shape, padding: i64) -> (r: Rect)
        requires
            shape_wf(*shape),
            shape_bounded(*shape, COORD_MAX as int),
            0 <= padding <= COORD_MAX,
        ensures
            r.width == wrap_extent(shape_ranges(*shape).0, shape_ranges(*shape).1) + 2 * padding,
            r.height == wrap_extent(shape_ranges(*shape).2, shape_ranges(*shape).3) + 2 * padding,
            r.rotation == 0,
            r.offset == (Vec2 { x: 0i64, y: 0i64 }),
            r.wf(),
    {
        let (xr, yr) = shape.convex_coords_range();
        let ax_lo: i64 = if xr.lo < 0 {
            -xr.lo
        } else {
            xr.lo
        };
        let ax_hi: i64 = if xr.hi < 0 {
            -xr.hi
        } else {
            xr.hi
        };
        let ay_lo: i64 = if yr.lo < 0 {
            -yr.lo
        } else {
            yr.lo
        };
        let ay_hi: i64 = if yr.hi < 0 {
            -yr.hi
        } else {
            yr.hi
        };
        let wx: i64 = if ax_lo >= ax_hi {
            ax_lo
        } else {
            ax_hi
        };
        let wy: i64 = if ay_lo >= ay_hi {
            ay_lo
        } else {
            ay_hi
        };
        Rect::from_width_height(2 * wx + 2 * padding, 2 * wy + 2 * padding)
    }

    /// Smallest rectangle at the fixed rotation, centered on the local
    /// origin, that encloses `shape`: the width spans the support radii
    /// sampled along the rotated axis, the height those across it, each
    /// doubled, clamped below at zero and inflated by `padding` on each
    /// side.
    pub fn wrap_rotated(shape: &Shape, rotation: i64, padding: i64) -> (r: Rect)
        requires
            shape_wf(*shape),
            shape_bounded(*shape, COORD_MAX as int),
            iabs(rotation as int) <= COORD_MAX,
            0 <= padding <= COORD_MAX,
        ensures
            r.width == 2 * imax(
                0,
                imax(
                    shape_radius_at(*shape, rotation as int),
                    shape_radius_at(*shape, rotation + HALF_TURN),
                ),
            ) + 2 * padding,
            r.height == 2 * imax(
                0,
                imax(
                    shape_radius_at(*shape, rotation + QUARTER_TURN),
                    shape_radius_at(*shape, rotation + 3 * QUARTER_TURN),
                ),
            ) + 2 * padding,
            r.rotation == rotation,
            r.offset == (Vec2 { x: 0i64, y: 0i64 }),
            r.wf(),
    {
        let r0: i64 = shape.convex_radius_at(rotation);
        let r1: i64 = shape.convex_radius_at(rotation + HALF_TURN);
        let r2: i64 = shape.convex_radius_at(rotation + QUARTER_TURN);
        let r3: i64 = shape.convex_radius_at(rotation + 3 * QUARTER_TURN);
        let mut hx: i64 = if r0 >= r1 {
            r0
        } else {
            r1
        };
        if hx < 0 {
            hx = 0;
        }
        let mut hy: i64 = if r2 >= r3 {
            r2
        } else {
            r3
        };
        if hy < 0 {
            hy = 0;
        }
        Rect::from_width_height_rotation(2 * hx + 2 * padding, 2 * hy + 2 * padding, rotation)
    }
}

/// The direction bisecting face `k` of an enclosing regular polygon with
/// `n` sides at `rotation`: half a segment past the vertex direction.
pub open spec fn wrap_sample_angle(rotation: int, n: int, k: int) -> int {
    rotation + tdiv(TURN as int, 2 * n) + tdiv(k * (TURN as int), n)
}

/// Largest sampled support of `s` over the first `i` face bisectors,
/// folded from zero.
pub open spec fn rp_wrap_inner_upto(s: Shape, n: int, rotation: int, i: int) -> int
    decreases i,
{
    if i <= 0 {
        0
    } else {
        imax(
            rp_wrap_inner_upto(s, n, rotation, i - 1),
            shape_radius_at(s, wrap_sample_angle(rotation, n, i - 1)),
        )
    }
}

/// The circumradius of the minimal enclosing `n`-gon: the padded worst
/// sampled clearance, converted from a face distance by the fixed-point
/// secant of half a segment, rounded up.
pub open spec fn rp_wrap_outer(s: Shape, n: int, rotation: int, padding: int) -> int {
    cdiv(
        (rp_wrap_inner_upto(s, n, rotation, n) + padding) * (UNIT as int),
        cos_units(tdiv(TURN as int, 2 * n)),
    )
}

impl RegularPolygon {
    /// Smallest regular `num_sides`-gon at the fixed rotation, centered
    /// on the local origin, that clears `shape` at every sampled face
    /// direction, inflated by `padding`.
    #[verifier::loop_isolation(false)]
    pub fn wrap(shape: &Shape, num_sides: usize, rotation: i64, padding: i64) -> (r:
        RegularPolygon)
        requires
            shape_wf(*shape),
            shape_bounded(*shape, COORD_MAX as int),
            3 <= num_sides <= MAX_SIDES,
            iabs(rotation as int) <= COORD_MAX,
            0 <= padding <= COORD_MAX,
        ensures
            r.num_sides == num_sides,
            r.outer_radius == rp_wrap_outer(*shape, num_sides as int, rotation as int,
                padding as int),
            r.rotation == rotation,
            r.offset == (Vec2 { x: 0i64, y: 0i64 }),
            r.wf(),
    {
        let n: usize = num_sides;
        let half: i64 = TURN / (2 * (n as i64));
        proof {
            vstd::arithmetic::div_mod::lemma_div_is_ordered_by_denominator(TURN as int, 6,
                2 * (n as int));
            vstd::arithmetic::div_mod::lemma_div_is_ordered_by_denominator(TURN as int,
                2 * (n as int), 7200);
            lemma_tdiv_nonneg(TURN as int, 2 * (n as int));
            crate::angle::lemma_cos_units_pos(half as int);
        }
        let cos_half: i64 = cos_fp(half);
        let mut inner: i64 = 0;
        let mut k: usize = 0;
        while k < n
            invariant
                k <= n,
                inner == rp_wrap_inner_upto(*shape, n as int, rotation as int, k as int),
                0 <= inner <= 5 * COORD_MAX,
            decreases n - k,
        {
            let step: i64 = ((k as i64) * TURN) / (n as i64);
            proof {
                assert(0 <= (k as int) * (TURN as int) < (n as int) * (TURN as int)) by (
                nonlinear_arith)
                    requires
                        0 <= k < n,
                ;
                lemma_tdiv_nonneg((k as int) * (TURN as int), n as int);
                lemma_tdiv_mag((k as int) * (TURN as int), n as int, TURN as int);
            }
            let sample: i64 = shape.convex_radius_at(rotation + half + step);
            if sample > inner {
                inner = sample;
            }
            k = k + 1;
        }
        proof {
            assert(1 <= cos_half <= UNIT);
            assert((inner + padding) as int * (UNIT as int) <= 6_000_000_000 * (UNIT as int)) by (
            nonlinear_arith)
                requires
                    0 <= inner + padding <= 6_000_000_000,
            ;
        }
        let outer: i64 = cdiv_exec((inner + padding) * UNIT, cos_half);
        RegularPolygon::new(n, outer, rotation)
    }
}

/// Inradius of a shape about the local origin: the largest radius of a
/// disc about the origin that the shape is known to contain.  For a
/// circle it is exact; for the polygon kinds it is the nearest
/// side-line distance; a segment has no interior, so it answers zero;
/// and a composite reports the best of its members (a disc inside any
/// member is inside the union).
pub open spec fn shape_inner_radius(s: Shape) -> int
    decreases s,
{
    match s {
        Shape::Circle(c) => circle_inner_radius(c),
        Shape::Rect(r) => poly_inner(rect_vertices(r)),
        Shape::RegularPolygon(p) => poly_inner(rp_vertices(p)),
        Shape::Line(_) => 0,
        Shape::Composite(ms) => shapes_inner_upto(ms@, ms@.len() as int),
    }
}

pub open spec fn shapes_inner_upto(ss: Seq<Shape>, i: int) -> int
    decreases ss, i,
{
    if i <= 0 || i > ss.len() {
        0
    } else {
        imax(shapes_inner_upto(ss, i - 1), shape_inner_radius(ss[i - 1]))
    }
}

impl Shape {
    /// Inradius of this shape about the local origin.
    #[verifier::loop_isolation(false)]
    pub fn inner_radius(&self) -> (r: i64)
        requires
            shape_wf(*self),
            shape_bounded(*self, COORD_MAX as int),
        ensures
            r == shape_inner_radius(*self),
            0 <= r <= 3_000_000_000,
        decreases *self,
    {
        match self {
            Shape::Circle(c) => c.inner_radius(),
            Shape::Rect(rc) => rc.inner_radius(),
            Shape::RegularPolygon(p) => p.inner_radius(),
            Shape::Line(_) => 0,
            Shape::Composite(ms) => {
                let mut acc: i64 = 0;
                let mut i: usize = 0;
                while i < ms.len()
                    invariant
                        i <= ms.len(),
                        acc == shapes_inner_upto(ms@, i as int),
                        0 <= acc <= 3_000_000_000,
                    decreases ms.len() - i,
                {
                    let r = ms[i].inner_radius();
                    if r > acc {
                        acc = r;
                    }
                    i = i + 1;
                }
                acc
            },
        }
    }
}

impl Rect {
    /// Inradius: the nearest side-line distance from the local origin,
    /// capped at the circumradius.
    pub fn inner_radius(&self) -> (r: i64)
        requires
            self.wf(),
            self.bounded(COORD_MAX as int),
        ensures
            r == poly_inner(rect_vertices(*self)),
            0 <= r <= 3_000_000_000,
    {
        let vs = self.vertices();
        polygon_inner_radius(&vs)
    }
}

impl RegularPolygon {
    /// Inradius: the nearest side-line distance from the local origin,
    /// capped at the circumradius.
    pub fn inner_radius(&self) -> (r: i64)
        requires
            self.wf(),
            self.bounded(COORD_MAX as int),
        ensures
            r == poly_inner(rp_vertices(*self)),
            0 <= r <= 3_000_000_000,
    {
        let vs = self.vertices();
        polygon_inner_radius(&vs)
    }
}

impl Circle {
    /// Largest circle about the local origin inscribed in `shape`,
    /// deflated by `padding` and clamped below at zero.
    pub fn fill(shape: &Shape, padding: i64) -> (r: Circle)
        requires
            shape_wf(*shape),
            shape_bounded(*shape, COORD_MAX as int),
            0 <= padding <= COORD_MAX,
        ensures
            r.radius == imax(0, shape_inner_radius(*shape) - padding),
            r.offset == (Vec2 { x: 0i64, y: 0i64 }),
            r.wf(),
    {
        let inner = shape.inner_radius();
        let rad: i64 = if inner >= padding {
            inner - padding
        } else {
            0
        };
        Circle::from_radius(rad)
    }
}

/// Coordinate ranges of a well-formed bounded shape stay within three
/// times the layout coordinate domain.
pub proof fn lemma_shape_ranges_bounds(s: Shape)
    requires
        shape_wf(s),
        shape_bounded(s, COORD_MAX as int),
    ensures
        -3 * COORD_MAX <= shape_ranges(s).0 <= 3 * COORD_MAX,
        -3 * COORD_MAX <= shape_ranges(s).1 <= 3 * COORD_MAX,
        -3 * COORD_MAX <= shape_ranges(s).2 <= 3 * COORD_MAX,
        -3 * COORD_MAX <= shape_ranges(s).3 <= 3 * COORD_MAX,
    decreases s,
{
    match s {
        Shape::Circle(c) => {},
        Shape::Rect(r) => {
            lemma_rect_vertices_bounded(r);
            lemma_poly_fold_bounds(rect_vertices(r), 4);
        },
        Shape::RegularPolygon(p) => {
            lemma_rp_vertices_bounded(p);
            lemma_poly_fold_bounds(rp_vertices(p), p.num_sides as int);
        },
        Shape::Line(l) => {},
        Shape::Composite(ms) => {
            lemma_shapes_ranges_upto_bounds(ms@, ms@.len() as int);
        },
    }
}

proof fn lemma_shapes_ranges_upto_bounds(ss: Seq<Shape>, i: int)
    requires
        ss.len() >= 1,
        forall|j: int| 0 <= j < ss.len() ==> shape_wf(#[trigger] ss[j]),
        forall|j: int| 0 <= j < ss.len() ==> shape_bounded(#[trigger] ss[j], COORD_MAX as int),
    ensures
        -3 * COORD_MAX <= shapes_ranges_upto(ss, i).0 <= 3 * COORD_MAX,
        -3 * COORD_MAX <= shapes_ranges_upto(ss, i).1 <= 3 * COORD_MAX,
        -3 * COORD_MAX <= shapes_ranges_upto(ss, i).2 <= 3 * COORD_MAX,
        -3 * COORD_MAX <= shapes_ranges_upto(ss, i).3 <= 3 * COORD_MAX,
    decreases ss, i,
{
    if i <= 1 || i > ss.len() {
        lemma_shape_ranges_bounds(ss[0]);
    } else {
        lemma_shapes_ranges_upto_bounds(ss, i - 1);
        lemma_shape_ranges_bounds(ss[i - 1]);
    }
}

/// The coordinate folds over bounded vertices stay within the vertex
/// bound.
proof fn lemma_poly_fold_bounds(vs: Seq<Vec2>, i: int)
    requires
        verts_bounded(vs, VERTEX_MAX as int),
        1 <= vs.len(),
        i <= vs.len(),
    ensures
        -VERTEX_MAX <= poly_x_lo_upto(vs, i) <= VERTEX_MAX,
        -VERTEX_MAX <= poly_x_hi_upto(vs, i) <= VERTEX_MAX,
        -VERTEX_MAX <= poly_y_lo_upto(vs, i) <= VERTEX_MAX,
        -VERTEX_MAX <= poly_y_hi_upto(vs, i) <= VERTEX_MAX,
    decreases i,
{
    if i > 1 {
        lemma_poly_fold_bounds(vs, i - 1);
    } else {
        assert(vs[0].bounded(VERTEX_MAX as int));
    }
}

/// The vertices of a rectangle from the layout coordinate domain are
/// polygon-domain vertices.
pub proof fn lemma_rect_vertices_bounded(r: Rect)
    requires
        r.wf(),
        r.bounded(COORD_MAX as int),
    ensures
        verts_bounded(rect_vertices(r), VERTEX_MAX as int),
{
    assert forall|k: int| 0 <= k < rect_vertices(r).len() implies (#[trigger] rect_vertices(
        r,
    )[k]).bounded(VERTEX_MAX as int) by {
        let hw: int = tdiv(r.width as int, 2);
        let hh: int = tdiv(r.height as int, 2);
        lemma_tdiv_nonneg(r.width as int, 2);
        lemma_tdiv_nonneg(r.height as int, 2);
        vstd::arithmetic::div_mod::lemma_div_is_ordered(r.width as int, COORD_MAX as int, 2);
        vstd::arithmetic::div_mod::lemma_div_is_ordered(r.height as int, COORD_MAX as int, 2);
        let c = rect_corner(r, k);
        assert(iabs(c.x as int) + iabs(c.y as int) <= COORD_MAX);
        lemma_rot_vec_bounds(c, r.rotation as int);
    }
}

/// The vertices of a regular polygon from the layout coordinate domain
/// are polygon-domain vertices.
pub proof fn lemma_rp_vertices_bounded(p: RegularPolygon)
    requires
        p.wf(),
        p.bounded(COORD_MAX as int),
    ensures
        verts_bounded(rp_vertices(p), VERTEX_MAX as int),
{
    assert forall|k: int| 0 <= k < rp_vertices(p).len() implies (#[trigger] rp_vertices(
        p,
    )[k]).bounded(VERTEX_MAX as int) by {
        let a: int = rp_vertex_angle(p, k);
        lemma_sin_units_range(a);
        lemma_cos_units_range(a);
        assert(iabs(p.outer_radius as int * cos_units(a)) <= (COORD_MAX as int) * (
        UNIT as int)) by (nonlinear_arith)
            requires
                -UNIT <= cos_units(a) <= UNIT,
                iabs(p.outer_radius as int) <= COORD_MAX,
        ;
        assert(iabs(p.outer_radius as int * sin_units(a)) <= (COORD_MAX as int) * (
        UNIT as int)) by (nonlinear_arith)
            requires
                -UNIT <= sin_units(a) <= UNIT,
                iabs(p.outer_radius as int) <= COORD_MAX,
        ;
        lemma_tdiv_mag(p.outer_radius as int * cos_units(a), UNIT as int, COORD_MAX as int);
        lemma_tdiv_mag(p.outer_radius as int * sin_units(a), UNIT as int, COORD_MAX as int);
    }
}

} // verus!
