//! The kernel's algebraic laws, stated and proved once for every input.
//!
//! Each public proof function here is a guarantee of the geometry kernel
//! or the layout engine that holds for all values its `requires` admits,
//! over the same specification functions the executable contracts use.

use vstd::prelude::*;
use crate::num::{tdiv, cdiv, iabs, COORD_MAX, lemma_tdiv_nonneg, lemma_tdiv_exact,
    lemma_tdiv_monotone, lemma_cdiv_ge, lemma_tdiv_neg};
use crate::angle::{TURN, HALF_TURN, UNIT, cos_units, sin_units, lemma_cos_units_pos,
    lemma_cos_units_range};
use crate::vec2::{Vec2, vec_plus, vec_neg, project, rot_vec, lemma_rot_vec_zero, TRANS_MAX,
    ROT_MAX};
use crate::angle::ANGLE_MAX;
use crate::bounding::{Circle, Rect, RegularPolygon, Shape, circle_translate, circle_rotate,
    circle_radius_at, rp_translate, rp_rotate, rect_translate,
    rect_vertices, rect_corner, rect_vertex, poly_radius_at, poly_radius_at_upto, rp_vertices,
    shape_wf, shape_radius, shape_radius_at, shape_inner_radius, shapes_inner_upto,
    shapes_radius_upto, rp_wrap_outer, rp_wrap_inner_upto, wrap_sample_angle};
use crate::layout::{rim_angle, rim_offset_amt, rim_translation, content_constrained,
    rim_constrained, min_content_radius, node_radius, node_radius_at, LayoutParams, Node};

verus! {

/// Translating a circle there and back restores it exactly.
pub proof fn lemma_circle_translate_round_trip(c: Circle, d: Vec2)
    requires
        c.bounded(TRANS_MAX as int),
        d.bounded(TRANS_MAX as int),
    ensures
        circle_translate(circle_translate(c, d), vec_neg(d)) == c,
{
}

/// Translating a regular polygon there and back restores it exactly.
pub proof fn lemma_rp_translate_round_trip(p: RegularPolygon, d: Vec2)
    requires
        p.bounded(TRANS_MAX as int),
        d.bounded(TRANS_MAX as int),
    ensures
        rp_translate(rp_translate(p, d), vec_neg(d)) == p,
{
}

/// Translating a rectangle there and back restores it exactly.
pub proof fn lemma_rect_translate_round_trip(r: Rect, d: Vec2)
    requires
        r.bounded(TRANS_MAX as int),
        d.bounded(TRANS_MAX as int),
    ensures
        rect_translate(rect_translate(r, d), vec_neg(d)) == r,
{
}

/// Rotating a circle centered on the local origin there and back
/// restores it exactly.  For an off-center circle the fixed-point
/// rotation of the offset rounds, so only the centered case round-trips
/// without tolerance.
pub proof fn lemma_circle_rotate_round_trip_centered(c: Circle, angle: int)
    requires
        c.offset == (Vec2 { x: 0i64, y: 0i64 }),
    ensures
        circle_rotate(circle_rotate(c, angle), -angle) == c,
{
    lemma_rot_vec_zero(-angle);
    lemma_rot_vec_zero(angle);
}

/// Rotating a regular polygon centered on the local origin there and
/// back restores it exactly: the rotation field accumulates exactly and
/// the zero offset is a fixed point of the fixed-point rotation.
pub proof fn lemma_rp_rotate_round_trip_centered(p: RegularPolygon, angle: int)
    requires
        p.offset == (Vec2 { x: 0i64, y: 0i64 }),
        iabs(p.rotation as int) <= ROT_MAX,
        iabs(angle) <= ANGLE_MAX,
    ensures
        rp_rotate(rp_rotate(p, angle), -angle) == p,
{
    lemma_rot_vec_zero(-angle);
    lemma_rot_vec_zero(angle);
}

/// Rotating a rectangle centered on the local origin there and back
/// restores it exactly: the rotation field accumulates exactly and the
/// zero offset is a fixed point of the fixed-point rotation.
pub proof fn lemma_rect_rotate_round_trip_centered(r: Rect, angle: int)
    requires
        r.offset == (Vec2 { x: 0i64, y: 0i64 }),
        iabs(r.rotation as int) <= ROT_MAX,
        iabs(angle) <= ANGLE_MAX,
    ensures
        crate::bounding::rect_rotate(crate::bounding::rect_rotate(r, angle), -angle) == r,
{
    lemma_rot_vec_zero(-angle);
    lemma_rot_vec_zero(angle);
}

/// A circle's support radius equals the projection of its stored offset
/// plus its radius, and in particular is never below the projection
/// alone.
pub proof fn lemma_circle_support_exact(c: Circle, angle: int)
    requires
        c.wf(),
    ensures
        circle_radius_at(c, angle) == project(c.offset, angle) + c.radius,
        circle_radius_at(c, angle) >= project(c.offset, angle),
{
}

/// Each vertex's projection is a lower bound for the polygon support
/// fold.
proof fn lemma_poly_fold_ge(vs: Seq<Vec2>, angle: int, i: int, k: int)
    requires
        0 <= k < i <= vs.len(),
    ensures
        poly_radius_at_upto(vs, angle, i) >= project(vs[k], angle),
    decreases i,
{
    if k < i - 1 {
        lemma_poly_fold_ge(vs, angle, i - 1, k);
    }
}

/// A rectangle's support radius is never below the projection of its
/// stored offset alone: its corners come in opposite pairs, so some
/// vertex projects at least as far as the offset.
pub proof fn lemma_rect_support_ge_offset(r: Rect, angle: int)
    requires
        r.wf(),
        r.bounded(COORD_MAX as int),
    ensures
        poly_radius_at(rect_vertices(r), angle) >= project(r.offset, angle),
{
    let vs = rect_vertices(r);
    let c: int = cos_units(angle);
    let s: int = sin_units(angle);
    crate::angle::lemma_cos_units_range(angle);
    crate::angle::lemma_sin_units_range(angle);
    let q0 = rect_corner(r, 0);
    let q2 = rect_corner(r, 2);
    lemma_tdiv_nonneg(r.width as int, 2);
    lemma_tdiv_nonneg(r.height as int, 2);
    assert(q0.x == -q2.x && q0.y == -q2.y);
    let w0 = rot_vec(q0, r.rotation as int);
    let w2 = rot_vec(q2, r.rotation as int);
    assert(w0.x == -w2.x && w0.y == -w2.y) by {
        let cc: int = cos_units(r.rotation as int);
        let ss: int = sin_units(r.rotation as int);
        crate::angle::lemma_cos_units_range(r.rotation as int);
        crate::angle::lemma_sin_units_range(r.rotation as int);
        assert(q0.x as int * cc - q0.y as int * ss == -(q2.x as int * cc - q2.y as int * ss)
            && q0.x as int * ss + q0.y as int * cc == -(q2.x as int * ss + q2.y as int * cc)) by (
        nonlinear_arith)
            requires
                q0.x == -q2.x,
                q0.y == -q2.y,
        ;
        let m: int = iabs(q2.x as int) + iabs(q2.y as int);
        assert(iabs(q2.x as int * cc - q2.y as int * ss) <= m * (UNIT as int) && iabs(
        q2.x as int * ss + q2.y as int * cc) <= m * (UNIT as int)) by (nonlinear_arith)
            requires
                -UNIT <= cc <= UNIT,
                -UNIT <= ss <= UNIT,
                m == iabs(q2.x as int) + iabs(q2.y as int),
        ;
        crate::num::lemma_tdiv_mag(q2.x as int * cc - q2.y as int * ss, UNIT as int, m);
        crate::num::lemma_tdiv_mag(q2.x as int * ss + q2.y as int * cc, UNIT as int, m);
        lemma_tdiv_neg(q2.x as int * cc - q2.y as int * ss, UNIT as int);
        lemma_tdiv_neg(q2.x as int * ss + q2.y as int * cc, UNIT as int);
    }
    let v0 = vs[0];
    let v2 = vs[2];
    assert(v0 == rect_vertex(r, 0) && v2 == rect_vertex(r, 2));
    assert(v0 == vec_plus(w0, r.offset) && v2 == vec_plus(w2, r.offset));
    crate::vec2::lemma_rot_vec_bounds(q2, r.rotation as int);
    let d0: int = v0.x as int * c + v0.y as int * s;
    let d2: int = v2.x as int * c + v2.y as int * s;
    let doff: int = r.offset.x as int * c + r.offset.y as int * s;
    assert(d0 + d2 == 2 * doff) by (nonlinear_arith)
        requires
            d0 == v0.x as int * c + v0.y as int * s,
            d2 == v2.x as int * c + v2.y as int * s,
            doff == r.offset.x as int * c + r.offset.y as int * s,
            v0.x as int == w0.x + r.offset.x,
            v0.y as int == w0.y + r.offset.y,
            v2.x as int == w2.x + r.offset.x,
            v2.y as int == w2.y + r.offset.y,
            w0.x == -w2.x,
            w0.y == -w2.y,
    ;
    if d0 >= doff {
        lemma_tdiv_monotone(doff, d0, UNIT as int);
        lemma_poly_fold_ge(vs, angle, 4, 0);
    } else {
        lemma_tdiv_monotone(doff, d2, UNIT as int);
        lemma_poly_fold_ge(vs, angle, 4, 2);
    }
}

/// A regular polygon's support radius is never negative, so for one
/// stored at the local origin it is never below the projection of the
/// (zero) offset.
pub proof fn lemma_rp_support_nonneg(p: RegularPolygon, angle: int)
    ensures
        poly_radius_at(rp_vertices(p), angle) >= 0,
    decreases p.num_sides as int,
{
    lemma_poly_fold_nonneg(rp_vertices(p), angle, p.num_sides as int);
}

proof fn lemma_poly_fold_nonneg(vs: Seq<Vec2>, angle: int, i: int)
    ensures
        poly_radius_at_upto(vs, angle, i) >= 0,
    decreases i,
{
    if i > 0 {
        lemma_poly_fold_nonneg(vs, angle, i - 1);
    }
}

proof fn lemma_wrap_fold_ge(s: Shape, n: int, rotation: int, i: int, k: int)
    requires
        0 <= k < i,
    ensures
        rp_wrap_inner_upto(s, n, rotation, i) >= shape_radius_at(
            s,
            wrap_sample_angle(rotation, n, k),
        ),
    decreases i,
{
    if k < i - 1 {
        lemma_wrap_fold_ge(s, n, rotation, i - 1, k);
    }
}

proof fn lemma_wrap_fold_nonneg(s: Shape, n: int, rotation: int, i: int)
    ensures
        rp_wrap_inner_upto(s, n, rotation, i) >= 0,
    decreases i,
{
    if i > 0 {
        lemma_wrap_fold_nonneg(s, n, rotation, i - 1);
    }
}

/// The enclosing regular polygon covers the wrapped shape at every
/// sampled face-bisector direction: converting the wrap's circumradius
/// back to a face distance reaches at least the shape's padded support
/// there, so no sampled part of the shape pokes outside.
pub proof fn lemma_wrap_covers(s: Shape, n: int, rotation: int, padding: int, k: int)
    requires
        3 <= n <= crate::bounding::MAX_SIDES,
        0 <= padding,
        0 <= k < n,
    ensures
        tdiv(
            rp_wrap_outer(s, n, rotation, padding) * cos_units(tdiv(TURN as int, 2 * n)),
            UNIT as int,
        ) >= shape_radius_at(s, wrap_sample_angle(rotation, n, k)) + padding,
{
    let half: int = tdiv(TURN as int, 2 * n);
    let inner: int = rp_wrap_inner_upto(s, n, rotation, n);
    let cosv: int = cos_units(half);
    assert(1 <= half <= 3600) by {
        vstd::arithmetic::div_mod::lemma_div_is_ordered_by_denominator(TURN as int, 6, 2 * n);
        vstd::arithmetic::div_mod::lemma_div_is_ordered_by_denominator(TURN as int, 2 * n, 7200);
        lemma_tdiv_nonneg(TURN as int, 2 * n);
    }
    lemma_cos_units_pos(half);
    lemma_cos_units_range(half);
    lemma_wrap_fold_ge(s, n, rotation, n, k);
    lemma_wrap_fold_nonneg(s, n, rotation, n);
    let a: int = (inner + padding) * (UNIT as int);
    assert(a >= 0) by (nonlinear_arith)
        requires
            inner + padding >= 0,
            a == (inner + padding) * (UNIT as int),
    ;
    let outer: int = cdiv(a, cosv);
    lemma_cdiv_ge(a, cosv);
    assert(outer * cosv >= a);
    lemma_tdiv_monotone(a, outer * cosv, UNIT as int);
    lemma_tdiv_exact(inner + padding, UNIT as int);
}

/// An inscribed circle never exceeds the enclosing circle: the inradius
/// the fill uses is at most the circumradius the wrap uses, member by
/// member.
pub proof fn lemma_fill_le_wrap(s: Shape)
    requires
        shape_wf(s),
    ensures
        shape_inner_radius(s) <= shape_radius(s),
        shape_inner_radius(s) >= 0,
    decreases s,
{
    match s {
        Shape::Circle(c) => {
            assert(crate::vec2::norm(c.offset) >= 0);
        },
        Shape::Rect(r) => {
            crate::bounding::lemma_poly_inner_nonneg(rect_vertices(r));
        },
        Shape::RegularPolygon(p) => {
            crate::bounding::lemma_poly_inner_nonneg(rp_vertices(p));
        },
        Shape::Line(_) => {
            lemma_shape_radius_nonneg_rect(s);
        },
        Shape::Composite(ms) => {
            lemma_fill_le_wrap_members(ms@, ms@.len() as int);
        },
    }
}

proof fn lemma_fill_le_wrap_members(ss: Seq<Shape>, i: int)
    requires
        forall|j: int| 0 <= j < ss.len() ==> shape_wf(#[trigger] ss[j]),
    ensures
        shapes_inner_upto(ss, i) <= shapes_radius_upto(ss, i),
        shapes_inner_upto(ss, i) >= 0,
    decreases ss, i,
{
    if 0 < i <= ss.len() {
        lemma_fill_le_wrap_members(ss, i - 1);
        lemma_fill_le_wrap(ss[i - 1]);
    }
}

/// Every concrete shape kind's circumradius is nonnegative for the
/// non-circle kinds (their folds start from zero or a square root).
proof fn lemma_shape_radius_nonneg_rect(s: Shape)
    requires
        !(s is Circle),
        !(s is Composite),
    ensures
        shape_radius(s) >= 0,
{
}

/// After the content constraint pass, the content's outer radius meets
/// the minimum the rim demands: it is left alone only when it already
/// meets it, and otherwise raised until it does.
pub proof fn lemma_content_minimum_met(params: LayoutParams, a: Node, rim: Seq<Node>, b: Node)
    requires
        content_constrained(params, a, rim, b),
    ensures
        node_radius(b) >= min_content_radius(params, rim),
{
}

/// After the rim constraint pass, every rim item's outer radius meets
/// the configured minimum rim radius.
pub proof fn lemma_rim_minimum_met(params: LayoutParams, mean: int, a: Node, b: Node)
    requires
        rim_constrained(params, mean, a, b),
    ensures
        node_radius(b) >= params.circle_min_rim_ratio.apply(mean),
{
}

/// The components of a rim placement translation never exceed the
/// anchor-plus-correction distance; the realized Euclidean length may
/// round a few units below it, but each fixed-point component is pinned
/// exactly by `rim_translation`.
pub proof fn lemma_rim_translation_components(params: LayoutParams, mean: int, inner: int,
    m1: Node, n: int, i: int)
    requires
        0 <= mean + rim_offset_amt(params, inner, node_radius_at(m1, rim_angle(n, i)
            - HALF_TURN)) <= 100_000_000_000,
    ensures
        iabs(rim_translation(params, mean, inner, m1, n, i).x as int) <= mean + rim_offset_amt(
            params,
            inner,
            node_radius_at(m1, rim_angle(n, i) - HALF_TURN),
        ),
        iabs(rim_translation(params, mean, inner, m1, n, i).y as int) <= mean + rim_offset_amt(
            params,
            inner,
            node_radius_at(m1, rim_angle(n, i) - HALF_TURN),
        ),
{
    let ang: int = rim_angle(n, i);
    let dist: int = mean + rim_offset_amt(params, inner, node_radius_at(m1, ang - HALF_TURN));
    let c: int = cos_units(ang);
    let s: int = sin_units(ang);
    crate::angle::lemma_cos_units_range(ang);
    crate::angle::lemma_sin_units_range(ang);
    assert(iabs(dist * c) <= dist * (UNIT as int) && iabs(dist * s) <= dist * (UNIT as int)) by (
    nonlinear_arith)
        requires
            -UNIT <= c <= UNIT,
            -UNIT <= s <= UNIT,
            0 <= dist,
    ;
    crate::num::lemma_tdiv_mag(dist * c, UNIT as int, dist);
    crate::num::lemma_tdiv_mag(dist * s, UNIT as int, dist);
}

/// For any item count, consecutive rim placement angles differ by the
/// truncated segment `TURN / n` or by one unit more: equal angular
/// spacing up to the fixed-point angle resolution.
pub proof fn lemma_rim_spacing_within_unit(n: int, i: int)
    requires
        1 <= n,
        0 <= i < n - 1,
    ensures
        tdiv(TURN as int, n) <= rim_angle(n, i + 1) - rim_angle(n, i) <= tdiv(TURN as int, n)
            + 1,
{
    let t: int = TURN as int;
    let a: int = i * t;
    assert(a >= 0 && a + t == (i + 1) * t) by (nonlinear_arith)
        requires
            0 <= i,
            a == i * t,
            t == TURN as int,
    ;
    vstd::arithmetic::div_mod::lemma_fundamental_div_mod(a, n);
    vstd::arithmetic::div_mod::lemma_fundamental_div_mod(t, n);
    vstd::arithmetic::div_mod::lemma_mod_bound(a, n);
    vstd::arithmetic::div_mod::lemma_mod_bound(t, n);
    let q: int = t / n;
    let x: int = a % n;
    let r: int = t % n;
    if x + r < n {
        assert(a + t == n * (a / n + q) + (x + r)) by (nonlinear_arith)
            requires
                a == n * (a / n) + x,
                t == n * q + r,
        ;
        vstd::arithmetic::div_mod::lemma_fundamental_div_mod_converse_div(a + t, n, a / n + q,
            x + r);
    } else {
        assert(a + t == n * (a / n + q + 1) + (x + r - n)) by (nonlinear_arith)
            requires
                a == n * (a / n) + x,
                t == n * q + r,
        ;
        vstd::arithmetic::div_mod::lemma_fundamental_div_mod_converse_div(a + t, n,
            a / n + q + 1, x + r - n);
    }
    lemma_tdiv_nonneg(a, n);
    lemma_tdiv_nonneg(a + t, n);
    lemma_tdiv_nonneg(t, n);
}

/// Rim items of a circle sit at exactly equal angular spacing: when the
/// item count divides the angle scale, consecutive placement angles
/// differ by exactly one `TURN / n` segment.
pub proof fn lemma_rim_spacing_exact(n: int, i: int)
    requires
        1 <= n,
        0 <= i < n - 1,
        (TURN as int) % n == 0,
    ensures
        rim_angle(n, i + 1) - rim_angle(n, i) == tdiv(TURN as int, n),
{
    let q: int = (TURN as int) / n;
    vstd::arithmetic::div_mod::lemma_fundamental_div_mod(TURN as int, n);
    assert(i * (TURN as int) == (i * q) * n && (i + 1) * (TURN as int) == ((i + 1) * q) * n) by (
    nonlinear_arith)
        requires
            TURN as int == n * q,
    ;
    lemma_tdiv_exact(i * q, n);
    lemma_tdiv_exact((i + 1) * q, n);
    assert((i + 1) * q - i * q == q) by (nonlinear_arith);
    assert(q >= 0) by {
        vstd::arithmetic::div_mod::lemma_div_pos_is_pos(TURN as int, n);
    }
    lemma_tdiv_nonneg(TURN as int, n);
}

} // verus!
