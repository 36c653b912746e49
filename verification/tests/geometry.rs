//! Tests of the geometry kernel: fixed-point trigonometry, scalar
//! helpers, shape queries, transforms, and the wrap and fill
//! constructors.

use conjure_visualizer::angle::{cos_fp, sin_fp, HALF_TURN, QUARTER_TURN, TURN, UNIT};
use conjure_visualizer::bounding::{Circle, Line, Rect, RegularPolygon, Shape};
use conjure_visualizer::num::{cdiv_exec, isqrt, mul_div, tdiv_exec, Ratio};
use conjure_visualizer::vec2::Vec2;

#[test]
fn trig_cardinal_values() {
    assert_eq!(sin_fp(0), 0);
    assert_eq!(sin_fp(QUARTER_TURN), UNIT);
    assert_eq!(sin_fp(HALF_TURN), 0);
    assert_eq!(sin_fp(3 * QUARTER_TURN), -UNIT);
    assert_eq!(cos_fp(0), UNIT);
    assert_eq!(cos_fp(QUARTER_TURN), 0);
    assert_eq!(cos_fp(HALF_TURN), -UNIT);
    assert_eq!(cos_fp(TURN), UNIT);
    assert_eq!(sin_fp(-QUARTER_TURN), -UNIT);
}

#[test]
fn trig_stays_in_range() {
    let mut a: i64 = -2 * TURN;
    while a <= 2 * TURN {
        assert!(sin_fp(a) >= -UNIT && sin_fp(a) <= UNIT);
        assert!(cos_fp(a) >= -UNIT && cos_fp(a) <= UNIT);
        a += 337;
    }
}

#[test]
fn scalar_helpers() {
    assert_eq!(isqrt(0), 0);
    assert_eq!(isqrt(125), 11);
    assert_eq!(isqrt(144), 12);
    assert_eq!(tdiv_exec(-7, 2), -3);
    assert_eq!(tdiv_exec(7, 2), 3);
    assert_eq!(cdiv_exec(7, 2), 4);
    assert_eq!(cdiv_exec(6, 2), 3);
    assert_eq!(mul_div(-7, 1, 2), -3);
    assert_eq!(Ratio::new(3, 2).scale_val(10), 15);
}

#[test]
fn circle_support_radius() {
    let c = Circle::new(10, Vec2::new(-3, 0));
    // The stored offset is the negated center, so it is (3, 0).
    assert_eq!(c.convex_radius_at(0), 13);
    assert_eq!(c.convex_radius_at(HALF_TURN), 7);
    assert_eq!(c.convex_radius(), 13);
    assert_eq!(c.inner_radius(), 7);
}

#[test]
fn circle_translate_round_trip() {
    let mut c = Circle::new(10, Vec2::new(4, -6));
    let d = Vec2::new(17, 23);
    let before = c;
    c.translate(d);
    c.translate(Vec2::new(-17, -23));
    assert_eq!(c, before);
}

#[test]
fn regular_polygon_translate_round_trip() {
    let mut p = RegularPolygon::new(5, 100, 0);
    let before = p;
    p.translate(Vec2::new(-31, 8));
    p.translate(Vec2::new(31, -8));
    assert_eq!(p, before);
}

#[test]
fn centered_rotate_round_trip() {
    let mut c = Circle::from_radius(25);
    let before = c;
    c.rotate(777);
    c.rotate(-777);
    assert_eq!(c, before);
    let mut p = RegularPolygon::new(6, 40, 100);
    let before_p = p;
    p.rotate(1234);
    p.rotate(-1234);
    assert_eq!(p, before_p);
}

#[test]
fn rect_vertices_and_queries() {
    let r = Rect::from_width_height(20, 10);
    let vs = r.vertices();
    assert_eq!(vs.len(), 4);
    assert_eq!(vs[0], Vec2::new(-10, -5));
    assert_eq!(vs[2], Vec2::new(10, 5));
    assert_eq!(r.convex_radius(), 11);
    assert_eq!(r.convex_radius_at(0), 10);
    assert_eq!(r.convex_radius_at(QUARTER_TURN), 5);
    let (xr, yr) = r.convex_coords_range();
    assert_eq!((xr.lo, xr.hi, yr.lo, yr.hi), (-10, 10, -5, 5));
}

#[test]
fn rect_support_covers_offset_projection() {
    let mut r = Rect::from_width_height(20, 10);
    r.translate(Vec2::new(7, -3));
    let mut a: i64 = 0;
    while a < TURN {
        let c = cos_fp(a);
        let s = sin_fp(a);
        let proj = (7 * c + (-3) * s) / UNIT;
        assert!(r.convex_radius_at(a) >= proj);
        a += 450;
    }
}

#[test]
fn line_queries() {
    let l = Line::new(Vec2::new(0, 5), Vec2::new(10, 5));
    assert_eq!(l.convex_radius(), 11);
    // The perpendicular foot from the origin onto the line is (0, 5).
    assert_eq!(l.convex_radius_at(0), 5);
    let (xr, yr) = l.convex_coords_range();
    assert_eq!((xr.lo, xr.hi, yr.lo, yr.hi), (0, 10, 5, 5));
}

#[test]
fn circle_wrap_of_composite() {
    let a = Shape::Circle(Circle::from_radius(10));
    let b = Shape::Circle(Circle::new(5, Vec2::new(-20, 0)));
    let u = Shape::Composite(vec![a, b]);
    let w = Circle::wrap(&u, 2);
    // The off-center member reaches 20 + 5 = 25 from the origin.
    assert_eq!(w.radius(), 27);
}

#[test]
fn rect_wrap_spans_ranges() {
    let c = Shape::Circle(Circle::new(10, Vec2::new(-3, 0)));
    let w = Rect::wrap(&c, 1);
    // Offset (3, 0): x range [-7, 13], y range [-10, 10].
    assert_eq!(w.width(), 28);
    assert_eq!(w.height(), 22);
    assert_eq!(w.rotation(), 0);
}

#[test]
fn regular_polygon_wrap_covers_samples() {
    let s = Shape::Circle(Circle::from_radius(100));
    let w = RegularPolygon::wrap(&s, 4, 0, 0);
    assert_eq!(w.num_sides(), 4);
    // Converting the circumradius back to a face distance must reach the
    // sampled support of 100 in every bisector direction.
    let cos_half = cos_fp(TURN / 8);
    assert!(w.outer_radius() * cos_half / UNIT >= 100);
    // And the wrap is tight to within the fixed-point resolution.
    assert!(w.outer_radius() * cos_half / UNIT <= 102);
}

#[test]
fn fill_never_larger_than_wrap() {
    let s = Shape::Circle(Circle::new(10, Vec2::new(-3, -4)));
    let f = Circle::fill(&s, 0);
    let w = Circle::wrap(&s, 0);
    // Offset magnitude 5: inscribed 5, enclosing 15.
    assert_eq!(f.radius(), 5);
    assert_eq!(w.radius(), 15);
    assert!(f.radius() <= w.radius());
}

#[test]
fn fill_clamps_at_zero() {
    let s = Shape::Circle(Circle::new(3, Vec2::new(-30, 0)));
    let f = Circle::fill(&s, 1);
    assert_eq!(f.radius(), 0);
}

#[test]
fn scale_truncates_toward_zero() {
    let mut c = Circle::new(9, Vec2::new(-5, 3));
    c.scale(Ratio::new(1, 2));
    assert_eq!(c.radius(), 4);
    assert_eq!(c.offset, Vec2::new(2, -1));
}

#[test]
fn wrap_rotated_spans_supports() {
    let s = Shape::Circle(Circle::from_radius(50));
    let w = Rect::wrap_rotated(&s, 300, 1);
    // A centered circle supports every direction at its radius.
    assert_eq!(w.width(), 102);
    assert_eq!(w.height(), 102);
    assert_eq!(w.rotation(), 300);
}

#[test]
fn composite_inner_radius_takes_best_member() {
    let a = Shape::Circle(Circle::new(10, Vec2::new(-3, -4)));
    let b = Shape::Circle(Circle::from_radius(2));
    let u = Shape::Composite(vec![a, b]);
    assert_eq!(u.inner_radius(), 5);
}

#[test]
fn rect_inner_radius_is_nearest_side() {
    let r = Rect::from_width_height(20, 10);
    // The nearest side lines are the horizontal ones, 5 units away.
    assert_eq!(r.inner_radius(), 5);
    let s = Shape::Rect(r);
    assert_eq!(s.inner_radius(), 5);
    let f = Circle::fill(&s, 1);
    assert_eq!(f.radius(), 4);
}

#[test]
fn regular_polygon_inner_radius_within_circumradius() {
    let p = RegularPolygon::new(6, 100, 0);
    let inner = p.inner_radius();
    // A hexagon's inradius is cos(30 degrees) of its circumradius.
    assert!(inner >= 85 && inner <= 87);
    assert!(inner <= p.convex_radius());
}

#[test]
fn centered_rect_rotate_round_trip() {
    let mut r = Rect::from_width_height_rotation(20, 10, 700);
    let before = r;
    r.rotate(4321);
    r.rotate(-4321);
    assert_eq!(r, before);
}
