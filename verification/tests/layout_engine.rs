//! Tests of the layout engine: text stacking, the per-kind construction
//! rules, and the recursive driver.

use conjure_visualizer::angle::{QUARTER_TURN, TURN, UNIT};
use conjure_visualizer::bounding::{Rect as BRect, RegularPolygon as BRegularPolygon};
use conjure_visualizer::layout::{
    stack_lines, Circle, Decorated, Emphasized, LayoutError, LayoutParams, Link, Node, Pentagram,
    Phrase, RegularPolygon, Symbol, BASE_PLACEMENT_ROTATION, PENTAGRAM_INNER_ROTATION,
    PENTAGRAM_OUTER_ROTATION,
};
use conjure_visualizer::num::Ratio;
use conjure_visualizer::vec2::Vec2;
use conjure_visualizer::visual;

fn params() -> LayoutParams {
    LayoutParams {
        emphasis_rays_radius_ratio: Ratio::new(3, 2),
        decoration_hat_relative_width: Ratio::new(1, 2),
        decoration_hat_relative_height: Ratio::new(1, 4),
        decoration_tilde_relative_width: Ratio::new(1, 2),
        decoration_tilde_relative_height: Ratio::new(1, 5),
        decoration_rays_relative_width: Ratio::new(2, 5),
        decoration_rays_relative_height: Ratio::new(2, 5),
        decoration_position_radius_ratio: Ratio::new(3, 2),
        circle_content_scale: Ratio::new(9, 10),
        double_stroke_radius_ratio: Ratio::new(11, 10),
        circle_max_rim_overlap_ratio: Ratio::new(1, 10),
        circle_min_rim_ratio: Ratio::new(3, 10),
        circle_max_rim_ratio: Ratio::new(2, 1),
        polygon_content_scale: Ratio::new(9, 10),
    }
}

/// A symbol node whose boundary is one rectangle of the given size.
fn rect_symbol(w: i64, h: i64) -> Node {
    let sym = visual::Symbol {
        name: "x".to_string(),
        lines: vec![BRect::from_width_height(w, h)],
    };
    Node::Symbol(Symbol::construct(sym).unwrap())
}

#[test]
fn params_are_valid() {
    assert!(params().is_valid());
}

#[test]
fn stack_lines_centers_block() {
    let rects = stack_lines(&vec![100, 200], 10, 2).unwrap();
    assert_eq!(rects.len(), 2);
    assert_eq!(rects[0].width, 100);
    assert_eq!(rects[0].height, 10);
    assert_eq!(rects[0].offset, Vec2::new(0, -6));
    assert_eq!(rects[1].offset, Vec2::new(0, 6));
}

#[test]
fn stack_lines_rejects_empty() {
    assert_eq!(stack_lines(&vec![], 10, 2), Err(LayoutError::Degenerate));
}

#[test]
fn symbol_construct_rejects_empty_and_huge() {
    let empty = visual::Symbol { name: "a".to_string(), lines: vec![] };
    assert_eq!(Symbol::construct(empty), Err(LayoutError::Degenerate));
    let huge = visual::Symbol {
        name: "a".to_string(),
        lines: vec![BRect::from_width_height(2_000_000_000, 1)],
    };
    assert_eq!(Symbol::construct(huge), Err(LayoutError::TooLarge));
}

#[test]
fn symbol_boundary_radius() {
    // A 16 x 12 rectangle has circumradius exactly 10.
    let n = rect_symbol(16, 12);
    assert_eq!(n.outer_radius(), 10);
}

#[test]
fn pentagram_fixed_ratio_and_rotation() {
    let child = rect_symbol(8, 6);
    let inner = {
        let probe = rect_symbol(8, 6);
        BRegularPolygon::wrap(&probe.boundary(), 5, PENTAGRAM_INNER_ROTATION, 0)
    };
    let p = Pentagram::construct(&params(), child).unwrap();
    assert_eq!(p.boundary.num_sides, 5);
    assert_eq!(
        p.boundary.outer_radius,
        inner.outer_radius * 2_618_034 / 1_000_000
    );
    assert_eq!(p.boundary.rotation, PENTAGRAM_OUTER_ROTATION);
    assert_eq!(
        p.boundary.rotation,
        PENTAGRAM_INNER_ROTATION - QUARTER_TURN
    );
}

#[test]
fn circle_without_rim_scales_inner_exactly() {
    // Content of circumradius 10 and a double stroke: the outer circle
    // is the inner circle scaled by the stroke ratio, exactly.
    let content = rect_symbol(16, 12);
    let c = Circle::construct(
        &params(),
        visual::StrokePattern::Line,
        visual::CirclePattern::Plain,
        true,
        vec![],
        content,
    )
    .unwrap();
    assert_eq!(c.boundary.radius, 10 * 11 / 10);
    assert_eq!(c.rim.len(), 0);
    assert_eq!(c.boundary.offset, Vec2::new(0, 0));
}

#[test]
fn circle_rim_constraints_and_spacing() {
    // Six equal rim items around content of circumradius 10, with
    // max-rim-ratio 2 and min-rim-ratio 0.3.
    let content = rect_symbol(16, 12);
    let rim: Vec<Node> = (0..6).map(|_| rect_symbol(2, 2)).collect();
    let c = Circle::construct(
        &params(),
        visual::StrokePattern::Line,
        visual::CirclePattern::Plain,
        false,
        rim,
        content,
    )
    .unwrap();
    assert_eq!(c.rim.len(), 6);
    // Single stroke: outer == inner == 10, mean radius 10, so the
    // minimum rim radius is 3; every rim item was scaled up to reach it.
    assert_eq!(c.boundary.radius, 10);
    for item in c.rim.iter() {
        assert!(item.outer_radius() >= 3);
    }
    // The placement angles are exactly a sixth of a turn apart; with the
    // base rotation the first item faces straight down.
    assert_eq!(TURN % 6, 0);
    assert_eq!(BASE_PLACEMENT_ROTATION, -QUARTER_TURN);
}

#[test]
fn circle_scales_small_content_up() {
    // A rim item of radius 10 around content of radius 1 forces the
    // content up to radius 5 under max-rim-ratio 2.
    let content = rect_symbol(2, 0);
    let rim = vec![rect_symbol(16, 12)];
    let c = Circle::construct(
        &params(),
        visual::StrokePattern::Line,
        visual::CirclePattern::Plain,
        false,
        rim,
        content,
    )
    .unwrap();
    assert_eq!(c.boundary.radius, 5);
}

#[test]
fn circle_rejects_zero_content_needing_scale() {
    let content = rect_symbol(0, 0);
    let rim = vec![rect_symbol(16, 12)];
    let r = Circle::construct(
        &params(),
        visual::StrokePattern::Line,
        visual::CirclePattern::Plain,
        false,
        rim,
        content,
    );
    assert_eq!(r.err(), Some(LayoutError::Degenerate));
}

#[test]
fn regular_polygon_rejects_too_few_sides() {
    let child = rect_symbol(8, 6);
    let r = RegularPolygon::construct(&params(), 2, visual::StrokePattern::Line, child);
    assert_eq!(r.err(), Some(LayoutError::Degenerate));
}

#[test]
fn emphasized_enlarges_wrapping_circle() {
    let child = rect_symbol(16, 12);
    let e = Emphasized::construct(&params(), visual::EmphasisKind::Rays, child).unwrap();
    assert_eq!(e.boundary.radius, 15);
    assert_eq!(e.boundary.offset, Vec2::new(0, 0));
}

#[test]
fn decorated_places_marker_above() {
    let child = rect_symbol(16, 12);
    let d = Decorated::construct(&params(), visual::DecorationKind::Hat, child).unwrap();
    // Child radius 10: the hat is 5 x 2, positioned 15 units along the
    // upward angle (a negative quarter turn).
    assert_eq!(d.decoration_rect.width, 5);
    assert_eq!(d.decoration_rect.height, 2);
    assert_eq!(d.decoration_rect.offset, Vec2::new(0, -15));
}

#[test]
fn link_places_two_items_on_a_diameter() {
    let items = vec![rect_symbol(8, 6), rect_symbol(8, 6)];
    let l = Link::construct(&params(), visual::StrokePattern::Chain, items).unwrap();
    assert_eq!(l.items.len(), 2);
    assert_eq!(l.segments.len(), 1);
    // Largest item radius 5 and two items: the ring radius is 5 and the
    // items sit on opposite ends of a horizontal diameter.
    assert_eq!(l.segments[0].start, Vec2::new(5, 0));
    assert_eq!(l.segments[0].end, Vec2::new(-5, 0));
}

#[test]
fn link_rejects_empty() {
    let r = Link::construct(&params(), visual::StrokePattern::Chain, vec![]);
    assert_eq!(r.err(), Some(LayoutError::Degenerate));
}

#[test]
fn node_translate_round_trip() {
    let mut a = rect_symbol(16, 12);
    let b = rect_symbol(16, 12);
    a.translate(Vec2::new(100, -50));
    a.translate(Vec2::new(-100, 50));
    assert_eq!(a, b);
}

#[test]
fn driver_builds_nested_tree() {
    let fig = visual::Figure::Decorated(visual::Decorated {
        kind: visual::DecorationKind::Hat,
        content: Box::new(visual::Figure::Circle(visual::Circle {
            stroke: visual::StrokePattern::Line,
            pattern: visual::CirclePattern::Plain,
            double: false,
            rim: vec![visual::Figure::Symbol(visual::Symbol {
                name: "r".to_string(),
                lines: vec![BRect::from_width_height(2, 2)],
            })],
            content: Box::new(visual::Figure::Symbol(visual::Symbol {
                name: "c".to_string(),
                lines: vec![BRect::from_width_height(16, 12)],
            })),
        })),
    });
    let node = Node::construct(&params(), &fig).unwrap();
    match node {
        Node::Decorated(d) => match *d.child {
            Node::Circle(c) => {
                assert_eq!(c.rim.len(), 1);
                assert_eq!(c.boundary.radius, 10);
            }
            _ => panic!("expected a circle child"),
        },
        _ => panic!("expected a decorated node"),
    }
}

#[test]
fn driver_rejects_empty_arrangement() {
    let fig = visual::Figure::Arrangement(vec![]);
    assert_eq!(
        Node::construct(&params(), &fig).err(),
        Some(LayoutError::Degenerate)
    );
}

#[test]
fn phrase_construct_keeps_lines() {
    let ph = visual::Phrase {
        text: "two\nlines".to_string(),
        lines: stack_lines(&vec![30, 50], 10, 2).unwrap(),
    };
    let p = Phrase::construct(ph).unwrap();
    assert_eq!(p.boundary.len(), 2);
    assert_eq!(p.text, "two\nlines");
}

#[test]
fn decorated_tilde_sits_below() {
    let child = rect_symbol(16, 12);
    let d = Decorated::construct(&params(), visual::DecorationKind::Tilde, child).unwrap();
    assert_eq!(d.decoration_rect.offset, Vec2::new(0, 15));
    assert_eq!(d.decoration_rect.height, 2);
}

#[test]
fn decorated_rays_uses_its_own_ratios() {
    let child = rect_symbol(16, 12);
    let d = Decorated::construct(&params(), visual::DecorationKind::Rays, child).unwrap();
    assert_eq!(d.decoration_rect.width, 4);
    assert_eq!(d.decoration_rect.height, 4);
    assert_eq!(d.decoration_rect.offset, Vec2::new(0, -15));
}

#[test]
fn stack_lines_rejects_oversized_block() {
    // One short of the line cap is fine; over it is rejected.
    let widths: Vec<i64> = vec![1; 1_000_001];
    assert_eq!(stack_lines(&widths, 1, 0), Err(LayoutError::TooLarge));
}

#[test]
fn circle_content_shrinks_cosmetically() {
    // The cosmetic content scale shrinks the stored content child but
    // feeds back into no sizing decision: the boundary stays at the
    // unshrunk inner radius.
    let content = rect_symbol(16, 12);
    let c = Circle::construct(
        &params(),
        visual::StrokePattern::Line,
        visual::CirclePattern::Plain,
        false,
        vec![],
        content,
    )
    .unwrap();
    assert_eq!(c.boundary.radius, 10);
    // 16 x 12 shrinks to 14 x 10, whose circumradius rounds down to 8.
    assert_eq!(c.content.outer_radius(), 8);
}

#[test]
fn node_rotate_keeps_centered_boundary_radius() {
    // A quarter turn is exact in the fixed-point trigonometry, so the
    // rotated rectangle's circumradius is preserved exactly.
    let mut n = rect_symbol(16, 12);
    n.rotate(QUARTER_TURN);
    assert_eq!(n.outer_radius(), 10);
}

#[test]
fn raise_to_minimum_reaches_bound_despite_truncation() {
    // A degenerate rectangle at offset (3, 4) has circumradius exactly 5.
    // One truncating scale by 7/5 lands at (4, 5), circumradius 6 — still
    // short — so the pass re-measures and escalates until 7 is reached.
    let mut n = rect_symbol(0, 0);
    n.translate(Vec2::new(-3, -4));
    assert_eq!(n.outer_radius(), 5);
    conjure_visualizer::layout::raise_to_minimum(7, &mut n).unwrap();
    assert!(n.outer_radius() >= 7);
}

#[test]
fn raise_to_minimum_leaves_satisfied_nodes_alone() {
    let mut n = rect_symbol(16, 12);
    let before = rect_symbol(16, 12);
    conjure_visualizer::layout::raise_to_minimum(7, &mut n).unwrap();
    assert_eq!(n, before);
}

#[test]
fn rim_constraint_pass_meets_minimum() {
    // Minimum rim radius 0.7 * mean(10) = 7 against an item of radius 5.
    let mut p = params();
    p.circle_min_rim_ratio = Ratio::new(7, 10);
    let mut off_center = rect_symbol(0, 0);
    off_center.translate(Vec2::new(-3, -4));
    let mut rim = vec![off_center, rect_symbol(2, 2)];
    Circle::apply_rim_constraints(&p, &mut rim, 10).unwrap();
    for item in rim.iter() {
        assert!(item.outer_radius() >= 7);
    }
}

#[test]
fn content_constraint_pass_meets_minimum() {
    // A rim item of radius 10 demands content radius 5 under
    // max-rim-ratio 2; content of radius 1 must actually reach 5.
    let mut content = rect_symbol(0, 0);
    content.translate(Vec2::new(0, -1));
    let rim = vec![rect_symbol(16, 12)];
    Circle::apply_content_constraints(&params(), &mut content, &rim).unwrap();
    assert!(content.outer_radius() >= 5);
}
