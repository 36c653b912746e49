//! The radial layout engine: from an abstract figure tree to a tree of
//! positioned layout nodes.
//!
//! Construction is a single recursive descent.  Each node kind is built
//! from its already-constructed children by a combinator with an exact
//! contract; the recursive driver `Node::construct` composes them.  A
//! node owns its subtree; the three affine operations apply to the whole
//! owned subtree and are specified by the relational predicates
//! `node_translated`, `node_rotated` and `node_scaled`.
//!
//! All geometry lives in the layout coordinate domain: every stored
//! scalar of a constructed node has magnitude at most
//! `crate::num::COORD_MAX`, and construction reports `TooLarge` rather
//! than leave it.

use vstd::prelude::*;
use crate::num::{tdiv, cdiv, iabs, imax, Ratio, COORD_MAX, RATIO_MAX, mul_div, tdiv_exec,
    lemma_tdiv_mag, lemma_tdiv_nonneg};
use crate::angle::{TURN, HALF_TURN, QUARTER_TURN, UNIT, ANGLE_MAX, sin_units, cos_units, sin_fp,
    cos_fp};
use crate::vec2::{Vec2, norm, ROT_MAX, TRANS_MAX};
use crate::bounding::{Circle as BCircle, Rect as BRect,
    RegularPolygon as BRegularPolygon, Line as BLine, Shape, shape_wf, shape_bounded,
    shape_radius, shape_radius_at, shapes_radius_upto, shapes_radius_at_upto, circle_radius,
    circle_radius_at, circle_translate, circle_rotate, circle_scale, rect_translate, rect_rotate,
    rect_scale, rect_vertices, rp_translate, rp_rotate, rp_scale, rp_vertices,
    line_translate, line_rotate, line_scale, line_radius, line_radius_at, poly_radius,
    poly_radius_at, MAX_SIDES};
use crate::visual;

verus! {

/// The configured ratios that steer the whole construction pass.
#[derive(Clone, Copy, Debug, PartialEq, Eq, Structural)]
pub struct LayoutParams {
    pub emphasis_rays_radius_ratio: Ratio,
    pub decoration_hat_relative_width: Ratio,
    pub decoration_hat_relative_height: Ratio,
    pub decoration_tilde_relative_width: Ratio,
    pub decoration_tilde_relative_height: Ratio,
    pub decoration_rays_relative_width: Ratio,
    pub decoration_rays_relative_height: Ratio,
    pub decoration_position_radius_ratio: Ratio,
    pub circle_content_scale: Ratio,
    pub double_stroke_radius_ratio: Ratio,
    pub circle_max_rim_overlap_ratio: Ratio,
    pub circle_min_rim_ratio: Ratio,
    pub circle_max_rim_ratio: Ratio,
    pub polygon_content_scale: Ratio,
}

/// Largest numerator or denominator of a configured ratio.
pub const PARAM_RATIO_MAX: i64 = 10_000_000;

pub open spec fn param_ratio_wf(r: Ratio) -> bool {
    r.wf() && r.num <= PARAM_RATIO_MAX && r.den <= PARAM_RATIO_MAX
}

impl LayoutParams {
    /// Every ratio is well formed and humanly sized, and the maximal
    /// rim-to-content ratio is nonzero (a zero ratio is a configuration
    /// error).
    pub open spec fn wf(self) -> bool {
        &&& param_ratio_wf(self.emphasis_rays_radius_ratio)
        &&& param_ratio_wf(self.decoration_hat_relative_width)
        &&& param_ratio_wf(self.decoration_hat_relative_height)
        &&& param_ratio_wf(self.decoration_tilde_relative_width)
        &&& param_ratio_wf(self.decoration_tilde_relative_height)
        &&& param_ratio_wf(self.decoration_rays_relative_width)
        &&& param_ratio_wf(self.decoration_rays_relative_height)
        &&& param_ratio_wf(self.decoration_position_radius_ratio)
        &&& param_ratio_wf(self.circle_content_scale)
        &&& param_ratio_wf(self.double_stroke_radius_ratio)
        &&& param_ratio_wf(self.circle_max_rim_overlap_ratio)
        &&& param_ratio_wf(self.circle_min_rim_ratio)
        &&& param_ratio_wf(self.circle_max_rim_ratio)
        &&& param_ratio_wf(self.polygon_content_scale)
        &&& self.circle_max_rim_ratio.num >= 1
    }

    /// Exact executable test of `wf`, so that an unverified caller can
    /// check its configuration before asking for a layout.
    pub fn is_valid(&self) -> (b: bool)
        ensures
            b == self.wf(),
    {
        check_param_ratio(self.emphasis_rays_radius_ratio)
            && check_param_ratio(self.decoration_hat_relative_width)
            && check_param_ratio(self.decoration_hat_relative_height)
            && check_param_ratio(self.decoration_tilde_relative_width)
            && check_param_ratio(self.decoration_tilde_relative_height)
            && check_param_ratio(self.decoration_rays_relative_width)
            && check_param_ratio(self.decoration_rays_relative_height)
            && check_param_ratio(self.decoration_position_radius_ratio)
            && check_param_ratio(self.circle_content_scale)
            && check_param_ratio(self.double_stroke_radius_ratio)
            && check_param_ratio(self.circle_max_rim_overlap_ratio)
            && check_param_ratio(self.circle_min_rim_ratio)
            && check_param_ratio(self.circle_max_rim_ratio)
            && check_param_ratio(self.polygon_content_scale)
            && self.circle_max_rim_ratio.num >= 1
    }
}

fn check_param_ratio(r: Ratio) -> (b: bool)
    ensures
        b == param_ratio_wf(r),
{
    0 <= r.num && r.num <= PARAM_RATIO_MAX && 1 <= r.den && r.den <= PARAM_RATIO_MAX
}

/// Why a construction was aborted rather than given default geometry.
#[derive(Clone, Copy, Debug, PartialEq, Eq, Structural)]
pub enum LayoutError {
    /// A degenerate input: an empty composite, a zero-size child that a
    /// constraint would have to scale up, a polygon with too few sides.
    Degenerate,
    /// The geometry left the layout coordinate domain.
    TooLarge,
}

/// Rotation of the first vertex of the pentagon wrapped around a
/// pentagram's child.
pub const PENTAGRAM_INNER_ROTATION: i64 = 5400;

/// Rotation of the pentagram's own boundary: a quarter turn from the
/// inner pentagon.
pub const PENTAGRAM_OUTER_ROTATION: i64 = 0;

/// The star-to-inscribed-pentagon radius ratio, the square of the golden
/// ratio.
pub fn pentagram_radius_ratio() -> (r: Ratio)
    ensures
        r == (Ratio { num: 2618034i64, den: 1000000i64 }),
        param_ratio_wf(r),
{
    Ratio { num: 2618034, den: 1000000 }
}

/// The angle the first rim item of a circle faces, and the base angle of
/// regular-polygon and link layouts: a quarter turn downward.
pub const BASE_PLACEMENT_ROTATION: i64 = -5400;

/// A laid-out glyph: one rectangle per measured text line.
#[derive(Debug, Clone, PartialEq)]
pub struct Symbol {
    pub name: String,
    pub boundary: Vec<BRect>,
}

/// A laid-out text block: one rectangle per measured text line.
#[derive(Debug, Clone, PartialEq)]
pub struct Phrase {
    pub text: String,
    pub boundary: Vec<BRect>,
}

/// A laid-out pentagram around one child.
#[derive(Debug, PartialEq)]
pub struct Pentagram {
    pub boundary: BRegularPolygon,
    pub child: Box<Node>,
}

/// A laid-out circle: its own boundary circle, rim items placed around
/// the content, and the content child.
#[derive(Debug, PartialEq)]
pub struct Circle {
    pub stroke: visual::StrokePattern,
    pub pattern: visual::CirclePattern,
    pub double: bool,
    pub boundary: BCircle,
    pub rim: Vec<Node>,
    pub content: Box<Node>,
}

/// A laid-out regular polygon around one child.
#[derive(Debug, PartialEq)]
pub struct RegularPolygon {
    pub sides: usize,
    pub stroke: visual::StrokePattern,
    pub boundary: BRegularPolygon,
    pub child: Box<Node>,
}

/// A laid-out decorated child: the marker rectangle and the child.
#[derive(Debug, PartialEq)]
pub struct Decorated {
    pub kind: visual::DecorationKind,
    pub decoration_rect: BRect,
    pub child: Box<Node>,
}

/// A laid-out emphasized child: the enlarged circle and the child.
#[derive(Debug, PartialEq)]
pub struct Emphasized {
    pub kind: visual::EmphasisKind,
    pub boundary: BCircle,
    pub child: Box<Node>,
}

/// A laid-out chain: the connecting segments and the items.
#[derive(Debug, PartialEq)]
pub struct Link {
    pub stroke: visual::StrokePattern,
    pub segments: Vec<BLine>,
    pub items: Vec<Node>,
}

/// A positioned layout node.
#[derive(Debug, PartialEq)]
pub enum Node {
    Symbol(Symbol),
    Phrase(Phrase),
    Pentagram(Pentagram),
    Circle(Circle),
    RegularPolygon(RegularPolygon),
    Decorated(Decorated),
    Emphasized(Emphasized),
    Link(Link),
    Arrangement(Vec<Node>),
}

/// Circumradius folded over a rectangle sequence, from zero.
pub open spec fn rects_radius_upto(rs: Seq<BRect>, i: int) -> int
    decreases i,
{
    if i <= 0 {
        0
    } else {
        imax(rects_radius_upto(rs, i - 1), poly_radius(rect_vertices(rs[i - 1])))
    }
}

/// Directional support folded over a rectangle sequence, from zero.
pub open spec fn rects_radius_at_upto(rs: Seq<BRect>, angle: int, i: int) -> int
    decreases i,
{
    if i <= 0 {
        0
    } else {
        imax(rects_radius_at_upto(rs, angle, i - 1), poly_radius_at(rect_vertices(rs[i - 1]), angle))
    }
}

/// Circumradius folded over the boundaries of a node sequence, from
/// zero.
pub open spec fn nodes_radius_upto(ns: Seq<Node>, i: int) -> int
    decreases ns, i,
{
    if i <= 0 || i > ns.len() {
        0
    } else {
        imax(nodes_radius_upto(ns, i - 1), node_radius(ns[i - 1]))
    }
}

/// Directional support folded over the boundaries of a node sequence,
/// from zero.
pub open spec fn nodes_radius_at_upto(ns: Seq<Node>, angle: int, i: int) -> int
    decreases ns, i,
{
    if i <= 0 || i > ns.len() {
        0
    } else {
        imax(nodes_radius_at_upto(ns, angle, i - 1), node_radius_at(ns[i - 1], angle))
    }
}

/// Circumradius folded over a segment sequence, from zero.
pub open spec fn lines_radius_upto(ls: Seq<BLine>, i: int) -> int
    decreases i,
{
    if i <= 0 {
        0
    } else {
        imax(lines_radius_upto(ls, i - 1), line_radius(ls[i - 1]))
    }
}

/// Directional support folded over a segment sequence, from zero.
pub open spec fn lines_radius_at_upto(ls: Seq<BLine>, i: int) -> int
    decreases i,
{
    if i <= 0 {
        0
    } else {
        imax(lines_radius_at_upto(ls, i - 1), line_radius_at(ls[i - 1]))
    }
}

/// Circumradius of a node's reported boundary about the local origin.
pub open spec fn node_radius(n: Node) -> int
    decreases n,
{
    match n {
        Node::Symbol(s) => rects_radius_upto(s.boundary@, s.boundary@.len() as int),
        Node::Phrase(p) => rects_radius_upto(p.boundary@, p.boundary@.len() as int),
        Node::Pentagram(p) => poly_radius(rp_vertices(p.boundary)),
        Node::Circle(c) => imax(
            imax(0, circle_radius(c.boundary)),
            nodes_radius_upto(c.rim@, c.rim@.len() as int),
        ),
        Node::RegularPolygon(p) => poly_radius(rp_vertices(p.boundary)),
        Node::Decorated(d) => imax(
            imax(0, poly_radius(rect_vertices(d.decoration_rect))),
            node_radius(*d.child),
        ),
        Node::Emphasized(e) => circle_radius(e.boundary),
        Node::Link(l) => imax(
            lines_radius_upto(l.segments@, l.segments@.len() as int),
            nodes_radius_upto(l.items@, l.items@.len() as int),
        ),
        Node::Arrangement(ns) => nodes_radius_upto(ns@, ns@.len() as int),
    }
}

/// Directional support of a node's reported boundary.
pub open spec fn node_radius_at(n: Node, angle: int) -> int
    decreases n,
{
    match n {
        Node::Symbol(s) => rects_radius_at_upto(s.boundary@, angle, s.boundary@.len() as int),
        Node::Phrase(p) => rects_radius_at_upto(p.boundary@, angle, p.boundary@.len() as int),
        Node::Pentagram(p) => poly_radius_at(rp_vertices(p.boundary), angle),
        Node::Circle(c) => imax(
            imax(0, circle_radius_at(c.boundary, angle)),
            nodes_radius_at_upto(c.rim@, angle, c.rim@.len() as int),
        ),
        Node::RegularPolygon(p) => poly_radius_at(rp_vertices(p.boundary), angle),
        Node::Decorated(d) => imax(
            imax(0, poly_radius_at(rect_vertices(d.decoration_rect), angle)),
            node_radius_at(*d.child, angle),
        ),
        Node::Emphasized(e) => circle_radius_at(e.boundary, angle),
        Node::Link(l) => imax(
            lines_radius_at_upto(l.segments@, l.segments@.len() as int),
            nodes_radius_at_upto(l.items@, angle, l.items@.len() as int),
        ),
        Node::Arrangement(ns) => nodes_radius_at_upto(ns@, angle, ns@.len() as int),
    }
}

/// Well-formedness of a layout node and its whole subtree.
pub open spec fn node_wf(n: Node) -> bool
    decreases n,
{
    match n {
        Node::Symbol(s) => s.boundary@.len() >= 1 && forall|i: int|
            0 <= i < s.boundary@.len() ==> (#[trigger] s.boundary@[i]).wf(),
        Node::Phrase(p) => p.boundary@.len() >= 1 && forall|i: int|
            0 <= i < p.boundary@.len() ==> (#[trigger] p.boundary@[i]).wf(),
        Node::Pentagram(p) => p.boundary.wf() && node_wf(*p.child),
        Node::Circle(c) => c.boundary.wf() && node_wf(*c.content) && forall|i: int|
            0 <= i < c.rim@.len() ==> node_wf(#[trigger] c.rim@[i]),
        Node::RegularPolygon(p) => p.boundary.wf() && node_wf(*p.child),
        Node::Decorated(d) => d.decoration_rect.wf() && node_wf(*d.child),
        Node::Emphasized(e) => e.boundary.wf() && node_wf(*e.child),
        Node::Link(l) => l.items@.len() >= 1 && l.segments@.len() == l.items@.len() - 1
            && forall|i: int| 0 <= i < l.items@.len() ==> node_wf(#[trigger] l.items@[i]),
        Node::Arrangement(ns) => ns@.len() >= 1 && forall|i: int|
            0 <= i < ns@.len() ==> node_wf(#[trigger] ns@[i]),
    }
}

/// Every scalar stored anywhere in the subtree has magnitude at most
/// `b`.
pub open spec fn node_bounded(n: Node, b: int) -> bool
    decreases n,
{
    match n {
        Node::Symbol(s) => forall|i: int|
            0 <= i < s.boundary@.len() ==> (#[trigger] s.boundary@[i]).bounded(b),
        Node::Phrase(p) => forall|i: int|
            0 <= i < p.boundary@.len() ==> (#[trigger] p.boundary@[i]).bounded(b),
        Node::Pentagram(p) => p.boundary.bounded(b) && node_bounded(*p.child, b),
        Node::Circle(c) => c.boundary.bounded(b) && node_bounded(*c.content, b) && forall|i: int|
            0 <= i < c.rim@.len() ==> node_bounded(#[trigger] c.rim@[i], b),
        Node::RegularPolygon(p) => p.boundary.bounded(b) && node_bounded(*p.child, b),
        Node::Decorated(d) => d.decoration_rect.bounded(b) && node_bounded(*d.child, b),
        Node::Emphasized(e) => e.boundary.bounded(b) && node_bounded(*e.child, b),
        Node::Link(l) => (forall|i: int|
            0 <= i < l.segments@.len() ==> (#[trigger] l.segments@[i]).bounded(b)) && forall|
            i: int,
        | 0 <= i < l.items@.len() ==> node_bounded(#[trigger] l.items@[i], b),
        Node::Arrangement(ns) => forall|i: int|
            0 <= i < ns@.len() ==> node_bounded(#[trigger] ns@[i], b),
    }
}

/// `b` is `a` with the whole subtree translated by `amount`.
pub open spec fn node_translated(a: Node, b: Node, amount: Vec2) -> bool
    decreases a,
{
    match (a, b) {
        (Node::Symbol(x), Node::Symbol(y)) => y.name == x.name && y.boundary@.len()
            == x.boundary@.len() && forall|i: int|
            0 <= i < x.boundary@.len() ==> (#[trigger] y.boundary@[i]) == rect_translate(
                x.boundary@[i],
                amount,
            ),
        (Node::Phrase(x), Node::Phrase(y)) => y.text == x.text && y.boundary@.len()
            == x.boundary@.len() && forall|i: int|
            0 <= i < x.boundary@.len() ==> (#[trigger] y.boundary@[i]) == rect_translate(
                x.boundary@[i],
                amount,
            ),
        (Node::Pentagram(x), Node::Pentagram(y)) => y.boundary == rp_translate(x.boundary, amount)
            && node_translated(*x.child, *y.child, amount),
        (Node::Circle(x), Node::Circle(y)) => y.stroke == x.stroke && y.pattern == x.pattern
            && y.double == x.double && y.boundary == circle_translate(x.boundary, amount)
            && node_translated(*x.content, *y.content, amount) && y.rim@.len() == x.rim@.len()
            && forall|i: int|
            0 <= i < x.rim@.len() ==> node_translated(
                #[trigger] x.rim@[i],
                y.rim@[i],
                amount,
            ),
        (Node::RegularPolygon(x), Node::RegularPolygon(y)) => y.sides == x.sides && y.stroke
            == x.stroke && y.boundary == rp_translate(x.boundary, amount) && node_translated(
            *x.child,
            *y.child,
            amount,
        ),
        (Node::Decorated(x), Node::Decorated(y)) => y.kind == x.kind && y.decoration_rect
            == rect_translate(x.decoration_rect, amount) && node_translated(
            *x.child,
            *y.child,
            amount,
        ),
        (Node::Emphasized(x), Node::Emphasized(y)) => y.kind == x.kind && y.boundary
            == circle_translate(x.boundary, amount) && node_translated(*x.child, *y.child, amount),
        (Node::Link(x), Node::Link(y)) => y.stroke == x.stroke && y.segments@.len()
            == x.segments@.len() && (forall|i: int|
            0 <= i < x.segments@.len() ==> (#[trigger] y.segments@[i]) == line_translate(
                x.segments@[i],
                amount,
            )) && y.items@.len() == x.items@.len() && forall|i: int|
            0 <= i < x.items@.len() ==> node_translated(#[trigger] x.items@[i], y.items@[i], amount),
        (Node::Arrangement(xs), Node::Arrangement(ys)) => ys@.len() == xs@.len() && forall|i: int|
            0 <= i < xs@.len() ==> node_translated(#[trigger] xs@[i], ys@[i], amount),
        _ => false,
    }
}

/// `b` is `a` with the whole subtree rotated by `angle`.
pub open spec fn node_rotated(a: Node, b: Node, angle: int) -> bool
    decreases a,
{
    match (a, b) {
        (Node::Symbol(x), Node::Symbol(y)) => y.name == x.name && y.boundary@.len()
            == x.boundary@.len() && forall|i: int|
            0 <= i < x.boundary@.len() ==> (#[trigger] y.boundary@[i]) == rect_rotate(
                x.boundary@[i],
                angle,
            ),
        (Node::Phrase(x), Node::Phrase(y)) => y.text == x.text && y.boundary@.len()
            == x.boundary@.len() && forall|i: int|
            0 <= i < x.boundary@.len() ==> (#[trigger] y.boundary@[i]) == rect_rotate(
                x.boundary@[i],
                angle,
            ),
        (Node::Pentagram(x), Node::Pentagram(y)) => y.boundary == rp_rotate(x.boundary, angle)
            && node_rotated(*x.child, *y.child, angle),
        (Node::Circle(x), Node::Circle(y)) => y.stroke == x.stroke && y.pattern == x.pattern
            && y.double == x.double && y.boundary == circle_rotate(x.boundary, angle)
            && node_rotated(*x.content, *y.content, angle) && y.rim@.len() == x.rim@.len()
            && forall|i: int|
            0 <= i < x.rim@.len() ==> node_rotated(#[trigger] x.rim@[i], y.rim@[i], angle),
        (Node::RegularPolygon(x), Node::RegularPolygon(y)) => y.sides == x.sides && y.stroke
            == x.stroke && y.boundary == rp_rotate(x.boundary, angle) && node_rotated(
            *x.child,
            *y.child,
            angle,
        ),
        (Node::Decorated(x), Node::Decorated(y)) => y.kind == x.kind && y.decoration_rect
            == rect_rotate(x.decoration_rect, angle) && node_rotated(*x.child, *y.child, angle),
        (Node::Emphasized(x), Node::Emphasized(y)) => y.kind == x.kind && y.boundary
            == circle_rotate(x.boundary, angle) && node_rotated(*x.child, *y.child, angle),
        (Node::Link(x), Node::Link(y)) => y.stroke == x.stroke && y.segments@.len()
            == x.segments@.len() && (forall|i: int|
            0 <= i < x.segments@.len() ==> (#[trigger] y.segments@[i]) == line_rotate(
                x.segments@[i],
                angle,
            )) && y.items@.len() == x.items@.len() && forall|i: int|
            0 <= i < x.items@.len() ==> node_rotated(#[trigger] x.items@[i], y.items@[i], angle),
        (Node::Arrangement(xs), Node::Arrangement(ys)) => ys@.len() == xs@.len() && forall|i: int|
            0 <= i < xs@.len() ==> node_rotated(#[trigger] xs@[i], ys@[i], angle),
        _ => false,
    }
}

/// `b` is `a` with the whole subtree scaled by `factor`.
pub open spec fn node_scaled(a: Node, b: Node, factor: Ratio) -> bool
    decreases a,
{
    match (a, b) {
        (Node::Symbol(x), Node::Symbol(y)) => y.name == x.name && y.boundary@.len()
            == x.boundary@.len() && forall|i: int|
            0 <= i < x.boundary@.len() ==> (#[trigger] y.boundary@[i]) == rect_scale(
                x.boundary@[i],
                factor,
            ),
        (Node::Phrase(x), Node::Phrase(y)) => y.text == x.text && y.boundary@.len()
            == x.boundary@.len() && forall|i: int|
            0 <= i < x.boundary@.len() ==> (#[trigger] y.boundary@[i]) == rect_scale(
                x.boundary@[i],
                factor,
            ),
        (Node::Pentagram(x), Node::Pentagram(y)) => y.boundary == rp_scale(x.boundary, factor)
            && node_scaled(*x.child, *y.child, factor),
        (Node::Circle(x), Node::Circle(y)) => y.stroke == x.stroke && y.pattern == x.pattern
            && y.double == x.double && y.boundary == circle_scale(x.boundary, factor)
            && node_scaled(*x.content, *y.content, factor) && y.rim@.len() == x.rim@.len()
            && forall|i: int|
            0 <= i < x.rim@.len() ==> node_scaled(#[trigger] x.rim@[i], y.rim@[i], factor),
        (Node::RegularPolygon(x), Node::RegularPolygon(y)) => y.sides == x.sides && y.stroke
            == x.stroke && y.boundary == rp_scale(x.boundary, factor) && node_scaled(
            *x.child,
            *y.child,
            factor,
        ),
        (Node::Decorated(x), Node::Decorated(y)) => y.kind == x.kind && y.decoration_rect
            == rect_scale(x.decoration_rect, factor) && node_scaled(*x.child, *y.child, factor),
        (Node::Emphasized(x), Node::Emphasized(y)) => y.kind == x.kind && y.boundary
            == circle_scale(x.boundary, factor) && node_scaled(*x.child, *y.child, factor),
        (Node::Link(x), Node::Link(y)) => y.stroke == x.stroke && y.segments@.len()
            == x.segments@.len() && (forall|i: int|
            0 <= i < x.segments@.len() ==> (#[trigger] y.segments@[i]) == line_scale(
                x.segments@[i],
                factor,
            )) && y.items@.len() == x.items@.len() && forall|i: int|
            0 <= i < x.items@.len() ==> node_scaled(#[trigger] x.items@[i], y.items@[i], factor),
        (Node::Arrangement(xs), Node::Arrangement(ys)) => ys@.len() == xs@.len() && forall|i: int|
            0 <= i < xs@.len() ==> node_scaled(#[trigger] xs@[i], ys@[i], factor),
        _ => false,
    }
}

/// The shape folds only read the first `i` members: extending the
/// sequence beyond them changes nothing.
proof fn lemma_sru_prefix(a: Seq<Shape>, b: Seq<Shape>, i: int)
    requires
        0 <= i <= a.len(),
        i <= b.len(),
        forall|k: int| 0 <= k < i ==> a[k] == b[k],
    ensures
        shapes_radius_upto(a, i) == shapes_radius_upto(b, i),
    decreases i,
{
    if i > 0 {
        lemma_sru_prefix(a, b, i - 1);
    }
}

proof fn lemma_srau_prefix(a: Seq<Shape>, b: Seq<Shape>, angle: int, i: int)
    requires
        0 <= i <= a.len(),
        i <= b.len(),
        forall|k: int| 0 <= k < i ==> a[k] == b[k],
    ensures
        shapes_radius_at_upto(a, angle, i) == shapes_radius_at_upto(b, angle, i),
    decreases i,
{
    if i > 0 {
        lemma_srau_prefix(a, b, angle, i - 1);
    }
}

/// Exact test that a circle's scalars are in the layout coordinate
/// domain.
fn circle_in_domain(c: &BCircle) -> (b: bool)
    ensures
        b == c.bounded(COORD_MAX as int),
{
    -COORD_MAX <= c.radius && c.radius <= COORD_MAX && -COORD_MAX <= c.offset.x && c.offset.x
        <= COORD_MAX && -COORD_MAX <= c.offset.y && c.offset.y <= COORD_MAX
}

fn rect_in_domain(r: &BRect) -> (b: bool)
    ensures
        b == r.bounded(COORD_MAX as int),
{
    -COORD_MAX <= r.width && r.width <= COORD_MAX && -COORD_MAX <= r.height && r.height
        <= COORD_MAX && -COORD_MAX <= r.rotation && r.rotation <= COORD_MAX && -COORD_MAX
        <= r.offset.x && r.offset.x <= COORD_MAX && -COORD_MAX <= r.offset.y && r.offset.y
        <= COORD_MAX
}

fn rp_in_domain(p: &BRegularPolygon) -> (b: bool)
    ensures
        b == p.bounded(COORD_MAX as int),
{
    -COORD_MAX <= p.outer_radius && p.outer_radius <= COORD_MAX && -COORD_MAX <= p.rotation
        && p.rotation <= COORD_MAX && -COORD_MAX <= p.offset.x && p.offset.x <= COORD_MAX
        && -COORD_MAX <= p.offset.y && p.offset.y <= COORD_MAX
}

fn line_in_domain(l: &BLine) -> (b: bool)
    ensures
        b == l.bounded(COORD_MAX as int),
{
    -COORD_MAX <= l.start.x && l.start.x <= COORD_MAX && -COORD_MAX <= l.start.y && l.start.y
        <= COORD_MAX && -COORD_MAX <= l.end.x && l.end.x <= COORD_MAX && -COORD_MAX <= l.end.y
        && l.end.y <= COORD_MAX
}

#[verifier::loop_isolation(false)]
fn rects_in_domain(v: &Vec<BRect>) -> (b: bool)
    ensures
        b == forall|i: int| 0 <= i < v@.len() ==> (#[trigger] v@[i]).bounded(COORD_MAX as int),
{
    let mut j: usize = 0;
    while j < v.len()
        invariant
            j <= v@.len(),
            forall|i: int| 0 <= i < j ==> (#[trigger] v@[i]).bounded(COORD_MAX as int),
        decreases v@.len() - j,
    {
        if !rect_in_domain(&v[j]) {
            return false;
        }
        j = j + 1;
    }
    true
}

#[verifier::loop_isolation(false)]
fn lines_in_domain(v: &Vec<BLine>) -> (b: bool)
    ensures
        b == forall|i: int| 0 <= i < v@.len() ==> (#[trigger] v@[i]).bounded(COORD_MAX as int),
{
    let mut j: usize = 0;
    while j < v.len()
        invariant
            j <= v@.len(),
            forall|i: int| 0 <= i < j ==> (#[trigger] v@[i]).bounded(COORD_MAX as int),
        decreases v@.len() - j,
    {
        if !line_in_domain(&v[j]) {
            return false;
        }
        j = j + 1;
    }
    true
}

#[verifier::loop_isolation(false)]
fn nodes_in_domain(v: &Vec<Node>) -> (b: bool)
    ensures
        b == forall|i: int| 0 <= i < v@.len() ==> node_bounded(#[trigger] v@[i], COORD_MAX as int),
    decreases v@,
{
    let mut j: usize = 0;
    while j < v.len()
        invariant
            j <= v@.len(),
            forall|i: int| 0 <= i < j ==> node_bounded(#[trigger] v@[i], COORD_MAX as int),
        decreases v@.len() - j,
    {
        if !v[j].check_bounded() {
            return false;
        }
        j = j + 1;
    }
    true
}

proof fn lemma_sru_nonneg(ss: Seq<Shape>, i: int)
    ensures
        shapes_radius_upto(ss, i) >= 0,
    decreases i,
{
    if 0 < i <= ss.len() {
        lemma_sru_nonneg(ss, i - 1);
    }
}

proof fn lemma_nru_nonneg(ns: Seq<Node>, i: int)
    ensures
        nodes_radius_upto(ns, i) >= 0,
    decreases i,
{
    if 0 < i <= ns.len() {
        lemma_nru_nonneg(ns, i - 1);
    }
}

proof fn lemma_srau_nonneg(ss: Seq<Shape>, angle: int, i: int)
    ensures
        shapes_radius_at_upto(ss, angle, i) >= 0,
    decreases i,
{
    if 0 < i <= ss.len() {
        lemma_srau_nonneg(ss, angle, i - 1);
    }
}

proof fn lemma_rru_nonneg(rs: Seq<BRect>, i: int)
    ensures
        rects_radius_upto(rs, i) >= 0,
    decreases i,
{
    if i > 0 {
        lemma_rru_nonneg(rs, i - 1);
    }
}

proof fn lemma_lru_nonneg(ls: Seq<BLine>, i: int)
    ensures
        lines_radius_upto(ls, i) >= 0,
    decreases i,
{
    if i > 0 {
        lemma_lru_nonneg(ls, i - 1);
    }
}

/// The boundary circumradius of a well-formed node is nonnegative.
proof fn lemma_node_radius_nonneg(n: Node)
    requires
        node_wf(n),
    ensures
        node_radius(n) >= 0,
{
    match n {
        Node::Symbol(s) => {
            lemma_rru_nonneg(s.boundary@, s.boundary@.len() as int);
        },
        Node::Phrase(p) => {
            lemma_rru_nonneg(p.boundary@, p.boundary@.len() as int);
        },
        Node::Pentagram(p) => {},
        Node::Circle(c) => {},
        Node::RegularPolygon(p) => {},
        Node::Decorated(d) => {},
        Node::Emphasized(e) => {
            assert(norm(e.boundary.offset) >= 0);
        },
        Node::Link(l) => {
            lemma_lru_nonneg(l.segments@, l.segments@.len() as int);
            lemma_nru_nonneg(l.items@, l.items@.len() as int);
        },
        Node::Arrangement(ns) => {
            lemma_nru_nonneg(ns@, ns@.len() as int);
        },
    }
}

/// A scaled scalar stays in the layout coordinate domain.
pub open spec fn ratio_keeps(x: i64, f: Ratio) -> bool {
    iabs(f.apply(x as int)) <= COORD_MAX
}

/// Scaling the subtree by `f` would keep every scalar in the layout
/// coordinate domain: the exact success condition of a cosmetic or
/// constraint scale.
pub open spec fn scaled_in_domain(n: Node, f: Ratio) -> bool
    decreases n,
{
    match n {
        Node::Symbol(s) => forall|i: int| 0 <= i < s.boundary@.len() ==> rect_scale_keeps(
            #[trigger] s.boundary@[i],
            f,
        ),
        Node::Phrase(p) => forall|i: int| 0 <= i < p.boundary@.len() ==> rect_scale_keeps(
            #[trigger] p.boundary@[i],
            f,
        ),
        Node::Pentagram(p) => rp_scale_keeps(p.boundary, f) && scaled_in_domain(*p.child, f),
        Node::Circle(c) => circle_scale_keeps(c.boundary, f) && scaled_in_domain(*c.content, f)
            && forall|i: int| 0 <= i < c.rim@.len() ==> scaled_in_domain(#[trigger] c.rim@[i], f),
        Node::RegularPolygon(p) => rp_scale_keeps(p.boundary, f) && scaled_in_domain(*p.child, f),
        Node::Decorated(d) => rect_scale_keeps(d.decoration_rect, f) && scaled_in_domain(
            *d.child,
            f,
        ),
        Node::Emphasized(e) => circle_scale_keeps(e.boundary, f) && scaled_in_domain(*e.child, f),
        Node::Link(l) => (forall|i: int| 0 <= i < l.segments@.len() ==> line_scale_keeps(
            #[trigger] l.segments@[i],
            f,
        )) && forall|i: int| 0 <= i < l.items@.len() ==> scaled_in_domain(
            #[trigger] l.items@[i],
            f,
        ),
        Node::Arrangement(ns) => forall|i: int| 0 <= i < ns@.len() ==> scaled_in_domain(
            #[trigger] ns@[i],
            f,
        ),
    }
}

pub open spec fn rect_scale_keeps(r: BRect, f: Ratio) -> bool {
    ratio_keeps(r.width, f) && ratio_keeps(r.height, f) && ratio_keeps(r.offset.x, f)
        && ratio_keeps(r.offset.y, f)
}

pub open spec fn circle_scale_keeps(c: BCircle, f: Ratio) -> bool {
    ratio_keeps(c.radius, f) && ratio_keeps(c.offset.x, f) && ratio_keeps(c.offset.y, f)
}

pub open spec fn rp_scale_keeps(p: BRegularPolygon, f: Ratio) -> bool {
    ratio_keeps(p.outer_radius, f) && ratio_keeps(p.offset.x, f) && ratio_keeps(p.offset.y, f)
}

pub open spec fn line_scale_keeps(l: BLine, f: Ratio) -> bool {
    ratio_keeps(l.start.x, f) && ratio_keeps(l.start.y, f) && ratio_keeps(l.end.x, f)
        && ratio_keeps(l.end.y, f)
}

/// For a subtree from the layout coordinate domain, the scaled copy is
/// in the domain exactly when `scaled_in_domain` says so.
proof fn lemma_scaled_in_domain(a: Node, b: Node, f: Ratio)
    requires
        node_scaled(a, b, f),
        node_bounded(a, COORD_MAX as int),
        f.wf(),
    ensures
        node_bounded(b, COORD_MAX as int) <==> scaled_in_domain(a, f),
    decreases a,
{
    match (a, b) {
        (Node::Symbol(x), Node::Symbol(y)) => {
            assert forall|i: int|
                #![trigger x.boundary@[i]]
                #![trigger y.boundary@[i]]
                0 <= i < x.boundary@.len() implies (y.boundary@[i].bounded(COORD_MAX as int)
                <==> rect_scale_keeps(x.boundary@[i], f)) by {
                lemma_rect_scaled_in_domain(x.boundary@[i], f);
            }
        },
        (Node::Phrase(x), Node::Phrase(y)) => {
            assert forall|i: int|
                #![trigger x.boundary@[i]]
                #![trigger y.boundary@[i]]
                0 <= i < x.boundary@.len() implies (y.boundary@[i].bounded(COORD_MAX as int)
                <==> rect_scale_keeps(x.boundary@[i], f)) by {
                lemma_rect_scaled_in_domain(x.boundary@[i], f);
            }
        },
        (Node::Pentagram(x), Node::Pentagram(y)) => {
            lemma_rp_scaled_in_domain(x.boundary, f);
            lemma_scaled_in_domain(*x.child, *y.child, f);
        },
        (Node::Circle(x), Node::Circle(y)) => {
            lemma_circle_scaled_in_domain(x.boundary, f);
            lemma_scaled_in_domain(*x.content, *y.content, f);
            assert forall|i: int|
                #![trigger x.rim@[i]]
                #![trigger y.rim@[i]]
                0 <= i < x.rim@.len() implies (node_bounded(y.rim@[i], COORD_MAX as int)
                <==> scaled_in_domain(x.rim@[i], f)) by {
                assert(node_scaled(x.rim@[i], y.rim@[i], f));
                lemma_scaled_in_domain(x.rim@[i], y.rim@[i], f);
            }
        },
        (Node::RegularPolygon(x), Node::RegularPolygon(y)) => {
            lemma_rp_scaled_in_domain(x.boundary, f);
            lemma_scaled_in_domain(*x.child, *y.child, f);
        },
        (Node::Decorated(x), Node::Decorated(y)) => {
            lemma_rect_scaled_in_domain(x.decoration_rect, f);
            lemma_scaled_in_domain(*x.child, *y.child, f);
        },
        (Node::Emphasized(x), Node::Emphasized(y)) => {
            lemma_circle_scaled_in_domain(x.boundary, f);
            lemma_scaled_in_domain(*x.child, *y.child, f);
        },
        (Node::Link(x), Node::Link(y)) => {
            assert forall|i: int|
                #![trigger x.segments@[i]]
                #![trigger y.segments@[i]]
                0 <= i < x.segments@.len() implies (y.segments@[i].bounded(COORD_MAX as int)
                <==> line_scale_keeps(x.segments@[i], f)) by {
                lemma_scaled_coord(x.segments@[i].start.x, f);
                lemma_scaled_coord(x.segments@[i].start.y, f);
                lemma_scaled_coord(x.segments@[i].end.x, f);
                lemma_scaled_coord(x.segments@[i].end.y, f);
            }
            assert forall|i: int|
                #![trigger x.items@[i]]
                #![trigger y.items@[i]]
                0 <= i < x.items@.len() implies (node_bounded(y.items@[i], COORD_MAX as int)
                <==> scaled_in_domain(x.items@[i], f)) by {
                assert(node_scaled(x.items@[i], y.items@[i], f));
                lemma_scaled_in_domain(x.items@[i], y.items@[i], f);
            }
        },
        (Node::Arrangement(xs), Node::Arrangement(ys)) => {
            assert forall|i: int|
                #![trigger xs@[i]]
                #![trigger ys@[i]]
                0 <= i < xs@.len() implies (node_bounded(ys@[i], COORD_MAX as int)
                <==> scaled_in_domain(xs@[i], f)) by {
                assert(node_scaled(xs@[i], ys@[i], f));
                lemma_scaled_in_domain(xs@[i], ys@[i], f);
            }
        },
        _ => {},
    }
}

/// A scaled coordinate from the layout domain fits `i64`, so the stored
/// value equals the mathematical one and its bound is exact.
proof fn lemma_scaled_coord(x: i64, f: Ratio)
    requires
        iabs(x as int) <= COORD_MAX,
        f.wf(),
    ensures
        iabs((f.apply(x as int) as i64) as int) <= COORD_MAX <==> ratio_keeps(x, f),
        f.apply(x as int) as i64 == f.apply(x as int),
{
    crate::bounding::lemma_apply_bound(x as int, f);
    assert((COORD_MAX as int) * (RATIO_MAX as int) < i64::MAX) by (nonlinear_arith);
    assert((COORD_MAX as int) * f.num <= (COORD_MAX as int) * (RATIO_MAX as int)) by (
    nonlinear_arith)
        requires
            0 <= f.num <= RATIO_MAX,
    ;
}

proof fn lemma_rect_scaled_in_domain(r: BRect, f: Ratio)
    requires
        r.bounded(COORD_MAX as int),
        f.wf(),
    ensures
        rect_scale(r, f).bounded(COORD_MAX as int) <==> rect_scale_keeps(r, f),
{
    lemma_scaled_coord(r.width, f);
    lemma_scaled_coord(r.height, f);
    lemma_scaled_coord(r.offset.x, f);
    lemma_scaled_coord(r.offset.y, f);
}

proof fn lemma_circle_scaled_in_domain(c: BCircle, f: Ratio)
    requires
        c.bounded(COORD_MAX as int),
        f.wf(),
    ensures
        circle_scale(c, f).bounded(COORD_MAX as int) <==> circle_scale_keeps(c, f),
{
    lemma_scaled_coord(c.radius, f);
    lemma_scaled_coord(c.offset.x, f);
    lemma_scaled_coord(c.offset.y, f);
}

proof fn lemma_rp_scaled_in_domain(p: BRegularPolygon, f: Ratio)
    requires
        p.bounded(COORD_MAX as int),
        f.wf(),
    ensures
        rp_scale(p, f).bounded(COORD_MAX as int) <==> rp_scale_keeps(p, f),
{
    lemma_scaled_coord(p.outer_radius, f);
    lemma_scaled_coord(p.offset.x, f);
    lemma_scaled_coord(p.offset.y, f);
}

/// A translated coordinate lands in the layout coordinate domain.
pub open spec fn shift_keeps(x: i64, d: i64) -> bool {
    iabs(x + d) <= COORD_MAX
}

/// Translating the subtree by `d` would leave every scalar in the
/// layout coordinate domain: the exact success condition of a placement
/// translation.
pub open spec fn translated_in_domain(n: Node, d: Vec2) -> bool
    decreases n,
{
    match n {
        Node::Symbol(s) => forall|i: int| 0 <= i < s.boundary@.len() ==> rect_shift_keeps(
            #[trigger] s.boundary@[i],
            d,
        ),
        Node::Phrase(p) => forall|i: int| 0 <= i < p.boundary@.len() ==> rect_shift_keeps(
            #[trigger] p.boundary@[i],
            d,
        ),
        Node::Pentagram(p) => rp_shift_keeps(p.boundary, d) && translated_in_domain(*p.child, d),
        Node::Circle(c) => circle_shift_keeps(c.boundary, d) && translated_in_domain(
            *c.content,
            d,
        ) && forall|i: int| 0 <= i < c.rim@.len() ==> translated_in_domain(
            #[trigger] c.rim@[i],
            d,
        ),
        Node::RegularPolygon(p) => rp_shift_keeps(p.boundary, d) && translated_in_domain(
            *p.child,
            d,
        ),
        Node::Decorated(dd) => rect_shift_keeps(dd.decoration_rect, d) && translated_in_domain(
            *dd.child,
            d,
        ),
        Node::Emphasized(e) => circle_shift_keeps(e.boundary, d) && translated_in_domain(
            *e.child,
            d,
        ),
        Node::Link(l) => (forall|i: int| 0 <= i < l.segments@.len() ==> line_shift_keeps(
            #[trigger] l.segments@[i],
            d,
        )) && forall|i: int| 0 <= i < l.items@.len() ==> translated_in_domain(
            #[trigger] l.items@[i],
            d,
        ),
        Node::Arrangement(ns) => forall|i: int| 0 <= i < ns@.len() ==> translated_in_domain(
            #[trigger] ns@[i],
            d,
        ),
    }
}

pub open spec fn rect_shift_keeps(r: BRect, d: Vec2) -> bool {
    iabs(r.width as int) <= COORD_MAX && iabs(r.height as int) <= COORD_MAX && iabs(
        r.rotation as int,
    ) <= COORD_MAX && shift_keeps(r.offset.x, d.x) && shift_keeps(r.offset.y, d.y)
}

pub open spec fn circle_shift_keeps(c: BCircle, d: Vec2) -> bool {
    iabs(c.radius as int) <= COORD_MAX && shift_keeps(c.offset.x, d.x) && shift_keeps(
        c.offset.y,
        d.y,
    )
}

pub open spec fn rp_shift_keeps(p: BRegularPolygon, d: Vec2) -> bool {
    iabs(p.outer_radius as int) <= COORD_MAX && iabs(p.rotation as int) <= COORD_MAX
        && shift_keeps(p.offset.x, d.x) && shift_keeps(p.offset.y, d.y)
}

pub open spec fn line_shift_keeps(l: BLine, d: Vec2) -> bool {
    shift_keeps(l.start.x, d.x) && shift_keeps(l.start.y, d.y) && shift_keeps(l.end.x, d.x)
        && shift_keeps(l.end.y, d.y)
}

/// For a subtree within four times the layout coordinate domain, the
/// translated copy is in the domain exactly when `translated_in_domain`
/// says so.
proof fn lemma_translated_in_domain(a: Node, b: Node, d: Vec2)
    requires
        node_translated(a, b, d),
        node_bounded(a, 4 * COORD_MAX),
        d.bounded(TRANS_MAX as int),
    ensures
        node_bounded(b, COORD_MAX as int) <==> translated_in_domain(a, d),
    decreases a,
{
    match (a, b) {
        (Node::Symbol(x), Node::Symbol(y)) => {
            assert forall|i: int|
                #![trigger x.boundary@[i]]
                #![trigger y.boundary@[i]]
                0 <= i < x.boundary@.len() implies (y.boundary@[i].bounded(COORD_MAX as int)
                <==> rect_shift_keeps(x.boundary@[i], d)) by {
                assert(y.boundary@[i] == rect_translate(x.boundary@[i], d));
            }
        },
        (Node::Phrase(x), Node::Phrase(y)) => {
            assert forall|i: int|
                #![trigger x.boundary@[i]]
                #![trigger y.boundary@[i]]
                0 <= i < x.boundary@.len() implies (y.boundary@[i].bounded(COORD_MAX as int)
                <==> rect_shift_keeps(x.boundary@[i], d)) by {
                assert(y.boundary@[i] == rect_translate(x.boundary@[i], d));
            }
        },
        (Node::Pentagram(x), Node::Pentagram(y)) => {
            lemma_translated_in_domain(*x.child, *y.child, d);
        },
        (Node::Circle(x), Node::Circle(y)) => {
            lemma_translated_in_domain(*x.content, *y.content, d);
            assert forall|i: int|
                #![trigger x.rim@[i]]
                #![trigger y.rim@[i]]
                0 <= i < x.rim@.len() implies (node_bounded(y.rim@[i], COORD_MAX as int)
                <==> translated_in_domain(x.rim@[i], d)) by {
                assert(node_translated(x.rim@[i], y.rim@[i], d));
                lemma_translated_in_domain(x.rim@[i], y.rim@[i], d);
            }
        },
        (Node::RegularPolygon(x), Node::RegularPolygon(y)) => {
            lemma_translated_in_domain(*x.child, *y.child, d);
        },
        (Node::Decorated(x), Node::Decorated(y)) => {
            lemma_translated_in_domain(*x.child, *y.child, d);
        },
        (Node::Emphasized(x), Node::Emphasized(y)) => {
            lemma_translated_in_domain(*x.child, *y.child, d);
        },
        (Node::Link(x), Node::Link(y)) => {
            assert forall|i: int|
                #![trigger x.segments@[i]]
                #![trigger y.segments@[i]]
                0 <= i < x.segments@.len() implies (y.segments@[i].bounded(COORD_MAX as int)
                <==> line_shift_keeps(x.segments@[i], d)) by {
                assert(y.segments@[i] == line_translate(x.segments@[i], d));
            }
            assert forall|i: int|
                #![trigger x.items@[i]]
                #![trigger y.items@[i]]
                0 <= i < x.items@.len() implies (node_bounded(y.items@[i], COORD_MAX as int)
                <==> translated_in_domain(x.items@[i], d)) by {
                assert(node_translated(x.items@[i], y.items@[i], d));
                lemma_translated_in_domain(x.items@[i], y.items@[i], d);
            }
        },
        (Node::Arrangement(xs), Node::Arrangement(ys)) => {
            assert forall|i: int|
                #![trigger xs@[i]]
                #![trigger ys@[i]]
                0 <= i < xs@.len() implies (node_bounded(ys@[i], COORD_MAX as int)
                <==> translated_in_domain(xs@[i], d)) by {
                assert(node_translated(xs@[i], ys@[i], d));
                lemma_translated_in_domain(xs@[i], ys@[i], d);
            }
        },
        _ => {},
    }
}

/// A bound on every scalar of a subtree weakens monotonically.
proof fn lemma_node_bounded_mono(n: Node, b1: int, b2: int)
    requires
        node_bounded(n, b1),
        b1 <= b2,
    ensures
        node_bounded(n, b2),
    decreases n,
{
    match n {
        Node::Symbol(s) => {},
        Node::Phrase(p) => {},
        Node::Pentagram(p) => {
            lemma_node_bounded_mono(*p.child, b1, b2);
        },
        Node::Circle(c) => {
            lemma_node_bounded_mono(*c.content, b1, b2);
            assert forall|i: int| 0 <= i < c.rim@.len() implies node_bounded(
                #[trigger] c.rim@[i],
                b2,
            ) by {
                lemma_node_bounded_mono(c.rim@[i], b1, b2);
            }
        },
        Node::RegularPolygon(p) => {
            lemma_node_bounded_mono(*p.child, b1, b2);
        },
        Node::Decorated(d) => {
            lemma_node_bounded_mono(*d.child, b1, b2);
        },
        Node::Emphasized(e) => {
            lemma_node_bounded_mono(*e.child, b1, b2);
        },
        Node::Link(l) => {
            assert forall|i: int| 0 <= i < l.items@.len() implies node_bounded(
                #[trigger] l.items@[i],
                b2,
            ) by {
                lemma_node_bounded_mono(l.items@[i], b1, b2);
            }
        },
        Node::Arrangement(ns) => {
            assert forall|i: int| 0 <= i < ns@.len() implies node_bounded(
                #[trigger] ns@[i],
                b2,
            ) by {
                lemma_node_bounded_mono(ns@[i], b1, b2);
            }
        },
    }
}

proof fn lemma_nrau_nonneg(ns: Seq<Node>, angle: int, i: int)
    ensures
        nodes_radius_at_upto(ns, angle, i) >= 0,
    decreases i,
{
    if 0 < i <= ns.len() {
        lemma_nrau_nonneg(ns, angle, i - 1);
    }
}

/// The composite boundary of a stack of measured line rectangles.
#[verifier::loop_isolation(false)]
fn rects_boundary(rs: &Vec<BRect>) -> (r: Shape)
    requires
        rs@.len() >= 1,
        forall|i: int| 0 <= i < rs@.len() ==> (#[trigger] rs@[i]).wf(),
        forall|i: int| 0 <= i < rs@.len() ==> (#[trigger] rs@[i]).bounded(COORD_MAX as int),
    ensures
        shape_wf(r),
        shape_bounded(r, COORD_MAX as int),
        shape_radius(r) == rects_radius_upto(rs@, rs@.len() as int),
        forall|a: int| #[trigger] shape_radius_at(r, a) == rects_radius_at_upto(
            rs@,
            a,
            rs@.len() as int,
        ),
{
    let mut ms: Vec<Shape> = Vec::new();
    let mut j: usize = 0;
    while j < rs.len()
        invariant
            j <= rs@.len(),
            ms@.len() == j,
            forall|k: int| 0 <= k < j ==> (#[trigger] ms@[k]) == Shape::Rect(rs@[k]),
            shapes_radius_upto(ms@, j as int) == rects_radius_upto(rs@, j as int),
            forall|a: int| #[trigger] shapes_radius_at_upto(ms@, a, j as int)
                == rects_radius_at_upto(rs@, a, j as int),
        decreases rs@.len() - j,
    {
        let ghost oldms = ms@;
        ms.push(Shape::Rect(rs[j]));
        proof {
            lemma_sru_prefix(oldms, ms@, j as int);
            assert(shapes_radius_upto(ms@, j + 1) == imax(
                shapes_radius_upto(ms@, j as int),
                shape_radius(ms@[j as int]),
            ));
            assert(rects_radius_upto(rs@, j + 1) == imax(
                rects_radius_upto(rs@, j as int),
                poly_radius(rect_vertices(rs@[j as int])),
            ));
            assert forall|a: int| #[trigger] shapes_radius_at_upto(ms@, a, j + 1)
                == rects_radius_at_upto(rs@, a, j + 1) by {
                lemma_srau_prefix(oldms, ms@, a, j as int);
                assert(shapes_radius_at_upto(ms@, a, j + 1) == imax(
                    shapes_radius_at_upto(ms@, a, j as int),
                    shape_radius_at(ms@[j as int], a),
                ));
                assert(rects_radius_at_upto(rs@, a, j + 1) == imax(
                    rects_radius_at_upto(rs@, a, j as int),
                    poly_radius_at(rect_vertices(rs@[j as int]), a),
                ));
            }
        }
        j = j + 1;
    }
    proof {
        assert forall|k: int| 0 <= k < ms@.len() implies shape_wf(#[trigger] ms@[k])
            && shape_bounded(ms@[k], COORD_MAX as int) by {
            assert(ms@[k] == Shape::Rect(rs@[k]));
            assert(rs@[k].wf());
            assert(rs@[k].bounded(COORD_MAX as int));
        }
    }
    let res = Shape::Composite(ms);
    proof {
        assert forall|a: int| #[trigger] shape_radius_at(res, a) == rects_radius_at_upto(
            rs@,
            a,
            rs@.len() as int,
        ) by {
            assert(shape_radius_at(res, a) == shapes_radius_at_upto(ms@, a, ms@.len() as int));
        }
    }
    res
}

/// Append the boundaries of the given nodes to a member list, keeping
/// the fold values in step.
#[verifier::loop_isolation(false)]
fn push_node_boundaries(ms: &mut Vec<Shape>, ns: &Vec<Node>)
    requires
        forall|i: int| 0 <= i < ns@.len() ==> node_wf(#[trigger] ns@[i]),
        forall|i: int| 0 <= i < ns@.len() ==> node_bounded(#[trigger] ns@[i], COORD_MAX as int),
        forall|k: int| 0 <= k < old(ms)@.len() ==> shape_wf(#[trigger] old(ms)@[k])
            && shape_bounded(old(ms)@[k], COORD_MAX as int),
    ensures
        final(ms)@.len() == old(ms)@.len() + ns@.len(),
        forall|k: int| 0 <= k < final(ms)@.len() ==> shape_wf(#[trigger] final(ms)@[k])
            && shape_bounded(final(ms)@[k], COORD_MAX as int),
        shapes_radius_upto(final(ms)@, final(ms)@.len() as int) == imax(
            shapes_radius_upto(old(ms)@, old(ms)@.len() as int),
            nodes_radius_upto(ns@, ns@.len() as int),
        ),
        forall|a: int| #[trigger] shapes_radius_at_upto(final(ms)@, a, final(ms)@.len() as int)
            == imax(
            shapes_radius_at_upto(old(ms)@, a, old(ms)@.len() as int),
            nodes_radius_at_upto(ns@, a, ns@.len() as int),
        ),
    decreases ns@, 0int,
{
    let base: usize = ms.len();
    proof {
        lemma_sru_nonneg(ms@, base as int);
        assert(nodes_radius_upto(ns@, 0) == 0);
        assert forall|a: int| #[trigger] shapes_radius_at_upto(ms@, a, base as int) == imax(
            shapes_radius_at_upto(ms@, a, base as int),
            nodes_radius_at_upto(ns@, a, 0),
        ) by {
            lemma_srau_nonneg(ms@, a, base as int);
            assert(nodes_radius_at_upto(ns@, a, 0) == 0);
        }
    }
    let mut i: usize = 0;
    while i < ns.len()
        invariant
            i <= ns@.len(),
            base == old(ms)@.len(),
            ms@.len() == base + i,
            forall|k: int| 0 <= k < base ==> (#[trigger] ms@[k]) == old(ms)@[k],
            forall|k: int| 0 <= k < ms@.len() ==> shape_wf(#[trigger] ms@[k]) && shape_bounded(
                ms@[k],
                COORD_MAX as int,
            ),
            shapes_radius_upto(ms@, (base + i) as int) == imax(
                shapes_radius_upto(old(ms)@, base as int),
                nodes_radius_upto(ns@, i as int),
            ),
            forall|a: int| #[trigger] shapes_radius_at_upto(ms@, a, (base + i) as int) == imax(
                shapes_radius_at_upto(old(ms)@, a, base as int),
                nodes_radius_at_upto(ns@, a, i as int),
            ),
        decreases ns@.len() - i,
    {
        let b = ns[i].boundary();
        let ghost oldms = ms@;
        ms.push(b);
        proof {
            lemma_sru_prefix(oldms, ms@, (base + i) as int);
            assert(shapes_radius_upto(ms@, (base + i + 1) as int) == imax(
                shapes_radius_upto(ms@, (base + i) as int),
                shape_radius(ms@[(base + i) as int]),
            ));
            assert(nodes_radius_upto(ns@, i + 1) == imax(
                nodes_radius_upto(ns@, i as int),
                node_radius(ns@[i as int]),
            ));
            assert forall|a: int| #[trigger] shapes_radius_at_upto(ms@, a, (base + i + 1) as int)
                == imax(
                shapes_radius_at_upto(old(ms)@, a, base as int),
                nodes_radius_at_upto(ns@, a, i + 1),
            ) by {
                lemma_srau_prefix(oldms, ms@, a, (base + i) as int);
                assert(shapes_radius_at_upto(ms@, a, (base + i + 1) as int) == imax(
                    shapes_radius_at_upto(ms@, a, (base + i) as int),
                    shape_radius_at(ms@[(base + i) as int], a),
                ));
                assert(nodes_radius_at_upto(ns@, a, i + 1) == imax(
                    nodes_radius_at_upto(ns@, a, i as int),
                    node_radius_at(ns@[i as int], a),
                ));
            }
        }
        i = i + 1;
    }
}

/// Boundary of a circle node: its own circle followed by the rim
/// boundaries.
#[verifier::loop_isolation(false)]
fn boundary_circle(c: &Circle) -> (r: Shape)
    requires
        node_wf(Node::Circle(*c)),
        node_bounded(Node::Circle(*c), COORD_MAX as int),
    ensures
        shape_wf(r),
        shape_bounded(r, COORD_MAX as int),
        shape_radius(r) == imax(
            imax(0, circle_radius(c.boundary)),
            nodes_radius_upto(c.rim@, c.rim@.len() as int),
        ),
        forall|a: int| #[trigger] shape_radius_at(r, a) == imax(
            imax(0, circle_radius_at(c.boundary, a)),
            nodes_radius_at_upto(c.rim@, a, c.rim@.len() as int),
        ),
    decreases *c,
{
    let mut ms: Vec<Shape> = Vec::new();
    ms.push(Shape::Circle(c.boundary));
    proof {
        assert(shapes_radius_upto(ms@, 0) == 0);
        assert(ms@[0] == Shape::Circle(c.boundary));
        assert(shapes_radius_upto(ms@, 1) == imax(
            shapes_radius_upto(ms@, 0),
            shape_radius(ms@[0]),
        ));
        assert forall|a: int| #[trigger] shapes_radius_at_upto(ms@, a, 1) == imax(
            0,
            circle_radius_at(c.boundary, a),
        ) by {
            assert(shapes_radius_at_upto(ms@, a, 0) == 0);
            assert(shapes_radius_at_upto(ms@, a, 1) == imax(
                shapes_radius_at_upto(ms@, a, 0),
                shape_radius_at(ms@[0], a),
            ));
        }
    }
    let ghost base = ms@;
    push_node_boundaries(&mut ms, &c.rim);
    let res = Shape::Composite(ms);
    proof {
        assert(shape_radius(res) == shapes_radius_upto(ms@, ms@.len() as int));
        assert forall|a: int| #[trigger] shape_radius_at(res, a) == imax(
            imax(0, circle_radius_at(c.boundary, a)),
            nodes_radius_at_upto(c.rim@, a, c.rim@.len() as int),
        ) by {
            assert(shape_radius_at(res, a) == shapes_radius_at_upto(ms@, a, ms@.len() as int));
            assert(shapes_radius_at_upto(base, a, 1) == imax(0, circle_radius_at(c.boundary, a)));
        }
    }
    res
}

/// Boundary of a decorated node: the marker rectangle and the child's
/// boundary.
fn boundary_decorated(d: &Decorated) -> (r: Shape)
    requires
        node_wf(Node::Decorated(*d)),
        node_bounded(Node::Decorated(*d), COORD_MAX as int),
    ensures
        shape_wf(r),
        shape_bounded(r, COORD_MAX as int),
        shape_radius(r) == imax(
            imax(0, poly_radius(rect_vertices(d.decoration_rect))),
            node_radius(*d.child),
        ),
        forall|a: int| #[trigger] shape_radius_at(r, a) == imax(
            imax(0, poly_radius_at(rect_vertices(d.decoration_rect), a)),
            node_radius_at(*d.child, a),
        ),
    decreases *d,
{
    let mut ms: Vec<Shape> = Vec::new();
    ms.push(Shape::Rect(d.decoration_rect));
    let b = d.child.boundary();
    ms.push(b);
    let res = Shape::Composite(ms);
    proof {
        assert(ms@[0] == Shape::Rect(d.decoration_rect));
        assert(ms@[1] == b);
        assert forall|k: int| 0 <= k < ms@.len() implies shape_wf(#[trigger] ms@[k])
            && shape_bounded(ms@[k], COORD_MAX as int) by {
            if k == 0 {
                assert(shape_wf(ms@[0]) == d.decoration_rect.wf());
            } else {
                assert(ms@[k] == b);
            }
        }
        assert(shapes_radius_upto(ms@, 0) == 0);
        assert(shapes_radius_upto(ms@, 1) == imax(
            shapes_radius_upto(ms@, 0),
            shape_radius(ms@[0]),
        ));
        assert(shapes_radius_upto(ms@, 2) == imax(
            shapes_radius_upto(ms@, 1),
            shape_radius(ms@[1]),
        ));
        assert(shape_radius(res) == shapes_radius_upto(ms@, 2));
        assert forall|a: int| #[trigger] shape_radius_at(res, a) == imax(
            imax(0, poly_radius_at(rect_vertices(d.decoration_rect), a)),
            node_radius_at(*d.child, a),
        ) by {
            assert(shapes_radius_at_upto(ms@, a, 0) == 0);
            assert(shapes_radius_at_upto(ms@, a, 1) == imax(
                shapes_radius_at_upto(ms@, a, 0),
                shape_radius_at(ms@[0], a),
            ));
            assert(shapes_radius_at_upto(ms@, a, 2) == imax(
                shapes_radius_at_upto(ms@, a, 1),
                shape_radius_at(ms@[1], a),
            ));
            assert(shape_radius_at(res, a) == shapes_radius_at_upto(ms@, a, 2));
        }
    }
    res
}

/// Boundary of a link node: the connecting segments and the item
/// boundaries.
#[verifier::loop_isolation(false)]
fn boundary_link(l: &Link) -> (r: Shape)
    requires
        node_wf(Node::Link(*l)),
        node_bounded(Node::Link(*l), COORD_MAX as int),
    ensures
        shape_wf(r),
        shape_bounded(r, COORD_MAX as int),
        shape_radius(r) == imax(
            lines_radius_upto(l.segments@, l.segments@.len() as int),
            nodes_radius_upto(l.items@, l.items@.len() as int),
        ),
        forall|a: int| #[trigger] shape_radius_at(r, a) == imax(
            lines_radius_at_upto(l.segments@, l.segments@.len() as int),
            nodes_radius_at_upto(l.items@, a, l.items@.len() as int),
        ),
    decreases *l,
{
    let mut ms: Vec<Shape> = Vec::new();
    let mut j: usize = 0;
    while j < l.segments.len()
        invariant
            j <= l.segments@.len(),
            ms@.len() == j,
            forall|k: int| 0 <= k < j ==> (#[trigger] ms@[k]) == Shape::Line(l.segments@[k]),
            forall|k: int| 0 <= k < j ==> shape_wf(#[trigger] ms@[k]) && shape_bounded(
                ms@[k],
                COORD_MAX as int,
            ),
            shapes_radius_upto(ms@, j as int) == lines_radius_upto(l.segments@, j as int),
            forall|a: int| #[trigger] shapes_radius_at_upto(ms@, a, j as int)
                == lines_radius_at_upto(l.segments@, j as int),
        decreases l.segments@.len() - j,
    {
        let ghost oldms = ms@;
        ms.push(Shape::Line(l.segments[j]));
        proof {
            lemma_sru_prefix(oldms, ms@, j as int);
            assert(shapes_radius_upto(ms@, j + 1) == imax(
                shapes_radius_upto(ms@, j as int),
                shape_radius(ms@[j as int]),
            ));
            assert(lines_radius_upto(l.segments@, j + 1) == imax(
                lines_radius_upto(l.segments@, j as int),
                line_radius(l.segments@[j as int]),
            ));
            assert forall|a: int| #[trigger] shapes_radius_at_upto(ms@, a, j + 1)
                == lines_radius_at_upto(l.segments@, j + 1) by {
                lemma_srau_prefix(oldms, ms@, a, j as int);
                assert(ms@[j as int] == Shape::Line(l.segments@[j as int]));
                assert(shapes_radius_at_upto(ms@, a, j + 1) == imax(
                    shapes_radius_at_upto(ms@, a, j as int),
                    shape_radius_at(ms@[j as int], a),
                ));
                assert(lines_radius_at_upto(l.segments@, j + 1) == imax(
                    lines_radius_at_upto(l.segments@, j as int),
                    line_radius_at(l.segments@[j as int]),
                ));
            }
        }
        j = j + 1;
    }
    let ghost base = ms@;
    push_node_boundaries(&mut ms, &l.items);
    let res = Shape::Composite(ms);
    proof {
        assert(shape_radius(res) == shapes_radius_upto(ms@, ms@.len() as int));
        assert forall|a: int| #[trigger] shape_radius_at(res, a) == imax(
            lines_radius_at_upto(l.segments@, l.segments@.len() as int),
            nodes_radius_at_upto(l.items@, a, l.items@.len() as int),
        ) by {
            assert(shape_radius_at(res, a) == shapes_radius_at_upto(ms@, a, ms@.len() as int));
            assert(shapes_radius_at_upto(base, a, l.segments@.len() as int)
                == lines_radius_at_upto(l.segments@, l.segments@.len() as int));
        }
    }
    res
}

/// Boundary of an arrangement: the members' boundaries.
fn boundary_arrangement(ns: &Vec<Node>) -> (r: Shape)
    requires
        ns@.len() >= 1,
        forall|i: int| 0 <= i < ns@.len() ==> node_wf(#[trigger] ns@[i]),
        forall|i: int| 0 <= i < ns@.len() ==> node_bounded(#[trigger] ns@[i], COORD_MAX as int),
    ensures
        shape_wf(r),
        shape_bounded(r, COORD_MAX as int),
        shape_radius(r) == nodes_radius_upto(ns@, ns@.len() as int),
        forall|a: int| #[trigger] shape_radius_at(r, a) == nodes_radius_at_upto(
            ns@,
            a,
            ns@.len() as int,
        ),
    decreases ns@, 1int,
{
    let mut ms: Vec<Shape> = Vec::new();
    push_node_boundaries(&mut ms, ns);
    let res = Shape::Composite(ms);
    proof {
        lemma_nru_nonneg(ns@, ns@.len() as int);
        assert(shape_radius(res) == shapes_radius_upto(ms@, ms@.len() as int));
        assert(shapes_radius_upto(Seq::<Shape>::empty(), 0) == 0);
        assert forall|a: int| #[trigger] shape_radius_at(res, a) == nodes_radius_at_upto(
            ns@,
            a,
            ns@.len() as int,
        ) by {
            lemma_nrau_nonneg(ns@, a, ns@.len() as int);
            assert(shape_radius_at(res, a) == shapes_radius_at_upto(ms@, a, ms@.len() as int));
            assert(shapes_radius_at_upto(Seq::<Shape>::empty(), a, 0) == 0);
        }
    }
    res
}

impl Node {
    /// Exact test that every scalar of this subtree lies in the layout
    /// coordinate domain.
    #[verifier::loop_isolation(false)]
    pub fn check_bounded(&self) -> (b: bool)
        ensures
            b == node_bounded(*self, COORD_MAX as int),
        decreases *self,
    {
        match self {
            Node::Symbol(s) => rects_in_domain(&s.boundary),
            Node::Phrase(p) => rects_in_domain(&p.boundary),
            Node::Pentagram(p) => rp_in_domain(&p.boundary) && p.child.check_bounded(),
            Node::Circle(c) => circle_in_domain(&c.boundary) && c.content.check_bounded()
                && nodes_in_domain(&c.rim),
            Node::RegularPolygon(p) => rp_in_domain(&p.boundary) && p.child.check_bounded(),
            Node::Decorated(d) => rect_in_domain(&d.decoration_rect) && d.child.check_bounded(),
            Node::Emphasized(e) => circle_in_domain(&e.boundary) && e.child.check_bounded(),
            Node::Link(l) => lines_in_domain(&l.segments) && nodes_in_domain(&l.items),
            Node::Arrangement(ns) => nodes_in_domain(ns),
        }
    }

    /// The node's reported boundary: the union of the shapes the node
    /// draws its frame with, as a single composite or concrete shape.
    pub fn boundary(&self) -> (r: Shape)
        requires
            node_wf(*self),
            node_bounded(*self, COORD_MAX as int),
        ensures
            shape_wf(r),
            shape_bounded(r, COORD_MAX as int),
            shape_radius(r) == node_radius(*self),
            forall|a: int| #[trigger] shape_radius_at(r, a) == node_radius_at(*self, a),
        decreases *self,
    {
        match self {
            Node::Symbol(s) => {
                let r = rects_boundary(&s.boundary);
                proof {
                    assert(node_radius(*self) == rects_radius_upto(
                        s.boundary@,
                        s.boundary@.len() as int,
                    ));
                }
                r
            },
            Node::Phrase(p) => rects_boundary(&p.boundary),
            Node::Pentagram(p) => Shape::RegularPolygon(p.boundary),
            Node::Circle(c) => boundary_circle(c),
            Node::RegularPolygon(p) => Shape::RegularPolygon(p.boundary),
            Node::Decorated(d) => boundary_decorated(d),
            Node::Emphasized(e) => Shape::Circle(e.boundary),
            Node::Link(l) => boundary_link(l),
            Node::Arrangement(ns) => boundary_arrangement(ns),
        }
    }

    /// Circumradius of the node's boundary about the local origin.
    pub fn outer_radius(&self) -> (r: i64)
        requires
            node_wf(*self),
            node_bounded(*self, COORD_MAX as int),
        ensures
            r == node_radius(*self),
            0 <= r <= 5 * COORD_MAX,
    {
        let b = self.boundary();
        b.convex_radius()
    }

    /// Support radius of the node's boundary in the direction at
    /// `angle`.
    pub fn outer_radius_at(&self, angle: i64) -> (r: i64)
        requires
            node_wf(*self),
            node_bounded(*self, COORD_MAX as int),
            angle > i64::MIN,
            angle <= i64::MAX - QUARTER_TURN,
        ensures
            r == node_radius_at(*self, angle as int),
            -5 * COORD_MAX <= r <= 5 * COORD_MAX,
    {
        let b = self.boundary();
        b.convex_radius_at(angle)
    }
}

#[verifier::loop_isolation(false)]
fn translate_rects(v: &mut Vec<BRect>, amount: Vec2)
    requires
        forall|i: int| 0 <= i < old(v)@.len() ==> (#[trigger] old(v)@[i]).bounded(TRANS_MAX as int),
        amount.bounded(TRANS_MAX as int),
    ensures
        final(v)@.len() == old(v)@.len(),
        forall|i: int| 0 <= i < old(v)@.len() ==> (#[trigger] final(v)@[i]) == rect_translate(
            old(v)@[i],
            amount,
        ),
{
    let n: usize = v.len();
    let mut j: usize = 0;
    while j < n
        invariant
            j <= n,
            n == old(v)@.len(),
            v@.len() == n,
            forall|k: int| 0 <= k < j ==> (#[trigger] v@[k]) == rect_translate(old(v)@[k], amount),
            forall|k: int| j <= k < n ==> (#[trigger] v@[k]) == old(v)@[k],
        decreases n - j,
    {
        let e = &mut v[j];
        e.translate(amount);
        j = j + 1;
    }
}

#[verifier::loop_isolation(false)]
fn translate_lines(v: &mut Vec<BLine>, amount: Vec2)
    requires
        forall|i: int| 0 <= i < old(v)@.len() ==> (#[trigger] old(v)@[i]).bounded(TRANS_MAX as int),
        amount.bounded(TRANS_MAX as int),
    ensures
        final(v)@.len() == old(v)@.len(),
        forall|i: int| 0 <= i < old(v)@.len() ==> (#[trigger] final(v)@[i]) == line_translate(
            old(v)@[i],
            amount,
        ),
{
    let n: usize = v.len();
    let mut j: usize = 0;
    while j < n
        invariant
            j <= n,
            n == old(v)@.len(),
            v@.len() == n,
            forall|k: int| 0 <= k < j ==> (#[trigger] v@[k]) == line_translate(old(v)@[k], amount),
            forall|k: int| j <= k < n ==> (#[trigger] v@[k]) == old(v)@[k],
        decreases n - j,
    {
        let e = &mut v[j];
        e.translate(amount);
        j = j + 1;
    }
}

#[verifier::loop_isolation(false)]
fn translate_nodes(v: &mut Vec<Node>, amount: Vec2)
    requires
        forall|i: int| 0 <= i < old(v)@.len() ==> node_bounded(#[trigger] old(v)@[i], TRANS_MAX as int),
        amount.bounded(TRANS_MAX as int),
    ensures
        final(v)@.len() == old(v)@.len(),
        forall|i: int| 0 <= i < old(v)@.len() ==> node_translated(
            #[trigger] old(v)@[i],
            final(v)@[i],
            amount,
        ),
    decreases old(v)@, 0int,
{
    let n: usize = v.len();
    let mut j: usize = 0;
    while j < n
        invariant
            j <= n,
            n == old(v)@.len(),
            v@.len() == n,
            forall|k: int| 0 <= k < j ==> node_translated(#[trigger] old(v)@[k], v@[k], amount),
            forall|k: int| j <= k < n ==> (#[trigger] v@[k]) == old(v)@[k],
        decreases n - j,
    {
        let e = &mut v[j];
        e.translate(amount);
        j = j + 1;
    }
}

#[verifier::loop_isolation(false)]
fn rotate_rects(v: &mut Vec<BRect>, angle: i64)
    requires
        forall|i: int| 0 <= i < old(v)@.len() ==> (#[trigger] old(v)@[i]).bounded(ROT_MAX as int),
        iabs(angle as int) <= ANGLE_MAX,
    ensures
        final(v)@.len() == old(v)@.len(),
        forall|i: int| 0 <= i < old(v)@.len() ==> (#[trigger] final(v)@[i]) == rect_rotate(
            old(v)@[i],
            angle as int,
        ),
{
    let n: usize = v.len();
    let mut j: usize = 0;
    while j < n
        invariant
            j <= n,
            n == old(v)@.len(),
            v@.len() == n,
            forall|k: int| 0 <= k < j ==> (#[trigger] v@[k]) == rect_rotate(old(v)@[k], angle as int),
            forall|k: int| j <= k < n ==> (#[trigger] v@[k]) == old(v)@[k],
        decreases n - j,
    {
        let e = &mut v[j];
        e.rotate(angle);
        j = j + 1;
    }
}

#[verifier::loop_isolation(false)]
fn rotate_lines(v: &mut Vec<BLine>, angle: i64)
    requires
        forall|i: int| 0 <= i < old(v)@.len() ==> (#[trigger] old(v)@[i]).bounded(ROT_MAX as int),
        iabs(angle as int) <= ANGLE_MAX,
    ensures
        final(v)@.len() == old(v)@.len(),
        forall|i: int| 0 <= i < old(v)@.len() ==> (#[trigger] final(v)@[i]) == line_rotate(
            old(v)@[i],
            angle as int,
        ),
{
    let n: usize = v.len();
    let mut j: usize = 0;
    while j < n
        invariant
            j <= n,
            n == old(v)@.len(),
            v@.len() == n,
            forall|k: int| 0 <= k < j ==> (#[trigger] v@[k]) == line_rotate(old(v)@[k], angle as int),
            forall|k: int| j <= k < n ==> (#[trigger] v@[k]) == old(v)@[k],
        decreases n - j,
    {
        let e = &mut v[j];
        e.rotate(angle);
        j = j + 1;
    }
}

#[verifier::loop_isolation(false)]
fn rotate_nodes(v: &mut Vec<Node>, angle: i64)
    requires
        forall|i: int| 0 <= i < old(v)@.len() ==> node_bounded(#[trigger] old(v)@[i], ROT_MAX as int),
        iabs(angle as int) <= ANGLE_MAX,
    ensures
        final(v)@.len() == old(v)@.len(),
        forall|i: int| 0 <= i < old(v)@.len() ==> node_rotated(
            #[trigger] old(v)@[i],
            final(v)@[i],
            angle as int,
        ),
    decreases old(v)@, 0int,
{
    let n: usize = v.len();
    let mut j: usize = 0;
    while j < n
        invariant
            j <= n,
            n == old(v)@.len(),
            v@.len() == n,
            forall|k: int| 0 <= k < j ==> node_rotated(#[trigger] old(v)@[k], v@[k], angle as int),
            forall|k: int| j <= k < n ==> (#[trigger] v@[k]) == old(v)@[k],
        decreases n - j,
    {
        let e = &mut v[j];
        e.rotate(angle);
        j = j + 1;
    }
}

#[verifier::loop_isolation(false)]
fn scale_rects(v: &mut Vec<BRect>, factor: Ratio)
    requires
        forall|i: int| 0 <= i < old(v)@.len() ==> (#[trigger] old(v)@[i]).bounded(COORD_MAX as int),
        factor.wf(),
    ensures
        final(v)@.len() == old(v)@.len(),
        forall|i: int| 0 <= i < old(v)@.len() ==> (#[trigger] final(v)@[i]) == rect_scale(
            old(v)@[i],
            factor,
        ),
{
    let n: usize = v.len();
    let mut j: usize = 0;
    while j < n
        invariant
            j <= n,
            n == old(v)@.len(),
            v@.len() == n,
            forall|k: int| 0 <= k < j ==> (#[trigger] v@[k]) == rect_scale(old(v)@[k], factor),
            forall|k: int| j <= k < n ==> (#[trigger] v@[k]) == old(v)@[k],
        decreases n - j,
    {
        let e = &mut v[j];
        e.scale(factor);
        j = j + 1;
    }
}

#[verifier::loop_isolation(false)]
fn scale_lines(v: &mut Vec<BLine>, factor: Ratio)
    requires
        forall|i: int| 0 <= i < old(v)@.len() ==> (#[trigger] old(v)@[i]).bounded(COORD_MAX as int),
        factor.wf(),
    ensures
        final(v)@.len() == old(v)@.len(),
        forall|i: int| 0 <= i < old(v)@.len() ==> (#[trigger] final(v)@[i]) == line_scale(
            old(v)@[i],
            factor,
        ),
{
    let n: usize = v.len();
    let mut j: usize = 0;
    while j < n
        invariant
            j <= n,
            n == old(v)@.len(),
            v@.len() == n,
            forall|k: int| 0 <= k < j ==> (#[trigger] v@[k]) == line_scale(old(v)@[k], factor),
            forall|k: int| j <= k < n ==> (#[trigger] v@[k]) == old(v)@[k],
        decreases n - j,
    {
        let e = &mut v[j];
        e.scale(factor);
        j = j + 1;
    }
}

#[verifier::loop_isolation(false)]
fn scale_nodes(v: &mut Vec<Node>, factor: Ratio)
    requires
        forall|i: int| 0 <= i < old(v)@.len() ==> node_bounded(#[trigger] old(v)@[i], COORD_MAX as int),
        factor.wf(),
    ensures
        final(v)@.len() == old(v)@.len(),
        forall|i: int| 0 <= i < old(v)@.len() ==> node_scaled(
            #[trigger] old(v)@[i],
            final(v)@[i],
            factor,
        ),
    decreases old(v)@, 0int,
{
    let n: usize = v.len();
    let mut j: usize = 0;
    while j < n
        invariant
            j <= n,
            n == old(v)@.len(),
            v@.len() == n,
            forall|k: int| 0 <= k < j ==> node_scaled(#[trigger] old(v)@[k], v@[k], factor),
            forall|k: int| j <= k < n ==> (#[trigger] v@[k]) == old(v)@[k],
        decreases n - j,
    {
        let e = &mut v[j];
        e.scale(factor);
        j = j + 1;
    }
}

impl Node {
    /// Translate the whole owned subtree by `amount`.
    pub fn translate(&mut self, amount: Vec2)
        requires
            node_bounded(*old(self), TRANS_MAX as int),
            amount.bounded(TRANS_MAX as int),
        ensures
            node_translated(*old(self), *final(self), amount),
        decreases *old(self), 1int,
    {
        match self {
            Node::Symbol(s) => translate_rects(&mut s.boundary, amount),
            Node::Phrase(p) => translate_rects(&mut p.boundary, amount),
            Node::Pentagram(p) => {
                p.boundary.translate(amount);
                p.child.translate(amount);
            },
            Node::Circle(c) => {
                c.boundary.translate(amount);
                c.content.translate(amount);
                translate_nodes(&mut c.rim, amount);
            },
            Node::RegularPolygon(p) => {
                p.boundary.translate(amount);
                p.child.translate(amount);
            },
            Node::Decorated(d) => {
                d.decoration_rect.translate(amount);
                d.child.translate(amount);
            },
            Node::Emphasized(e) => {
                e.boundary.translate(amount);
                e.child.translate(amount);
            },
            Node::Link(l) => {
                translate_lines(&mut l.segments, amount);
                translate_nodes(&mut l.items, amount);
            },
            Node::Arrangement(ns) => translate_nodes(ns, amount),
        }
    }

    /// Rotate the whole owned subtree by `angle`.
    pub fn rotate(&mut self, angle: i64)
        requires
            node_bounded(*old(self), ROT_MAX as int),
            iabs(angle as int) <= ANGLE_MAX,
        ensures
            node_rotated(*old(self), *final(self), angle as int),
        decreases *old(self), 1int,
    {
        match self {
            Node::Symbol(s) => rotate_rects(&mut s.boundary, angle),
            Node::Phrase(p) => rotate_rects(&mut p.boundary, angle),
            Node::Pentagram(p) => {
                p.boundary.rotate(angle);
                p.child.rotate(angle);
            },
            Node::Circle(c) => {
                c.boundary.rotate(angle);
                c.content.rotate(angle);
                rotate_nodes(&mut c.rim, angle);
            },
            Node::RegularPolygon(p) => {
                p.boundary.rotate(angle);
                p.child.rotate(angle);
            },
            Node::Decorated(d) => {
                d.decoration_rect.rotate(angle);
                d.child.rotate(angle);
            },
            Node::Emphasized(e) => {
                e.boundary.rotate(angle);
                e.child.rotate(angle);
            },
            Node::Link(l) => {
                rotate_lines(&mut l.segments, angle);
                rotate_nodes(&mut l.items, angle);
            },
            Node::Arrangement(ns) => rotate_nodes(ns, angle),
        }
    }

    /// Scale the whole owned subtree by `factor`.
    pub fn scale(&mut self, factor: Ratio)
        requires
            node_bounded(*old(self), COORD_MAX as int),
            factor.wf(),
        ensures
            node_scaled(*old(self), *final(self), factor),
        decreases *old(self), 1int,
    {
        match self {
            Node::Symbol(s) => scale_rects(&mut s.boundary, factor),
            Node::Phrase(p) => scale_rects(&mut p.boundary, factor),
            Node::Pentagram(p) => {
                p.boundary.scale(factor);
                p.child.scale(factor);
            },
            Node::Circle(c) => {
                c.boundary.scale(factor);
                c.content.scale(factor);
                scale_nodes(&mut c.rim, factor);
            },
            Node::RegularPolygon(p) => {
                p.boundary.scale(factor);
                p.child.scale(factor);
            },
            Node::Decorated(d) => {
                d.decoration_rect.scale(factor);
                d.child.scale(factor);
            },
            Node::Emphasized(e) => {
                e.boundary.scale(factor);
                e.child.scale(factor);
            },
            Node::Link(l) => {
                scale_lines(&mut l.segments, factor);
                scale_nodes(&mut l.items, factor);
            },
            Node::Arrangement(ns) => scale_nodes(ns, factor),
        }
    }
}

/// Scaling by a well-formed ratio keeps a nonnegative scalar
/// nonnegative.
proof fn lemma_apply_nonneg(v: int, f: Ratio)
    requires
        v >= 0,
        f.wf(),
    ensures
        f.apply(v) >= 0,
{
    assert(v * f.num >= 0) by (nonlinear_arith)
        requires
            v >= 0,
            f.num >= 0,
    ;
    lemma_tdiv_nonneg(v * f.num, f.den as int);
}

/// A scaled subtree is well formed if the original was.
proof fn lemma_scaled_value_wf(v: int, f: Ratio)
    requires
        0 <= v <= COORD_MAX,
        f.wf(),
    ensures
        0 <= f.apply(v) < i64::MAX,
        (f.apply(v) as i64) >= 0,
{
    lemma_apply_nonneg(v, f);
    crate::bounding::lemma_apply_bound(v, f);
    assert((COORD_MAX as int) * (RATIO_MAX as int) < i64::MAX) by (nonlinear_arith);
    assert((COORD_MAX as int) * f.num <= (COORD_MAX as int) * (RATIO_MAX as int)) by (
    nonlinear_arith)
        requires
            0 <= f.num <= RATIO_MAX,
    ;
}

proof fn lemma_scaled_wf(a: Node, b: Node, f: Ratio)
    requires
        node_scaled(a, b, f),
        node_wf(a),
        node_bounded(a, COORD_MAX as int),
        f.wf(),
    ensures
        node_wf(b),
    decreases a,
{
    match (a, b) {
        (Node::Symbol(x), Node::Symbol(y)) => {
            assert forall|i: int| 0 <= i < y.boundary@.len() implies (
            #[trigger] y.boundary@[i]).wf() by {
                assert(y.boundary@[i] == rect_scale(x.boundary@[i], f));
                assert(x.boundary@[i].wf() && x.boundary@[i].bounded(COORD_MAX as int));
                lemma_scaled_value_wf(x.boundary@[i].width as int, f);
                lemma_scaled_value_wf(x.boundary@[i].height as int, f);
            }
        },
        (Node::Phrase(x), Node::Phrase(y)) => {
            assert forall|i: int| 0 <= i < y.boundary@.len() implies (
            #[trigger] y.boundary@[i]).wf() by {
                assert(y.boundary@[i] == rect_scale(x.boundary@[i], f));
                assert(x.boundary@[i].wf() && x.boundary@[i].bounded(COORD_MAX as int));
                lemma_scaled_value_wf(x.boundary@[i].width as int, f);
                lemma_scaled_value_wf(x.boundary@[i].height as int, f);
            }
        },
        (Node::Pentagram(x), Node::Pentagram(y)) => {
            lemma_scaled_value_wf(x.boundary.outer_radius as int, f);
            lemma_scaled_wf(*x.child, *y.child, f);
        },
        (Node::Circle(x), Node::Circle(y)) => {
            lemma_scaled_value_wf(x.boundary.radius as int, f);
            lemma_scaled_wf(*x.content, *y.content, f);
            assert forall|i: int| 0 <= i < y.rim@.len() implies node_wf(#[trigger] y.rim@[i]) by {
                assert(node_scaled(x.rim@[i], y.rim@[i], f));
                lemma_scaled_wf(x.rim@[i], y.rim@[i], f);
            }
        },
        (Node::RegularPolygon(x), Node::RegularPolygon(y)) => {
            lemma_scaled_value_wf(x.boundary.outer_radius as int, f);
            lemma_scaled_wf(*x.child, *y.child, f);
        },
        (Node::Decorated(x), Node::Decorated(y)) => {
            lemma_scaled_value_wf(x.decoration_rect.width as int, f);
            lemma_scaled_value_wf(x.decoration_rect.height as int, f);
            lemma_scaled_wf(*x.child, *y.child, f);
        },
        (Node::Emphasized(x), Node::Emphasized(y)) => {
            lemma_scaled_value_wf(x.boundary.radius as int, f);
            lemma_scaled_wf(*x.child, *y.child, f);
        },
        (Node::Link(x), Node::Link(y)) => {
            assert forall|i: int| 0 <= i < y.items@.len() implies node_wf(
                #[trigger] y.items@[i],
            ) by {
                assert(node_scaled(x.items@[i], y.items@[i], f));
                lemma_scaled_wf(x.items@[i], y.items@[i], f);
            }
        },
        (Node::Arrangement(xs), Node::Arrangement(ys)) => {
            assert forall|i: int| 0 <= i < ys@.len() implies node_wf(#[trigger] ys@[i]) by {
                assert(node_scaled(xs@[i], ys@[i], f));
                lemma_scaled_wf(xs@[i], ys@[i], f);
            }
        },
        _ => {},
    }
}

/// A translated subtree is well formed if the original was.
proof fn lemma_translated_wf(a: Node, b: Node, d: Vec2)
    requires
        node_translated(a, b, d),
        node_wf(a),
    ensures
        node_wf(b),
    decreases a,
{
    match (a, b) {
        (Node::Pentagram(x), Node::Pentagram(y)) => {
            lemma_translated_wf(*x.child, *y.child, d);
        },
        (Node::Circle(x), Node::Circle(y)) => {
            lemma_translated_wf(*x.content, *y.content, d);
            assert forall|i: int| 0 <= i < y.rim@.len() implies node_wf(#[trigger] y.rim@[i]) by {
                assert(node_translated(x.rim@[i], y.rim@[i], d));
                lemma_translated_wf(x.rim@[i], y.rim@[i], d);
            }
        },
        (Node::RegularPolygon(x), Node::RegularPolygon(y)) => {
            lemma_translated_wf(*x.child, *y.child, d);
        },
        (Node::Decorated(x), Node::Decorated(y)) => {
            lemma_translated_wf(*x.child, *y.child, d);
        },
        (Node::Emphasized(x), Node::Emphasized(y)) => {
            lemma_translated_wf(*x.child, *y.child, d);
        },
        (Node::Link(x), Node::Link(y)) => {
            assert forall|i: int| 0 <= i < y.items@.len() implies node_wf(
                #[trigger] y.items@[i],
            ) by {
                assert(node_translated(x.items@[i], y.items@[i], d));
                lemma_translated_wf(x.items@[i], y.items@[i], d);
            }
        },
        (Node::Arrangement(xs), Node::Arrangement(ys)) => {
            assert forall|i: int| 0 <= i < ys@.len() implies node_wf(#[trigger] ys@[i]) by {
                assert(node_translated(xs@[i], ys@[i], d));
                lemma_translated_wf(xs@[i], ys@[i], d);
            }
        },
        _ => {},
    }
}

/// A rotated subtree is well formed if the original was.
proof fn lemma_rotated_wf(a: Node, b: Node, angle: int)
    requires
        node_rotated(a, b, angle),
        node_wf(a),
    ensures
        node_wf(b),
    decreases a,
{
    match (a, b) {
        (Node::Pentagram(x), Node::Pentagram(y)) => {
            lemma_rotated_wf(*x.child, *y.child, angle);
        },
        (Node::Circle(x), Node::Circle(y)) => {
            lemma_rotated_wf(*x.content, *y.content, angle);
            assert forall|i: int| 0 <= i < y.rim@.len() implies node_wf(#[trigger] y.rim@[i]) by {
                assert(node_rotated(x.rim@[i], y.rim@[i], angle));
                lemma_rotated_wf(x.rim@[i], y.rim@[i], angle);
            }
        },
        (Node::RegularPolygon(x), Node::RegularPolygon(y)) => {
            lemma_rotated_wf(*x.child, *y.child, angle);
        },
        (Node::Decorated(x), Node::Decorated(y)) => {
            lemma_rotated_wf(*x.child, *y.child, angle);
        },
        (Node::Emphasized(x), Node::Emphasized(y)) => {
            lemma_rotated_wf(*x.child, *y.child, angle);
        },
        (Node::Link(x), Node::Link(y)) => {
            assert forall|i: int| 0 <= i < y.items@.len() implies node_wf(
                #[trigger] y.items@[i],
            ) by {
                assert(node_rotated(x.items@[i], y.items@[i], angle));
                lemma_rotated_wf(x.items@[i], y.items@[i], angle);
            }
        },
        (Node::Arrangement(xs), Node::Arrangement(ys)) => {
            assert forall|i: int| 0 <= i < ys@.len() implies node_wf(#[trigger] ys@[i]) by {
                assert(node_rotated(xs@[i], ys@[i], angle));
                lemma_rotated_wf(xs@[i], ys@[i], angle);
            }
        },
        _ => {},
    }
}

/// A rotated subtree stays within twice its bound plus the angle.
proof fn lemma_rotated_bounded(a: Node, b: Node, angle: int, bb: int, am: int)
    requires
        node_rotated(a, b, angle),
        node_bounded(a, bb),
        0 <= bb,
        0 <= am,
        iabs(angle) <= am,
        bb <= ROT_MAX,
    ensures
        node_bounded(b, 2 * bb + am),
    decreases a,
{
    match (a, b) {
        (Node::Symbol(x), Node::Symbol(y)) => {
            assert forall|i: int| 0 <= i < y.boundary@.len() implies (
            #[trigger] y.boundary@[i]).bounded(2 * bb + am) by {
                assert(y.boundary@[i] == rect_rotate(x.boundary@[i], angle));
                assert(x.boundary@[i].bounded(bb));
                crate::vec2::lemma_rot_vec_bounds(x.boundary@[i].offset, -angle);
            }
        },
        (Node::Phrase(x), Node::Phrase(y)) => {
            assert forall|i: int| 0 <= i < y.boundary@.len() implies (
            #[trigger] y.boundary@[i]).bounded(2 * bb + am) by {
                assert(y.boundary@[i] == rect_rotate(x.boundary@[i], angle));
                assert(x.boundary@[i].bounded(bb));
                crate::vec2::lemma_rot_vec_bounds(x.boundary@[i].offset, -angle);
            }
        },
        (Node::Pentagram(x), Node::Pentagram(y)) => {
            crate::vec2::lemma_rot_vec_bounds(x.boundary.offset, -angle);
            lemma_rotated_bounded(*x.child, *y.child, angle, bb, am);
        },
        (Node::Circle(x), Node::Circle(y)) => {
            crate::vec2::lemma_rot_vec_bounds(x.boundary.offset, -angle);
            lemma_rotated_bounded(*x.content, *y.content, angle, bb, am);
            assert forall|i: int| 0 <= i < y.rim@.len() implies node_bounded(
                #[trigger] y.rim@[i],
                2 * bb + am,
            ) by {
                assert(node_rotated(x.rim@[i], y.rim@[i], angle));
                lemma_rotated_bounded(x.rim@[i], y.rim@[i], angle, bb, am);
            }
        },
        (Node::RegularPolygon(x), Node::RegularPolygon(y)) => {
            crate::vec2::lemma_rot_vec_bounds(x.boundary.offset, -angle);
            lemma_rotated_bounded(*x.child, *y.child, angle, bb, am);
        },
        (Node::Decorated(x), Node::Decorated(y)) => {
            crate::vec2::lemma_rot_vec_bounds(x.decoration_rect.offset, -angle);
            lemma_rotated_bounded(*x.child, *y.child, angle, bb, am);
        },
        (Node::Emphasized(x), Node::Emphasized(y)) => {
            crate::vec2::lemma_rot_vec_bounds(x.boundary.offset, -angle);
            lemma_rotated_bounded(*x.child, *y.child, angle, bb, am);
        },
        (Node::Link(x), Node::Link(y)) => {
            assert forall|i: int| 0 <= i < y.segments@.len() implies (
            #[trigger] y.segments@[i]).bounded(2 * bb + am) by {
                assert(y.segments@[i] == line_rotate(x.segments@[i], angle));
                assert(x.segments@[i].bounded(bb));
                crate::vec2::lemma_rot_vec_bounds(x.segments@[i].start, angle);
                crate::vec2::lemma_rot_vec_bounds(x.segments@[i].end, angle);
            }
            assert forall|i: int| 0 <= i < y.items@.len() implies node_bounded(
                #[trigger] y.items@[i],
                2 * bb + am,
            ) by {
                assert(node_rotated(x.items@[i], y.items@[i], angle));
                lemma_rotated_bounded(x.items@[i], y.items@[i], angle, bb, am);
            }
        },
        (Node::Arrangement(xs), Node::Arrangement(ys)) => {
            assert forall|i: int| 0 <= i < ys@.len() implies node_bounded(
                #[trigger] ys@[i],
                2 * bb + am,
            ) by {
                assert(node_rotated(xs@[i], ys@[i], angle));
                lemma_rotated_bounded(xs@[i], ys@[i], angle, bb, am);
            }
        },
        _ => {},
    }
}

/// Exact test that every rectangle of the list is well formed.
#[verifier::loop_isolation(false)]
fn rects_wf_all(v: &Vec<BRect>) -> (b: bool)
    ensures
        b == forall|i: int| 0 <= i < v@.len() ==> (#[trigger] v@[i]).wf(),
{
    let mut j: usize = 0;
    while j < v.len()
        invariant
            j <= v@.len(),
            forall|i: int| 0 <= i < j ==> (#[trigger] v@[i]).wf(),
        decreases v@.len() - j,
    {
        if !(v[j].width >= 0 && v[j].height >= 0) {
            return false;
        }
        j = j + 1;
    }
    true
}

/// The vertical offset of line `i` of `n` stacked lines of height `lh`:
/// lines are centered as a block around the origin.
pub open spec fn line_offset(n: int, i: int, lh: int) -> int {
    tdiv((2 * i - (n - 1)) * lh, 2)
}

/// Lay out measured line widths as a vertically stacked, centered block
/// of rectangles: the computing half of text measurement, with the glyph
/// metrics supplied by the caller.
#[verifier::loop_isolation(false)]
pub fn stack_lines(widths: &Vec<i64>, text_height: i64, line_gap: i64) -> (r: Result<
    Vec<BRect>,
    LayoutError,
>)
    requires
        0 <= text_height,
        0 <= line_gap,
        text_height + line_gap <= COORD_MAX,
        forall|i: int| 0 <= i < widths@.len() ==> 0 <= #[trigger] widths@[i] <= COORD_MAX,
    ensures
        r is Ok <==> 1 <= widths@.len() <= 1000000 && tdiv(
            (widths@.len() - 1) * (text_height + line_gap),
            2,
        ) <= COORD_MAX,
        r matches Ok(v) ==> {
            &&& v@.len() == widths@.len()
            &&& forall|i: int| 0 <= i < v@.len() ==> (#[trigger] v@[i]) == (BRect {
                width: widths@[i],
                height: text_height,
                rotation: 0i64,
                offset: Vec2 {
                    x: 0i64,
                    y: line_offset(
                        widths@.len() as int,
                        i,
                        text_height + line_gap,
                    ) as i64,
                },
            })
            &&& forall|i: int| 0 <= i < v@.len() ==> (#[trigger] v@[i]).wf() && v@[i].bounded(
                COORD_MAX as int,
            )
        },
        r matches Err(e) ==> (e == LayoutError::Degenerate <==> widths@.len() == 0),
{
    let n: usize = widths.len();
    if n == 0 {
        return Err(LayoutError::Degenerate);
    }
    if n > 1000000 {
        proof {
            assert(((n - 1) as int) * ((text_height + line_gap) as int) >= 1000000 * (
            (text_height + line_gap) as int)) by (nonlinear_arith)
                requires
                    n > 1000000,
                    text_height + line_gap >= 0,
            ;
            if tdiv((n - 1) as int * (text_height + line_gap) as int, 2) <= COORD_MAX {
                lemma_tdiv_nonneg((n - 1) as int * (text_height + line_gap) as int, 2);
            }
        }
        return Err(LayoutError::TooLarge);
    }
    let lh: i64 = text_height + line_gap;
    proof {
        assert(0 <= ((n - 1) as int) * (lh as int) <= 1000000 * (COORD_MAX as int)) by (
        nonlinear_arith)
            requires
                0 < n <= 1000000,
                0 <= lh <= COORD_MAX,
        ;
    }
    let spread: i64 = ((n - 1) as i64) * lh;
    let half_spread: i64 = spread / 2;
    proof {
        lemma_tdiv_nonneg(spread as int, 2);
    }
    if half_spread > COORD_MAX {
        return Err(LayoutError::TooLarge);
    }
    let mut v: Vec<BRect> = Vec::new();
    let mut i: usize = 0;
    while i < n
        invariant
            i <= n,
            n == widths@.len(),
            1 <= n <= 1000000,
            lh == text_height + line_gap,
            0 <= lh <= COORD_MAX,
            spread == ((n - 1) as int) * lh,
            half_spread == tdiv(spread as int, 2),
            0 <= half_spread <= COORD_MAX,
            v@.len() == i,
            forall|k: int| 0 <= k < i ==> (#[trigger] v@[k]) == (BRect {
                width: widths@[k],
                height: text_height,
                rotation: 0i64,
                offset: Vec2 { x: 0i64, y: line_offset(n as int, k, lh as int) as i64 },
            }),
            forall|k: int| 0 <= k < i ==> (#[trigger] v@[k]).wf() && v@[k].bounded(
                COORD_MAX as int,
            ),
        decreases n - i,
    {
        proof {
            let t: int = 2 * i - (n - 1);
            assert(iabs(t * lh) <= spread as int) by (nonlinear_arith)
                requires
                    0 <= i < n,
                    t == 2 * i - (n - 1),
                    spread == ((n - 1) as int) * (lh as int),
                    lh >= 0,
            ;
            crate::num::lemma_tdiv_monotone(iabs(t * lh), spread as int, 2);
            crate::num::lemma_tdiv_neg(t * lh, 2);
            lemma_tdiv_nonneg(iabs(t * lh), 2);
        }
        let t: i64 = 2 * (i as i64) - ((n - 1) as i64);
        let y_off: i64 = tdiv_exec(t * lh, 2);
        let mut rect = BRect::from_width_height(widths[i], text_height);
        rect.translate(Vec2 { x: 0, y: y_off });
        v.push(rect);
        i = i + 1;
    }
    Ok(v)
}

/// Largest sampled support of a node over the first `i` face bisectors
/// of an enclosing polygon, folded from zero.
pub open spec fn node_wrap_inner_upto(n: Node, sides: int, rotation: int, i: int) -> int
    decreases i,
{
    if i <= 0 {
        0
    } else {
        imax(
            node_wrap_inner_upto(n, sides, rotation, i - 1),
            node_radius_at(n, crate::bounding::wrap_sample_angle(rotation, sides, i - 1)),
        )
    }
}

/// Circumradius of the minimal enclosing `sides`-gon of a node's
/// boundary, as the kernel wrap computes it.
pub open spec fn node_wrap_outer(n: Node, sides: int, rotation: int, padding: int) -> int {
    cdiv(
        (node_wrap_inner_upto(n, sides, rotation, sides) + padding) * (UNIT as int),
        cos_units(tdiv(TURN as int, 2 * sides)),
    )
}

proof fn lemma_wrap_fold_eq(s: Shape, n: Node, sides: int, rotation: int, i: int)
    requires
        forall|a: int| #[trigger] shape_radius_at(s, a) == node_radius_at(n, a),
    ensures
        crate::bounding::rp_wrap_inner_upto(s, sides, rotation, i) == node_wrap_inner_upto(
            n,
            sides,
            rotation,
            i,
        ),
    decreases i,
{
    if i > 0 {
        lemma_wrap_fold_eq(s, n, sides, rotation, i - 1);
    }
}

/// The minimal enclosing regular polygon of a node's boundary.
fn wrap_node(child: &Node, sides: usize, rotation: i64) -> (r: BRegularPolygon)
    requires
        node_wf(*child),
        node_bounded(*child, COORD_MAX as int),
        3 <= sides <= MAX_SIDES,
        iabs(rotation as int) <= COORD_MAX,
    ensures
        r.num_sides == sides,
        r.rotation == rotation,
        r.offset == (Vec2 { x: 0i64, y: 0i64 }),
        r.wf(),
        r.outer_radius == node_wrap_outer(*child, sides as int, rotation as int, 0),
{
    let b = child.boundary();
    let p = BRegularPolygon::wrap(&b, sides, rotation, 0);
    proof {
        lemma_wrap_fold_eq(b, *child, sides as int, rotation as int, sides as int);
    }
    p
}

/// The measured line rectangles of a text leaf are usable: at least one
/// line, none with a negative extent.
pub open spec fn text_lines_wf(lines: Seq<BRect>) -> bool {
    lines.len() >= 1 && forall|i: int| 0 <= i < lines.len() ==> (#[trigger] lines[i]).wf()
}

/// Every measured line rectangle lies in the layout coordinate domain.
pub open spec fn text_lines_in_domain(lines: Seq<BRect>) -> bool {
    forall|i: int| 0 <= i < lines.len() ==> (#[trigger] lines[i]).bounded(COORD_MAX as int)
}

impl Symbol {
    /// Lay out a glyph from its measured line rectangles.
    pub fn construct(symbol: visual::Symbol) -> (r: Result<Symbol, LayoutError>)
        ensures
            r is Ok <==> text_lines_wf(symbol.lines@) && text_lines_in_domain(symbol.lines@),
            r matches Ok(s) ==> {
                &&& s.name == symbol.name
                &&& s.boundary == symbol.lines
                &&& node_wf(Node::Symbol(s))
                &&& node_bounded(Node::Symbol(s), COORD_MAX as int)
            },
            r matches Err(e) ==> (e == LayoutError::Degenerate <==> !text_lines_wf(
                symbol.lines@,
            )),
    {
        if symbol.lines.len() == 0 || !rects_wf_all(&symbol.lines) {
            return Err(LayoutError::Degenerate);
        }
        if !rects_in_domain(&symbol.lines) {
            return Err(LayoutError::TooLarge);
        }
        Ok(Symbol { name: symbol.name, boundary: symbol.lines })
    }
}

impl Phrase {
    /// Lay out a text block from its measured line rectangles.
    pub fn construct(phrase: visual::Phrase) -> (r: Result<Phrase, LayoutError>)
        ensures
            r is Ok <==> text_lines_wf(phrase.lines@) && text_lines_in_domain(phrase.lines@),
            r matches Ok(p) ==> {
                &&& p.text == phrase.text
                &&& p.boundary == phrase.lines
                &&& node_wf(Node::Phrase(p))
                &&& node_bounded(Node::Phrase(p), COORD_MAX as int)
            },
            r matches Err(e) ==> (e == LayoutError::Degenerate <==> !text_lines_wf(
                phrase.lines@,
            )),
    {
        if phrase.lines.len() == 0 || !rects_wf_all(&phrase.lines) {
            return Err(LayoutError::Degenerate);
        }
        if !rects_in_domain(&phrase.lines) {
            return Err(LayoutError::TooLarge);
        }
        Ok(Phrase { text: phrase.text, boundary: phrase.lines })
    }
}

/// The exact outcome a pentagram owes for a constructed child: the
/// boundary equations of the star and the cosmetic shrink of the child.
pub open spec fn pentagram_built(params: LayoutParams, child: Node, p: Pentagram) -> bool {
    &&& p.boundary.num_sides == 5
    &&& p.boundary.rotation == PENTAGRAM_OUTER_ROTATION
    &&& p.boundary.rotation == PENTAGRAM_INNER_ROTATION - QUARTER_TURN
    &&& p.boundary.offset == (Vec2 { x: 0i64, y: 0i64 })
    &&& p.boundary.outer_radius == (Ratio { num: 2618034i64, den: 1000000i64 }).apply(
        node_wrap_outer(child, 5, PENTAGRAM_INNER_ROTATION as int, 0),
    )
    &&& node_scaled(child, *p.child, params.polygon_content_scale)
    &&& node_wf(Node::Pentagram(p))
    &&& node_bounded(Node::Pentagram(p), COORD_MAX as int)
}

/// A pentagram around this child stays in the layout coordinate domain.
pub open spec fn pentagram_fits(params: LayoutParams, child: Node) -> bool {
    &&& node_wrap_outer(child, 5, PENTAGRAM_INNER_ROTATION as int, 0) <= COORD_MAX
    &&& (Ratio { num: 2618034i64, den: 1000000i64 }).apply(
        node_wrap_outer(child, 5, PENTAGRAM_INNER_ROTATION as int, 0),
    ) <= COORD_MAX
    &&& scaled_in_domain(child, params.polygon_content_scale)
}

impl Pentagram {
    /// Enclose a constructed child in a pentagram: the child is wrapped
    /// by a minimal pentagon at the inner rotation, the star's own
    /// boundary is that pentagon's circumradius enlarged by the fixed
    /// star ratio at the outer rotation, and the child is then shrunk by
    /// the cosmetic content scale.
    pub fn construct(params: &LayoutParams, child: Node) -> (r: Result<Pentagram, LayoutError>)
        requires
            params.wf(),
            node_wf(child),
            node_bounded(child, COORD_MAX as int),
        ensures
            r matches Ok(p) ==> pentagram_built(*params, child, p),
            r is Ok <==> pentagram_fits(*params, child),
            r matches Err(e) ==> e == LayoutError::TooLarge,
    {
        let inner = wrap_node(&child, 5, PENTAGRAM_INNER_ROTATION);
        let ir: i64 = inner.outer_radius;
        if ir > COORD_MAX {
            return Err(LayoutError::TooLarge);
        }
        let ratio = pentagram_radius_ratio();
        let outer: i64 = ratio.scale_val(ir);
        if outer > COORD_MAX {
            return Err(LayoutError::TooLarge);
        }
        proof {
            lemma_apply_nonneg(ir as int, ratio);
        }
        let boundary = BRegularPolygon::new(5, outer, PENTAGRAM_OUTER_ROTATION);
        let mut shrunk = child;
        let ghost child0 = shrunk;
        shrunk.scale(params.polygon_content_scale);
        proof {
            lemma_scaled_in_domain(child0, shrunk, params.polygon_content_scale);
        }
        if !shrunk.check_bounded() {
            return Err(LayoutError::TooLarge);
        }
        proof {
            lemma_scaled_wf(child0, shrunk, params.polygon_content_scale);
        }
        Ok(Pentagram { boundary, child: Box::new(shrunk) })
    }
}

/// The exact outcome a regular polygon node owes for a constructed
/// child.
pub open spec fn rp_built(params: LayoutParams, sides: usize, stroke: visual::StrokePattern,
    child: Node, p: RegularPolygon) -> bool {
    &&& p.sides == sides
    &&& p.stroke == stroke
    &&& p.boundary.num_sides == sides
    &&& p.boundary.rotation == BASE_PLACEMENT_ROTATION
    &&& p.boundary.offset == (Vec2 { x: 0i64, y: 0i64 })
    &&& p.boundary.outer_radius == node_wrap_outer(
        child,
        sides as int,
        BASE_PLACEMENT_ROTATION as int,
        0,
    )
    &&& node_scaled(child, *p.child, params.polygon_content_scale)
    &&& node_wf(Node::RegularPolygon(p))
    &&& node_bounded(Node::RegularPolygon(p), COORD_MAX as int)
}

/// A regular polygon of this side count around this child stays in the
/// layout coordinate domain.
pub open spec fn rp_fits(params: LayoutParams, sides: usize, child: Node) -> bool {
    &&& 3 <= sides <= MAX_SIDES
    &&& node_wrap_outer(child, sides as int, BASE_PLACEMENT_ROTATION as int, 0) <= COORD_MAX
    &&& scaled_in_domain(child, params.polygon_content_scale)
}

impl RegularPolygon {
    /// Enclose a constructed child in a minimal regular polygon at the
    /// base rotation, then shrink the child by the cosmetic content
    /// scale.
    pub fn construct(params: &LayoutParams, sides: usize, stroke: visual::StrokePattern,
        child: Node) -> (r: Result<RegularPolygon, LayoutError>)
        requires
            params.wf(),
            node_wf(child),
            node_bounded(child, COORD_MAX as int),
        ensures
            r matches Ok(p) ==> rp_built(*params, sides, stroke, child, p),
            r == Err::<RegularPolygon, LayoutError>(LayoutError::Degenerate) <==> sides < 3
                || sides > MAX_SIDES,
            r is Ok <==> rp_fits(*params, sides, child),
    {
        if sides < 3 || sides > MAX_SIDES {
            return Err(LayoutError::Degenerate);
        }
        let boundary = wrap_node(&child, sides, BASE_PLACEMENT_ROTATION);
        if boundary.outer_radius > COORD_MAX {
            return Err(LayoutError::TooLarge);
        }
        let mut shrunk = child;
        let ghost child0 = shrunk;
        shrunk.scale(params.polygon_content_scale);
        proof {
            lemma_scaled_in_domain(child0, shrunk, params.polygon_content_scale);
        }
        if !shrunk.check_bounded() {
            return Err(LayoutError::TooLarge);
        }
        proof {
            lemma_scaled_wf(child0, shrunk, params.polygon_content_scale);
        }
        Ok(RegularPolygon { sides, stroke, boundary, child: Box::new(shrunk) })
    }
}

/// The enlarging ratio an emphasis kind applies to the wrapping circle.
pub open spec fn emphasis_ratio(params: LayoutParams, kind: visual::EmphasisKind) -> Ratio {
    match kind {
        visual::EmphasisKind::Rays => params.emphasis_rays_radius_ratio,
    }
}

/// The exact outcome an emphasized node owes for a constructed child.
pub open spec fn emphasized_built(params: LayoutParams, kind: visual::EmphasisKind, child: Node,
    e: Emphasized) -> bool {
    &&& e.kind == kind
    &&& *e.child == child
    &&& e.boundary.offset == (Vec2 { x: 0i64, y: 0i64 })
    &&& e.boundary.radius == emphasis_ratio(params, kind).apply(node_radius(child))
    &&& node_wf(Node::Emphasized(e))
    &&& node_bounded(Node::Emphasized(e), COORD_MAX as int)
}

/// The emphasis circle around this child stays in the layout coordinate
/// domain.
pub open spec fn emphasized_fits(params: LayoutParams, kind: visual::EmphasisKind,
    child: Node) -> bool {
    node_radius(child) <= COORD_MAX && emphasis_ratio(params, kind).apply(node_radius(child))
        <= COORD_MAX
}

impl Emphasized {
    /// Wrap a constructed child in a circle enlarged by the per-kind
    /// emphasis ratio; the child itself is unchanged.
    pub fn construct(params: &LayoutParams, kind: visual::EmphasisKind, child: Node) -> (r:
        Result<Emphasized, LayoutError>)
        requires
            params.wf(),
            node_wf(child),
            node_bounded(child, COORD_MAX as int),
        ensures
            r matches Ok(e) ==> emphasized_built(*params, kind, child, e),
            r is Ok <==> emphasized_fits(*params, kind, child),
            r matches Err(e) ==> e == LayoutError::TooLarge,
    {
        let b = child.boundary();
        let base = BCircle::wrap(&b, 0);
        if base.radius > COORD_MAX {
            return Err(LayoutError::TooLarge);
        }
        let ratio = match kind {
            visual::EmphasisKind::Rays => params.emphasis_rays_radius_ratio,
        };
        let mut circ = base;
        circ.scale(ratio);
        proof {
            lemma_apply_nonneg(base.radius as int, ratio);
            crate::bounding::lemma_apply_bound(base.radius as int, ratio);
            assert((COORD_MAX as int) * (RATIO_MAX as int) < i64::MAX) by (nonlinear_arith);
            assert((COORD_MAX as int) * ratio.num <= (COORD_MAX as int) * (RATIO_MAX as int)) by (
            nonlinear_arith)
                requires
                    0 <= ratio.num <= RATIO_MAX,
            ;
            assert(crate::num::tdiv(0 * ratio.num, ratio.den as int) == 0) by {
                vstd::arithmetic::div_mod::lemma_div_of0(ratio.den as int);
            }
        }
        if circ.radius > COORD_MAX {
            return Err(LayoutError::TooLarge);
        }
        Ok(Emphasized { kind, boundary: circ, child: Box::new(child) })
    }
}

/// The width and height ratios of a decoration kind's marker rectangle.
pub open spec fn deco_ratios(params: LayoutParams, kind: visual::DecorationKind) -> (Ratio,
    Ratio) {
    match kind {
        visual::DecorationKind::Hat => (
            params.decoration_hat_relative_width,
            params.decoration_hat_relative_height,
        ),
        visual::DecorationKind::Tilde => (
            params.decoration_tilde_relative_width,
            params.decoration_tilde_relative_height,
        ),
        visual::DecorationKind::Rays => (
            params.decoration_rays_relative_width,
            params.decoration_rays_relative_height,
        ),
    }
}

/// The fixed angular position of a decoration kind: hats and rays sit
/// above the child, tildes below.
pub open spec fn deco_angle(kind: visual::DecorationKind) -> int {
    match kind {
        visual::DecorationKind::Hat => -(QUARTER_TURN as int),
        visual::DecorationKind::Tilde => QUARTER_TURN as int,
        visual::DecorationKind::Rays => -(QUARTER_TURN as int),
    }
}

/// The marker rectangle a decoration kind places for a child of the
/// given outer radius.
pub open spec fn deco_rect_spec(params: LayoutParams, radius: int, kind: visual::DecorationKind)
    -> BRect {
    let w: int = deco_ratios(params, kind).0.apply(radius);
    let h: int = deco_ratios(params, kind).1.apply(radius);
    let pr: int = params.decoration_position_radius_ratio.apply(radius);
    let ang: int = deco_angle(kind);
    BRect {
        width: w as i64,
        height: h as i64,
        rotation: 0i64,
        offset: Vec2 {
            x: tdiv(pr * cos_units(ang), UNIT as int) as i64,
            y: tdiv(pr * sin_units(ang), UNIT as int) as i64,
        },
    }
}

/// The exact outcome a decorated node owes for a constructed child.
pub open spec fn decorated_built(params: LayoutParams, kind: visual::DecorationKind,
    child: Node, d: Decorated) -> bool {
    &&& d.kind == kind
    &&& *d.child == child
    &&& d.decoration_rect == deco_rect_spec(params, node_radius(child), kind)
    &&& node_wf(Node::Decorated(d))
    &&& node_bounded(Node::Decorated(d), COORD_MAX as int)
}

/// The marker rectangle for this child stays in the layout coordinate
/// domain.
pub open spec fn decorated_fits(params: LayoutParams, kind: visual::DecorationKind,
    child: Node) -> bool {
    &&& deco_ratios(params, kind).0.apply(node_radius(child)) <= COORD_MAX
    &&& deco_ratios(params, kind).1.apply(node_radius(child)) <= COORD_MAX
    &&& params.decoration_position_radius_ratio.apply(node_radius(child)) <= COORD_MAX
}

impl Decorated {
    /// Place a marker rectangle near a constructed child: its size from
    /// the per-kind ratio table applied to the child's outer radius, its
    /// position outward along the kind's fixed angle.
    pub fn construct(params: &LayoutParams, kind: visual::DecorationKind, child: Node) -> (r:
        Result<Decorated, LayoutError>)
        requires
            params.wf(),
            node_wf(child),
            node_bounded(child, COORD_MAX as int),
        ensures
            r matches Ok(d) ==> decorated_built(*params, kind, child, d),
            r is Ok <==> decorated_fits(*params, kind, child),
            r matches Err(e) ==> e == LayoutError::TooLarge,
    {
        let radius: i64 = child.outer_radius();
        let (wr, hr) = match kind {
            visual::DecorationKind::Hat => (
                params.decoration_hat_relative_width,
                params.decoration_hat_relative_height,
            ),
            visual::DecorationKind::Tilde => (
                params.decoration_tilde_relative_width,
                params.decoration_tilde_relative_height,
            ),
            visual::DecorationKind::Rays => (
                params.decoration_rays_relative_width,
                params.decoration_rays_relative_height,
            ),
        };
        proof {
            lemma_deco_product_bounds(radius as int, wr);
            lemma_deco_product_bounds(radius as int, hr);
            lemma_deco_product_bounds(radius as int, params.decoration_position_radius_ratio);
        }
        let w: i64 = mul_div(radius, wr.num, wr.den);
        let h: i64 = mul_div(radius, hr.num, hr.den);
        let pr: i64 = mul_div(
            radius,
            params.decoration_position_radius_ratio.num,
            params.decoration_position_radius_ratio.den,
        );
        if w > COORD_MAX || h > COORD_MAX || pr > COORD_MAX {
            return Err(LayoutError::TooLarge);
        }
        let ang: i64 = match kind {
            visual::DecorationKind::Hat => -QUARTER_TURN,
            visual::DecorationKind::Tilde => QUARTER_TURN,
            visual::DecorationKind::Rays => -QUARTER_TURN,
        };
        let c: i64 = cos_fp(ang);
        let s: i64 = sin_fp(ang);
        proof {
            assert(iabs(pr as int * c) <= (COORD_MAX as int) * (UNIT as int) && iabs(
            pr as int * s) <= (COORD_MAX as int) * (UNIT as int)) by (nonlinear_arith)
                requires
                    -UNIT <= c <= UNIT,
                    -UNIT <= s <= UNIT,
                    0 <= pr <= COORD_MAX,
            ;
            assert((COORD_MAX as int) * (UNIT as int) < i64::MAX) by (nonlinear_arith);
            lemma_tdiv_mag(pr as int * c, UNIT as int, COORD_MAX as int);
            lemma_tdiv_mag(pr as int * s, UNIT as int, COORD_MAX as int);
        }
        let tx: i64 = tdiv_exec(pr * c, UNIT);
        let ty: i64 = tdiv_exec(pr * s, UNIT);
        let mut rect = BRect::from_width_height(w, h);
        rect.translate(Vec2 { x: tx, y: ty });
        Ok(Decorated { kind, decoration_rect: rect, child: Box::new(child) })
    }
}

/// A configured ratio applied to a node radius stays far inside the
/// machine range.
proof fn lemma_deco_product_bounds(radius: int, f: Ratio)
    requires
        0 <= radius <= 5 * COORD_MAX,
        param_ratio_wf(f),
    ensures
        0 <= radius * f.num <= 5 * (COORD_MAX as int) * (PARAM_RATIO_MAX as int),
        tdiv(radius * f.num, f.den as int) < i64::MAX,
        tdiv(radius * f.num, f.den as int) >= 0,
{
    assert(0 <= radius * f.num <= 5 * (COORD_MAX as int) * (PARAM_RATIO_MAX as int) && 5 * (
    COORD_MAX as int) * (PARAM_RATIO_MAX as int) < i64::MAX) by (nonlinear_arith)
        requires
            0 <= radius <= 5 * COORD_MAX,
            0 <= f.num <= PARAM_RATIO_MAX,
    ;
    lemma_tdiv_nonneg(radius * f.num, f.den as int);
}

/// The outer-to-inner radius ratio of a circle boundary: unity for a
/// single stroke, the configured ratio for a double stroke.
pub open spec fn radius_ratio_of(params: LayoutParams, double: bool) -> Ratio {
    if double {
        params.double_stroke_radius_ratio
    } else {
        Ratio { num: 1i64, den: 1i64 }
    }
}

/// The smallest content radius that keeps the largest rim item within
/// the configured rim-to-content ratio.
pub open spec fn min_content_radius(params: LayoutParams, rim: Seq<Node>) -> int {
    tdiv(
        nodes_radius_upto(rim, rim.len() as int) * params.circle_max_rim_ratio.den,
        params.circle_max_rim_ratio.num as int,
    )
}

/// Rounds a minimum-size pass may take before giving up.
pub const RAISE_FUEL: usize = 64;

/// The deterministic raising chain of a minimum-size pass: `b` is `a`
/// after `k` rounds, each round scaling the current node by
/// `(min + round index) / current radius` because it still measured
/// under the minimum.  Truncating arithmetic can leave one round just
/// short, so the pass re-measures and escalates until the minimum holds.
pub open spec fn raise_chain(min: int, a: Node, b: Node, k: nat) -> bool
    decreases k,
{
    if k == 0 {
        b == a
    } else {
        exists|m: Node|
            #![trigger node_radius(m)]
            raise_chain(min, a, m, (k - 1) as nat) && 0 < node_radius(m) < min && node_scaled(
                m,
                b,
                Ratio { num: (min + k - 1) as i64, den: node_radius(m) as i64 },
            )
    }
}

proof fn lemma_raise_chain_step(min: int, a: Node, m: Node, b: Node, k: nat)
    requires
        raise_chain(min, a, m, k),
        0 < node_radius(m) < min,
        node_scaled(m, b, Ratio { num: (min + k) as i64, den: node_radius(m) as i64 }),
    ensures
        raise_chain(min, a, b, (k + 1) as nat),
{
    let kk: nat = (k + 1) as nat;
    assert((kk - 1) as nat == k);
    assert(raise_chain(min, a, m, (kk - 1) as nat));
    assert((min + kk - 1) as i64 == (min + k) as i64);
    assert(node_scaled(m, b, Ratio { num: (min + kk - 1) as i64, den: node_radius(m) as i64 }));
    assert(raise_chain(min, a, b, kk));
}

/// A minimum-size pass genuinely fails on `a`: its deterministic chain
/// reaches a state that leaves the coordinate domain, collapses to
/// radius zero, or is still under the minimum with the round budget
/// spent.
pub open spec fn raise_blocked(min: int, a: Node) -> bool {
    exists|b: Node, k: nat|
        #![trigger raise_chain(min, a, b, k)]
        raise_chain(min, a, b, k) && k <= RAISE_FUEL && {
            ||| !node_bounded(b, COORD_MAX as int)
            ||| (k == RAISE_FUEL && 0 < node_radius(b) < min)
            ||| (k >= 1 && node_radius(b) == 0 < min)
        }
}

/// How a circle's content relates to its pre-layout form: untouched if
/// it already meets the minimum radius the rim demands, otherwise
/// scaled up by the raising chain until its outer radius reaches it.
pub open spec fn content_constrained(params: LayoutParams, a: Node, rim: Seq<Node>, b: Node)
    -> bool {
    let min_c: int = min_content_radius(params, rim);
    if node_radius(a) >= min_c {
        b == a
    } else {
        exists|k: nat|
            #![trigger raise_chain(min_c, a, b, k)]
            k <= RAISE_FUEL && raise_chain(min_c, a, b, k) && node_radius(b) >= min_c
    }
}

/// How a rim item relates to its pre-layout form: untouched if it
/// already meets the configured minimum rim radius, otherwise scaled up
/// by the raising chain until its outer radius reaches it.
pub open spec fn rim_constrained(params: LayoutParams, mean: int, a: Node, b: Node) -> bool {
    let min_rim: int = params.circle_min_rim_ratio.apply(mean);
    if node_radius(a) >= min_rim {
        b == a
    } else {
        exists|k: nat|
            #![trigger raise_chain(min_rim, a, b, k)]
            k <= RAISE_FUEL && raise_chain(min_rim, a, b, k) && node_radius(b) >= min_rim
    }
}

/// Scale `node` up, re-measuring after each round, until its outer
/// radius reaches `min`; a node already at the minimum is untouched.
#[verifier::loop_isolation(false)]
pub fn raise_to_minimum(min: i64, node: &mut Node) -> (r: Result<(), LayoutError>)
    requires
        0 <= min,
        min + RAISE_FUEL <= RATIO_MAX,
        node_wf(*old(node)),
        node_bounded(*old(node), COORD_MAX as int),
    ensures
        r is Ok ==> {
            &&& exists|k: nat|
                #![trigger raise_chain(min as int, *old(node), *final(node), k)]
                k <= RAISE_FUEL && raise_chain(min as int, *old(node), *final(node), k)
            &&& node_radius(*final(node)) >= min
            &&& node_wf(*final(node))
            &&& node_bounded(*final(node), COORD_MAX as int)
        },
        node_radius(*old(node)) >= min ==> r is Ok && *final(node) == *old(node),
        r == Err::<(), LayoutError>(LayoutError::Degenerate) <==> node_radius(*old(node)) == 0
            < min,
        r == Err::<(), LayoutError>(LayoutError::TooLarge) ==> raise_blocked(
            min as int,
            *old(node),
        ),
{
    let mut k: usize = 0;
    loop
        invariant
            k <= RAISE_FUEL,
            0 <= min,
            min + RAISE_FUEL <= RATIO_MAX,
            node_wf(*node),
            node_bounded(*node, COORD_MAX as int),
            raise_chain(min as int, *old(node), *node, k as nat),
            k == 0 ==> *node == *old(node),
            k >= 1 ==> 0 < node_radius(*old(node)) < min,
        decreases RAISE_FUEL - k,
    {
        let got: i64 = node.outer_radius();
        if got >= min {
            return Ok(());
        }
        if got == 0 {
            if k == 0 {
                return Err(LayoutError::Degenerate);
            }
            return Err(LayoutError::TooLarge);
        }
        if k == RAISE_FUEL {
            return Err(LayoutError::TooLarge);
        }
        let f = Ratio { num: min + (k as i64), den: got };
        let ghost prev = *node;
        node.scale(f);
        proof {
            lemma_scaled_wf(prev, *node, f);
            assert(raise_chain(min as int, *old(node), prev, k as nat));
            assert(node_radius(prev) == got);
            assert(node_scaled(prev, *node, f));
            assert(f == Ratio {
                num: (min as int + (k as nat)) as i64,
                den: node_radius(prev) as i64,
            });
            lemma_raise_chain_step(min as int, *old(node), prev, *node, k as nat);
            assert(raise_chain(min as int, *old(node), *node, (k + 1) as nat));
        }
        let ok = node.check_bounded();
        if !ok {
            return Err(LayoutError::TooLarge);
        }
        k = k + 1;
    }
}

/// The angle around the ring at which rim item `i` of `n` sits, before
/// the base rotation.
pub open spec fn rim_orientation(n: int, i: int) -> int {
    tdiv(i * (TURN as int), n)
}

/// The placement angle of rim item `i` of `n`.
pub open spec fn rim_angle(n: int, i: int) -> int {
    rim_orientation(n, i) + BASE_PLACEMENT_ROTATION
}

/// The outward correction applied to a rim item: how far its boundary
/// reaches back toward the center beyond the allowed overlap.
pub open spec fn rim_offset_amt(params: LayoutParams, inner: int, inward: int) -> int {
    imax(0, inward - params.circle_max_rim_overlap_ratio.apply(inner))
}

/// The translation that places a constrained rim item `m1`.
pub open spec fn rim_translation(params: LayoutParams, mean: int, inner: int, m1: Node, n: int,
    i: int) -> Vec2 {
    let ang: int = rim_angle(n, i);
    let inward: int = node_radius_at(m1, ang - HALF_TURN);
    let dist: int = mean + rim_offset_amt(params, inner, inward);
    Vec2 {
        x: tdiv(dist * cos_units(ang), UNIT as int) as i64,
        y: tdiv(dist * sin_units(ang), UNIT as int) as i64,
    }
}

/// Rim item `k` of `n` was rotated to face outward at its placement
/// angle and translated to the ring.
pub open spec fn rim_item_placed(params: LayoutParams, mean: int, inner: int, before: Node,
    after: Node, n: int, k: int) -> bool {
    exists|m2: Node|
        #[trigger] node_rotated(before, m2, rim_orientation(n, k)) && node_translated(
            m2,
            after,
            rim_translation(params, mean, inner, before, n, k),
        )
}

/// Each rim item of `after` is the matching item of `before`, placed.
pub open spec fn rim_placed_seq(params: LayoutParams, mean: int, inner: int, before: Seq<Node>,
    after: Seq<Node>) -> bool {
    &&& after.len() == before.len()
    &&& forall|i: int| 0 <= i < before.len() ==> rim_item_placed(
        params,
        mean,
        inner,
        #[trigger] before[i],
        after[i],
        before.len() as int,
        i,
    )
}

impl Circle {
    /// The outer-to-inner radius ratio for this stroke style.
    pub fn get_outer_radius_ratio(params: &LayoutParams, double: bool) -> (r: Ratio)
        requires
            params.wf(),
        ensures
            r == radius_ratio_of(*params, double),
            param_ratio_wf(r),
    {
        if double {
            params.double_stroke_radius_ratio
        } else {
            Ratio { num: 1, den: 1 }
        }
    }

    /// Scale the content up until the largest rim item is within the
    /// configured rim-to-content ratio: the pass re-measures after each
    /// truncating scale and escalates until the minimum content radius
    /// actually holds.
    #[verifier::loop_isolation(false)]
    pub fn apply_content_constraints(params: &LayoutParams, content: &mut Node,
        rim: &Vec<Node>) -> (r: Result<(), LayoutError>)
        requires
            params.wf(),
            node_wf(*old(content)),
            node_bounded(*old(content), COORD_MAX as int),
            forall|i: int| 0 <= i < rim@.len() ==> node_wf(#[trigger] rim@[i]),
            forall|i: int| 0 <= i < rim@.len() ==> node_bounded(#[trigger] rim@[i],
                COORD_MAX as int),
        ensures
            r is Ok ==> content_constrained(*params, *old(content), rim@, *final(content))
                && node_wf(*final(content)) && node_bounded(*final(content), COORD_MAX as int),
            r == Err::<(), LayoutError>(LayoutError::Degenerate) <==> node_radius(*old(content))
                == 0 && min_content_radius(*params, rim@) > 0,
            r == Err::<(), LayoutError>(LayoutError::TooLarge) ==> min_content_radius(
                *params,
                rim@,
            ) > RATIO_MAX - RAISE_FUEL || raise_blocked(
                min_content_radius(*params, rim@),
                *old(content),
            ),
    {
        let mut highest: i64 = 0;
        let mut i: usize = 0;
        while i < rim.len()
            invariant
                i <= rim@.len(),
                highest == nodes_radius_upto(rim@, i as int),
                0 <= highest <= 5 * COORD_MAX,
            decreases rim@.len() - i,
        {
            let rr = rim[i].outer_radius();
            if rr > highest {
                highest = rr;
            }
            i = i + 1;
        }
        proof {
            assert(0 <= (highest as int) * (params.circle_max_rim_ratio.den as int) <= 5 * (
            COORD_MAX as int) * (PARAM_RATIO_MAX as int) && 5 * (COORD_MAX as int) * (
            PARAM_RATIO_MAX as int) < i64::MAX) by (nonlinear_arith)
                requires
                    0 <= highest <= 5 * COORD_MAX,
                    1 <= params.circle_max_rim_ratio.den <= PARAM_RATIO_MAX,
            ;
            lemma_tdiv_nonneg(
                (highest as int) * (params.circle_max_rim_ratio.den as int),
                params.circle_max_rim_ratio.num as int,
            );
        }
        let min_c: i64 = mul_div(
            highest,
            params.circle_max_rim_ratio.den,
            params.circle_max_rim_ratio.num,
        );
        if min_c > RATIO_MAX - (RAISE_FUEL as i64) {
            let cr: i64 = content.outer_radius();
            if cr >= min_c {
                return Ok(());
            }
            if cr == 0 {
                return Err(LayoutError::Degenerate);
            }
            return Err(LayoutError::TooLarge);
        }
        raise_to_minimum(min_c, content)
    }

    /// Scale every rim item that falls below the configured minimum rim
    /// radius up to it: each pass re-measures after a truncating scale
    /// and escalates until the minimum actually holds.
    #[verifier::loop_isolation(false)]
    pub fn apply_rim_constraints(params: &LayoutParams, rim: &mut Vec<Node>, mean: i64) -> (r:
        Result<(), LayoutError>)
        requires
            params.wf(),
            0 <= mean <= COORD_MAX,
            forall|i: int| 0 <= i < old(rim)@.len() ==> node_wf(#[trigger] old(rim)@[i]),
            forall|i: int| 0 <= i < old(rim)@.len() ==> node_bounded(#[trigger] old(rim)@[i],
                COORD_MAX as int),
        ensures
            r is Ok ==> {
                &&& final(rim)@.len() == old(rim)@.len()
                &&& forall|i: int| 0 <= i < old(rim)@.len() ==> rim_constrained(
                    *params,
                    mean as int,
                    #[trigger] old(rim)@[i],
                    final(rim)@[i],
                )
                &&& forall|i: int| 0 <= i < final(rim)@.len() ==> node_wf(
                    #[trigger] final(rim)@[i],
                ) && node_bounded(final(rim)@[i], COORD_MAX as int)
            },
            r == Err::<(), LayoutError>(LayoutError::Degenerate) ==> exists|i: int|
                0 <= i < old(rim)@.len() && node_radius(#[trigger] old(rim)@[i]) == 0
                    < params.circle_min_rim_ratio.apply(mean as int),
            r == Err::<(), LayoutError>(LayoutError::TooLarge) ==> params.circle_min_rim_ratio.apply(
                mean as int,
            ) > RATIO_MAX - RAISE_FUEL || exists|i: int|
                0 <= i < old(rim)@.len() && raise_blocked(
                    params.circle_min_rim_ratio.apply(mean as int),
                    #[trigger] old(rim)@[i],
                ),
    {
        let min_rim: i64 = params.circle_min_rim_ratio.scale_val(mean);
        if min_rim > RATIO_MAX - (RAISE_FUEL as i64) {
            return Err(LayoutError::TooLarge);
        }
        let n: usize = rim.len();
        let mut i: usize = 0;
        while i < n
            invariant
                i <= n,
                n == old(rim)@.len(),
                rim@.len() == n,
                0 <= min_rim,
                min_rim + RAISE_FUEL <= RATIO_MAX,
                min_rim == params.circle_min_rim_ratio.apply(mean as int),
                forall|k: int| 0 <= k < i ==> rim_constrained(
                    *params,
                    mean as int,
                    #[trigger] old(rim)@[k],
                    rim@[k],
                ),
                forall|k: int| 0 <= k < i ==> node_wf(#[trigger] rim@[k]) && node_bounded(
                    rim@[k],
                    COORD_MAX as int,
                ),
                forall|k: int| i <= k < n ==> (#[trigger] rim@[k]) == old(rim)@[k],
            decreases n - i,
        {
            let ghost a0 = rim@[i as int];
            let e = &mut rim[i];
            match raise_to_minimum(min_rim, e) {
                Ok(()) => {},
                Err(err) => {
                    return Err(err);
                },
            }
            i = i + 1;
        }
        Ok(())
    }

    /// Place each rim item at its equally spaced angle around the anchor
    /// radius: it is rotated to face outward, then translated outward by
    /// the anchor radius plus whatever correction the overlap tolerance
    /// requires.  The translation components are pinned exactly by
    /// `rim_translation`; the realized Euclidean distance may round a few
    /// units below the anchor with the fixed-point directions, and the
    /// angular spacing is exact for counts dividing the angle scale and
    /// within one unit otherwise (`crate::laws`).
    #[verifier::loop_isolation(false)]
    pub fn position_rim_items(params: &LayoutParams, rim: &mut Vec<Node>, mean: i64,
        inner: i64)
        requires
            params.wf(),
            0 <= mean <= COORD_MAX,
            0 <= inner <= COORD_MAX,
            old(rim)@.len() <= 1000000,
            forall|i: int| 0 <= i < old(rim)@.len() ==> node_wf(#[trigger] old(rim)@[i]),
            forall|i: int| 0 <= i < old(rim)@.len() ==> node_bounded(#[trigger] old(rim)@[i],
                COORD_MAX as int),
        ensures
            rim_placed_seq(*params, mean as int, inner as int, old(rim)@, final(rim)@),
            forall|i: int| 0 <= i < final(rim)@.len() ==> node_wf(#[trigger] final(rim)@[i]),
    {
        let n: usize = rim.len();
        let mut i: usize = 0;
        while i < n
            invariant
                i <= n,
                n == old(rim)@.len(),
                rim@.len() == n,
                forall|k: int| 0 <= k < i ==> rim_item_placed(
                    *params,
                    mean as int,
                    inner as int,
                    #[trigger] old(rim)@[k],
                    rim@[k],
                    n as int,
                    k,
                ),
                forall|k: int| 0 <= k < i ==> node_wf(#[trigger] rim@[k]),
                forall|k: int| i <= k < n ==> (#[trigger] rim@[k]) == old(rim)@[k],
            decreases n - i,
        {
            proof {
                assert(0 <= (i as int) * (TURN as int) < (n as int) * (TURN as int) && (
                n as int) * (TURN as int) <= 1000000 * (TURN as int)) by (nonlinear_arith)
                    requires
                        0 <= i < n <= 1000000,
                ;
                lemma_tdiv_nonneg((i as int) * (TURN as int), n as int);
                lemma_tdiv_mag((i as int) * (TURN as int), n as int, TURN as int);
            }
            let orientation: i64 = ((i as i64) * TURN) / (n as i64);
            let angle: i64 = orientation + BASE_PLACEMENT_ROTATION;
            let inward: i64 = rim[i].outer_radius_at(angle - HALF_TURN);
            let max_overlap: i64 = params.circle_max_rim_overlap_ratio.scale_val(inner);
            proof {
                crate::bounding::lemma_apply_bound(
                    inner as int,
                    params.circle_max_rim_overlap_ratio,
                );
                lemma_apply_nonneg(inner as int, params.circle_max_rim_overlap_ratio);
            }
            let mut off: i64 = inward - max_overlap;
            if off < 0 {
                off = 0;
            }
            let dist: i64 = mean + off;
            let c: i64 = cos_fp(angle);
            let s: i64 = sin_fp(angle);
            proof {
                assert(iabs(dist as int * c) <= (dist as int) * (UNIT as int) && iabs(
                dist as int * s) <= (dist as int) * (UNIT as int) && (dist as int) * (
                UNIT as int) < i64::MAX) by (nonlinear_arith)
                    requires
                        -UNIT <= c <= UNIT,
                        -UNIT <= s <= UNIT,
                        0 <= dist <= 20_000_000_000i64,
                ;
                lemma_tdiv_mag(dist as int * c, UNIT as int, dist as int);
                lemma_tdiv_mag(dist as int * s, UNIT as int, dist as int);
            }
            let t = Vec2 { x: tdiv_exec(dist * c, UNIT), y: tdiv_exec(dist * s, UNIT) };
            let ghost a0 = rim@[i as int];
            proof {
                assert(t == rim_translation(
                    *params,
                    mean as int,
                    inner as int,
                    a0,
                    n as int,
                    i as int,
                ));
                lemma_node_bounded_mono(a0, COORD_MAX as int, ROT_MAX as int);
            }
            let e = &mut rim[i];
            e.rotate(orientation);
            let ghost m_mid = *e;
            proof {
                lemma_rotated_bounded(a0, m_mid, orientation as int, COORD_MAX as int,
                    TURN as int);
                lemma_node_bounded_mono(m_mid, 2 * COORD_MAX + TURN, TRANS_MAX as int);
            }
            e.translate(t);
            let ghost ri = rim@[i as int];
            proof {
                assert(a0 == old(rim)@[i as int]);
                assert(orientation as int == rim_orientation(n as int, i as int));
                assert(node_rotated(old(rim)@[i as int], m_mid, rim_orientation(
                    n as int,
                    i as int,
                )));
                assert(node_translated(m_mid, ri, rim_translation(
                    *params,
                    mean as int,
                    inner as int,
                    old(rim)@[i as int],
                    n as int,
                    i as int,
                )));
                assert(rim_item_placed(
                    *params,
                    mean as int,
                    inner as int,
                    old(rim)@[i as int],
                    ri,
                    n as int,
                    i as int,
                ));
                lemma_rotated_wf(a0, m_mid, orientation as int);
                lemma_translated_wf(m_mid, ri, t);
            }
            i = i + 1;
        }
    }
}


/// After the content constraint produced `mid`, one of the circle
/// pipeline's later stages genuinely failed with `e`: a radius left the
/// coordinate domain, a rim item could not reach the minimum rim radius,
/// a placed rim item left the domain, or the cosmetic shrink would.
pub open spec fn circle_stage_blocked(params: LayoutParams, double: bool, rim: Seq<Node>,
    mid: Node, e: LayoutError) -> bool {
    let innr = node_radius(mid);
    let outr = radius_ratio_of(params, double).apply(innr);
    let meanv = tdiv(innr + outr, 2);
    let min_rim = params.circle_min_rim_ratio.apply(meanv);
    ||| (e == LayoutError::TooLarge && innr > COORD_MAX)
    ||| (e == LayoutError::TooLarge && outr > COORD_MAX)
    ||| (e == LayoutError::Degenerate && exists|i: int|
        0 <= i < rim.len() && node_radius(#[trigger] rim[i]) == 0 < min_rim)
    ||| (e == LayoutError::TooLarge && min_rim > RATIO_MAX - RAISE_FUEL)
    ||| (e == LayoutError::TooLarge && exists|i: int|
        0 <= i < rim.len() && raise_blocked(min_rim, #[trigger] rim[i]))
    ||| (e == LayoutError::TooLarge && exists|rims_c: Seq<Node>, rims_p: Seq<Node>|
        {
            &&& rims_c.len() == rim.len()
            &&& (forall|i: int| 0 <= i < rim.len() ==> rim_constrained(
                params,
                meanv,
                rim[i],
                #[trigger] rims_c[i],
            ))
            &&& rim_placed_seq(params, meanv, innr, rims_c, rims_p)
            &&& exists|i: int| 0 <= i < rims_p.len() && !node_bounded(
                #[trigger] rims_p[i],
                COORD_MAX as int,
            )
        })
    ||| (e == LayoutError::TooLarge && !scaled_in_domain(mid, params.circle_content_scale))
}

/// The exact outcome a circle node owes for its constructed content and
/// rim items.
pub open spec fn circle_built(params: LayoutParams, stroke: visual::StrokePattern,
    pattern: visual::CirclePattern, double: bool, rim: Seq<Node>, content: Node,
    c: Circle) -> bool {
    &&& c.stroke == stroke
    &&& c.pattern == pattern
    &&& c.double == double
    &&& c.boundary.offset == (Vec2 { x: 0i64, y: 0i64 })
    &&& exists|mid: Node|
        {
            let innr = node_radius(mid);
            let outr = radius_ratio_of(params, double).apply(innr);
            let meanv = tdiv(innr + outr, 2);
            &&& #[trigger] content_constrained(params, content, rim, mid)
            &&& c.boundary.radius == outr
            &&& node_scaled(mid, *c.content, params.circle_content_scale)
            &&& exists|rims_c: Seq<Node>|
                {
                    &&& rims_c.len() == rim.len()
                    &&& (forall|i: int| 0 <= i < rim.len() ==> rim_constrained(
                        params,
                        meanv,
                        rim[i],
                        #[trigger] rims_c[i],
                    ))
                    &&& rim_placed_seq(params, meanv, innr, rims_c, c.rim@)
                }
        }
    &&& node_wf(Node::Circle(c))
    &&& node_bounded(Node::Circle(c), COORD_MAX as int)
    &&& rim.len() == 0 ==> c.boundary.radius == radius_ratio_of(params, double).apply(
        node_radius(content),
    ) && c.rim@.len() == 0
}

/// A circle construction genuinely fails with `e`: the content is
/// degenerate, the content constraint leaves the domain, or a later
/// stage does.
pub open spec fn circle_blocked(params: LayoutParams, double: bool, rim: Seq<Node>,
    content: Node, e: LayoutError) -> bool {
    ||| (e == LayoutError::Degenerate && node_radius(content) == 0 && min_content_radius(
        params,
        rim,
    ) > 0)
    ||| (e == LayoutError::TooLarge && (min_content_radius(params, rim) > RATIO_MAX
        - RAISE_FUEL || raise_blocked(min_content_radius(params, rim), content)))
    ||| (exists|mid: Node|
        #[trigger] content_constrained(params, content, rim, mid) && node_wf(mid)
            && circle_stage_blocked(params, double, rim, mid, e))
}

impl Circle {
    /// Lay out a circle from its constructed content and rim items:
    /// the content is scaled up until the largest rim item fits the
    /// configured ratio, the inner circle wraps it, the outer radius is
    /// the inner scaled by the stroke ratio, undersized rim items are
    /// raised to the minimum rim radius and all are placed around the
    /// mean anchor radius, and the content finally shrinks by the
    /// cosmetic content scale, which feeds back into no sizing decision.
    pub fn construct(params: &LayoutParams, stroke: visual::StrokePattern,
        pattern: visual::CirclePattern, double: bool, rim: Vec<Node>, content: Node) -> (r:
        Result<Circle, LayoutError>)
        requires
            params.wf(),
            node_wf(content),
            node_bounded(content, COORD_MAX as int),
            rim@.len() <= 1000000,
            forall|i: int| 0 <= i < rim@.len() ==> node_wf(#[trigger] rim@[i]),
            forall|i: int| 0 <= i < rim@.len() ==> node_bounded(#[trigger] rim@[i],
                COORD_MAX as int),
        ensures
            r matches Ok(c) ==> circle_built(*params, stroke, pattern, double, rim@, content, c),
            r matches Err(e) ==> circle_blocked(*params, double, rim@, content, e),
    {
        let mut content = content;
        let ghost content0 = content;
        match Self::apply_content_constraints(params, &mut content, &rim) {
            Err(e) => {
                return Err(e);
            },
            Ok(()) => {},
        }
        let inner: i64 = content.outer_radius();
        let ghost mid0 = content;
        if inner > COORD_MAX {
            return Err(LayoutError::TooLarge);
        }
        let ratio = Self::get_outer_radius_ratio(params, double);
        let outer: i64 = ratio.scale_val(inner);
        proof {
            lemma_apply_nonneg(inner as int, ratio);
        }
        if outer > COORD_MAX {
            return Err(LayoutError::TooLarge);
        }
        let mean: i64 = (inner + outer) / 2;
        proof {
            lemma_tdiv_nonneg((inner + outer) as int, 2);
        }
        let mut rim = rim;
        let ghost rim0 = rim@;
        match Self::apply_rim_constraints(params, &mut rim, mean) {
            Err(e) => {
                return Err(e);
            },
            Ok(()) => {},
        }
        let ghost rims_c = rim@;
        Self::position_rim_items(params, &mut rim, mean, inner);
        let rim_ok = nodes_in_domain(&rim);
        proof {
            if !rim_ok {
                assert(circle_stage_blocked(*params, double, rim0, mid0,
                    LayoutError::TooLarge)) by {
                    let ghost rims_p = rim@;
                    assert(rims_c.len() == rim0.len() && (forall|i: int|
                        0 <= i < rim0.len() ==> rim_constrained(
                            *params,
                            mean as int,
                            rim0[i],
                            #[trigger] rims_c[i],
                        )) && rim_placed_seq(*params, mean as int, inner as int, rims_c, rims_p)
                        && exists|i: int| 0 <= i < rims_p.len() && !node_bounded(
                        #[trigger] rims_p[i],
                        COORD_MAX as int,
                    ));
                }
            }
        }
        if !rim_ok {
            return Err(LayoutError::TooLarge);
        }
        let ghost mid = content;
        content.scale(params.circle_content_scale);
        proof {
            lemma_scaled_in_domain(mid, content, params.circle_content_scale);
        }
        if !content.check_bounded() {
            return Err(LayoutError::TooLarge);
        }
        proof {
            lemma_scaled_wf(mid, content, params.circle_content_scale);
        }
        let boundary = BCircle::from_radius(outer);
        let result = Circle {
            stroke,
            pattern,
            double,
            boundary,
            rim,
            content: Box::new(content),
        };
        proof {
            if rim0.len() == 0 {
                assert(nodes_radius_upto(rim0, 0) == 0);
                assert(nodes_radius_upto(rim0, 0) * params.circle_max_rim_ratio.den == 0) by (
                nonlinear_arith)
                    requires
                        nodes_radius_upto(rim0, 0) == 0,
                ;
                assert(min_content_radius(*params, rim0) == 0) by {
                    vstd::arithmetic::div_mod::lemma_div_of0(
                        params.circle_max_rim_ratio.num as int,
                    );
                }
                lemma_node_radius_nonneg(content0);
                assert(mid == content0);
            }
        }
        Ok(result)
    }
}

/// The anchor radius of a link ring: for a single item zero, otherwise
/// the radius at which two largest items would just touch, so adjacent
/// chords span twice the largest item radius.
pub open spec fn link_anchor_radius(items: Seq<Node>, n: int) -> int {
    if n <= 1 {
        0
    } else {
        cdiv(
            nodes_radius_upto(items, n) * (UNIT as int),
            sin_units(tdiv(HALF_TURN as int, n)),
        )
    }
}

/// The placement angle of link item `i` of `n`.
pub open spec fn link_angle(n: int, i: int) -> int {
    BASE_PLACEMENT_ROTATION + tdiv((n - 1) * (HALF_TURN as int), n) + tdiv(i * (TURN as int), n)
}

/// The position of link item `i` of `n` on the ring of the given
/// radius.
pub open spec fn link_pos(radius: int, n: int, i: int) -> Vec2 {
    Vec2 {
        x: tdiv(radius * cos_units(link_angle(n, i)), UNIT as int) as i64,
        y: tdiv(radius * sin_units(link_angle(n, i)), UNIT as int) as i64,
    }
}

/// The exact outcome a link owes for its constructed items: each sits
/// at its ring position and consecutive positions are chained.
pub open spec fn link_built(params: LayoutParams, stroke: visual::StrokePattern,
    items: Seq<Node>, l: Link) -> bool {
    let n = items.len() as int;
    let rad = link_anchor_radius(items, n);
    &&& l.stroke == stroke
    &&& l.items@.len() == items.len()
    &&& (forall|i: int| 0 <= i < items.len() ==> node_translated(
        #[trigger] items[i],
        l.items@[i],
        link_pos(rad, n, i),
    ))
    &&& l.segments@.len() == items.len() - 1
    &&& (forall|i: int| 0 <= i < l.segments@.len() ==> (#[trigger] l.segments@[i]) == (BLine {
        start: link_pos(rad, n, i),
        end: link_pos(rad, n, i + 1),
    }))
    &&& node_wf(Node::Link(l))
    &&& node_bounded(Node::Link(l), COORD_MAX as int)
}

/// A link construction genuinely fails with `TooLarge`.
pub open spec fn link_blocked(params: LayoutParams, items: Seq<Node>) -> bool {
    let n = items.len() as int;
    ||| items.len() > MAX_SIDES
    ||| link_anchor_radius(items, n) > COORD_MAX
    ||| exists|i: int|
        0 <= i < items.len() && !translated_in_domain(
            #[trigger] items[i],
            link_pos(link_anchor_radius(items, n), n, i),
        )
}

/// A ring position on a radius from the layout coordinate domain stays
/// in the domain.
proof fn lemma_link_pos_bounded(radius: i64, n: int, i: int)
    requires
        0 <= radius <= COORD_MAX,
    ensures
        link_pos(radius as int, n, i).bounded(COORD_MAX as int),
        link_pos(radius as int, n, i).bounded(TRANS_MAX as int),
{
    let la: int = link_angle(n, i);
    crate::angle::lemma_sin_units_range(la);
    crate::angle::lemma_cos_units_range(la);
    assert(iabs(radius as int * cos_units(la)) <= (COORD_MAX as int) * (UNIT as int) && iabs(
    radius as int * sin_units(la)) <= (COORD_MAX as int) * (UNIT as int)) by (nonlinear_arith)
        requires
            -UNIT <= cos_units(la) <= UNIT,
            -UNIT <= sin_units(la) <= UNIT,
            0 <= radius <= COORD_MAX,
    ;
    lemma_tdiv_mag(radius as int * cos_units(la), UNIT as int, COORD_MAX as int);
    lemma_tdiv_mag(radius as int * sin_units(la), UNIT as int, COORD_MAX as int);
}

impl Link {
    /// Lay out a chain: each item sits at an equally spaced angle around
    /// a notional ring, spaced a full turn over the item count from a
    /// fixed base offset, and consecutive items are joined by segments
    /// between their ring positions.  Items are translated to their
    /// positions without rotation; the ring radius is chosen so that
    /// adjacent chords span twice the largest item radius.
    #[verifier::loop_isolation(false)]
    pub fn construct(params: &LayoutParams, stroke: visual::StrokePattern, items: Vec<Node>)
        -> (r: Result<Link, LayoutError>)
        requires
            params.wf(),
            forall|i: int| 0 <= i < items@.len() ==> node_wf(#[trigger] items@[i]),
            forall|i: int| 0 <= i < items@.len() ==> node_bounded(#[trigger] items@[i],
                COORD_MAX as int),
        ensures
            r matches Ok(l) ==> link_built(*params, stroke, items@, l),
            r == Err::<Link, LayoutError>(LayoutError::Degenerate) <==> items@.len() == 0,
            r == Err::<Link, LayoutError>(LayoutError::TooLarge) ==> link_blocked(
                *params,
                items@,
            ),
    {
        let n: usize = items.len();
        if n == 0 {
            return Err(LayoutError::Degenerate);
        }
        if n > MAX_SIDES {
            return Err(LayoutError::TooLarge);
        }
        let mut radius: i64 = 0;
        if n >= 2 {
            let mut max_r: i64 = 0;
            let mut i: usize = 0;
            while i < n
                invariant
                    i <= n,
                    n == items@.len(),
                    max_r == nodes_radius_upto(items@, i as int),
                    0 <= max_r <= 5 * COORD_MAX,
                decreases n - i,
            {
                let rr = items[i].outer_radius();
                if rr > max_r {
                    max_r = rr;
                }
                i = i + 1;
            }
            let half: i64 = HALF_TURN / (n as i64);
            proof {
                vstd::arithmetic::div_mod::lemma_div_is_ordered_by_denominator(
                    HALF_TURN as int,
                    2,
                    n as int,
                );
                vstd::arithmetic::div_mod::lemma_div_is_ordered_by_denominator(
                    HALF_TURN as int,
                    n as int,
                    HALF_TURN as int,
                );
                lemma_tdiv_nonneg(HALF_TURN as int, n as int);
                crate::angle::lemma_norm_angle_bounds(half as int);
                vstd::arithmetic::div_mod::lemma_small_mod(half as nat, TURN as nat);
                crate::angle::lemma_sin_poly_pos(half as int);
                crate::angle::lemma_sin_units_range(half as int);
            }
            let sv: i64 = crate::angle::sin_fp(half);
            proof {
                assert(0 <= (max_r as int) * (UNIT as int) <= 5 * (COORD_MAX as int) * (
                UNIT as int) && 5 * (COORD_MAX as int) * (UNIT as int) < i64::MAX) by (
                nonlinear_arith)
                    requires
                        0 <= max_r <= 5 * COORD_MAX,
                ;
            }
            radius = crate::num::cdiv_exec(max_r * UNIT, sv);
            proof {
                assert(radius as int == link_anchor_radius(items@, n as int));
            }
            if radius > COORD_MAX {
                return Err(LayoutError::TooLarge);
            }
        }
        proof {
            assert(radius as int == link_anchor_radius(items@, n as int));
        }
        let start_off: i64 = (((n as i64) - 1) * HALF_TURN) / (n as i64);
        proof {
            assert(0 <= ((n as int) - 1) * (HALF_TURN as int) < (n as int) * (HALF_TURN as int)
                && (n as int) * (HALF_TURN as int) <= (MAX_SIDES as int) * (HALF_TURN as int)) by (
            nonlinear_arith)
                requires
                    1 <= n <= MAX_SIDES,
            ;
            lemma_tdiv_nonneg(((n as int) - 1) * (HALF_TURN as int), n as int);
            lemma_tdiv_mag(((n as int) - 1) * (HALF_TURN as int), n as int, HALF_TURN as int);
        }
        let mut items = items;
        let ghost items0 = items@;
        let mut pos: Vec<Vec2> = Vec::new();
        let mut i: usize = 0;
        while i < n
            invariant
                i <= n,
                n == items0.len(),
                items@.len() == n,
                0 <= radius <= COORD_MAX,
                radius as int == link_anchor_radius(items0, n as int),
                1 <= n <= MAX_SIDES,
                start_off == tdiv(((n as int) - 1) * (HALF_TURN as int), n as int),
                0 <= start_off <= HALF_TURN,
                pos@.len() == i,
                forall|k: int| 0 <= k < i ==> (#[trigger] pos@[k]) == link_pos(
                    radius as int,
                    n as int,
                    k,
                ),
                forall|k: int| 0 <= k < i ==> (#[trigger] pos@[k]).bounded(COORD_MAX as int),
                forall|k: int| 0 <= k < i ==> node_translated(
                    #[trigger] items0[k],
                    items@[k],
                    link_pos(radius as int, n as int, k),
                ),
                forall|k: int| 0 <= k < i ==> node_wf(#[trigger] items@[k]),
                forall|k: int| i <= k < n ==> (#[trigger] items@[k]) == items0[k],
            decreases n - i,
        {
            proof {
                assert(0 <= (i as int) * (TURN as int) < (n as int) * (TURN as int) && (
                n as int) * (TURN as int) <= (MAX_SIDES as int) * (TURN as int)) by (
                nonlinear_arith)
                    requires
                        0 <= i < n <= MAX_SIDES,
                ;
                lemma_tdiv_nonneg((i as int) * (TURN as int), n as int);
                lemma_tdiv_mag((i as int) * (TURN as int), n as int, TURN as int);
            }
            let step: i64 = ((i as i64) * TURN) / (n as i64);
            let ang: i64 = BASE_PLACEMENT_ROTATION + start_off + step;
            let c: i64 = cos_fp(ang);
            let s: i64 = sin_fp(ang);
            proof {
                assert(iabs(radius as int * c) <= (COORD_MAX as int) * (UNIT as int) && iabs(
                radius as int * s) <= (COORD_MAX as int) * (UNIT as int) && (COORD_MAX as int)
                    * (UNIT as int) < i64::MAX) by (nonlinear_arith)
                    requires
                        -UNIT <= c <= UNIT,
                        -UNIT <= s <= UNIT,
                        0 <= radius <= COORD_MAX,
                ;
                lemma_tdiv_mag(radius as int * c, UNIT as int, COORD_MAX as int);
                lemma_tdiv_mag(radius as int * s, UNIT as int, COORD_MAX as int);
            }
            let p = Vec2 { x: tdiv_exec(radius * c, UNIT), y: tdiv_exec(radius * s, UNIT) };
            proof {
                assert(ang as int == link_angle(n as int, i as int));
                assert(p == link_pos(radius as int, n as int, i as int));
            }
            pos.push(p);
            let ghost a0 = items@[i as int];
            proof {
                lemma_node_bounded_mono(a0, COORD_MAX as int, TRANS_MAX as int);
            }
            let e = &mut items[i];
            e.translate(p);
            let ghost ti = items@[i as int];
            proof {
                assert(node_translated(items0[i as int], ti, link_pos(
                    radius as int,
                    n as int,
                    i as int,
                )));
                lemma_translated_wf(a0, ti, p);
            }
            i = i + 1;
        }
        let in_domain = nodes_in_domain(&items);
        proof {
            if !in_domain {
                let bad = choose|i: int|
                    0 <= i < items@.len() && !node_bounded(
                        #[trigger] items@[i],
                        COORD_MAX as int,
                    );
                let p = link_pos(radius as int, n as int, bad);
                lemma_link_pos_bounded(radius, n as int, bad);
                lemma_node_bounded_mono(items0[bad], COORD_MAX as int, 4 * COORD_MAX);
                lemma_translated_in_domain(items0[bad], items@[bad], p);
            }
        }
        if !in_domain {
            return Err(LayoutError::TooLarge);
        }
        let mut segments: Vec<BLine> = Vec::new();
        let mut j: usize = 0;
        while j + 1 < n
            invariant
                n == items0.len(),
                j <= n - 1 || j == 0,
                j + 1 <= n,
                pos@.len() == n,
                forall|k: int| 0 <= k < n ==> (#[trigger] pos@[k]) == link_pos(
                    radius as int,
                    n as int,
                    k,
                ),
                forall|k: int| 0 <= k < n ==> (#[trigger] pos@[k]).bounded(COORD_MAX as int),
                segments@.len() == j,
                forall|k: int| 0 <= k < j ==> (#[trigger] segments@[k]) == (BLine {
                    start: pos@[k],
                    end: pos@[k + 1],
                }),
            decreases n - 1 - j,
        {
            segments.push(BLine { start: pos[j], end: pos[j + 1] });
            j = j + 1;
        }
        Ok(Link { stroke, segments, items })
    }
}

/// The driver's exact outcome relation: `r` is what laying out `fig`
/// owes.  An `Ok` ties the node, kind by kind, to the per-kind
/// combinators' results for recursively built children; an `Err` is
/// only allowed where a child fails or a stage's own failure condition
/// genuinely holds, so success is owed on every figure that stays in
/// the layout coordinate domain.
pub open spec fn built_from(params: LayoutParams, fig: visual::Figure, r: Result<
    Node,
    LayoutError,
>) -> bool
    decreases fig,
{
    match fig {
        visual::Figure::Symbol(s) => match r {
            Ok(n) => n matches Node::Symbol(x) && x.name@ == s.name@ && x.boundary@ == s.lines@
                && text_lines_wf(s.lines@) && text_lines_in_domain(s.lines@),
            Err(e) => !(text_lines_wf(s.lines@) && text_lines_in_domain(s.lines@)) && (e
                == LayoutError::Degenerate <==> !text_lines_wf(s.lines@)),
        },
        visual::Figure::Phrase(p) => match r {
            Ok(n) => n matches Node::Phrase(x) && x.text@ == p.text@ && x.boundary@ == p.lines@
                && text_lines_wf(p.lines@) && text_lines_in_domain(p.lines@),
            Err(e) => !(text_lines_wf(p.lines@) && text_lines_in_domain(p.lines@)) && (e
                == LayoutError::Degenerate <==> !text_lines_wf(p.lines@)),
        },
        visual::Figure::Pentagram(p) => match r {
            Ok(n) => n matches Node::Pentagram(x) && exists|child: Node|
                #![trigger pentagram_built(params, child, x)]
                built_from(params, *p.content, Ok(child)) && pentagram_built(params, child, x),
            Err(e) => built_from(params, *p.content, Err(e)) || (e == LayoutError::TooLarge
                && exists|child: Node|
                #![trigger pentagram_fits(params, child)]
                built_from(params, *p.content, Ok(child)) && !pentagram_fits(params, child)),
        },
        visual::Figure::Circle(c) => match r {
            Ok(n) => n matches Node::Circle(x) && exists|content_n: Node, rim_ns: Seq<Node>|
                #![trigger circle_built(params, c.stroke, c.pattern, c.double, rim_ns, content_n, x)]
                {
                    &&& built_from(params, *c.content, Ok(content_n))
                    &&& rim_ns.len() == c.rim@.len() <= 1000000
                    &&& (forall|i: int| 0 <= i < c.rim@.len() ==> built_from(
                        params,
                        c.rim@[i],
                        Ok(#[trigger] rim_ns[i]),
                    ))
                    &&& circle_built(
                        params,
                        c.stroke,
                        c.pattern,
                        c.double,
                        rim_ns,
                        content_n,
                        x,
                    )
                },
            Err(e) => {
                ||| built_from(params, *c.content, Err(e))
                ||| (exists|i: int| 0 <= i < c.rim@.len() && built_from(
                    params,
                    #[trigger] c.rim@[i],
                    Err(e),
                ))
                ||| (e == LayoutError::TooLarge && c.rim@.len() > 1000000)
                ||| (exists|content_n: Node, rim_ns: Seq<Node>|
                    #![trigger circle_blocked(params, c.double, rim_ns, content_n, e)]
                    {
                        &&& built_from(params, *c.content, Ok(content_n))
                        &&& rim_ns.len() == c.rim@.len()
                        &&& (forall|i: int| 0 <= i < c.rim@.len() ==> built_from(
                            params,
                            c.rim@[i],
                            Ok(#[trigger] rim_ns[i]),
                        ))
                        &&& circle_blocked(params, c.double, rim_ns, content_n, e)
                    })
            },
        },
        visual::Figure::RegularPolygon(p) => match r {
            Ok(n) => n matches Node::RegularPolygon(x) && exists|child: Node|
                #![trigger rp_built(params, p.sides, p.stroke, child, x)]
                built_from(params, *p.content, Ok(child)) && rp_built(
                    params,
                    p.sides,
                    p.stroke,
                    child,
                    x,
                ),
            Err(e) => built_from(params, *p.content, Err(e)) || exists|child: Node|
                #![trigger rp_fits(params, p.sides, child)]
                built_from(params, *p.content, Ok(child)) && !rp_fits(params, p.sides, child)
                    && (e == LayoutError::Degenerate <==> (p.sides < 3 || p.sides > MAX_SIDES)),
        },
        visual::Figure::Decorated(d) => match r {
            Ok(n) => n matches Node::Decorated(x) && exists|child: Node|
                #![trigger decorated_built(params, d.kind, child, x)]
                built_from(params, *d.content, Ok(child)) && decorated_built(
                    params,
                    d.kind,
                    child,
                    x,
                ),
            Err(e) => built_from(params, *d.content, Err(e)) || (e == LayoutError::TooLarge
                && exists|child: Node|
                #![trigger decorated_fits(params, d.kind, child)]
                built_from(params, *d.content, Ok(child)) && !decorated_fits(
                    params,
                    d.kind,
                    child,
                )),
        },
        visual::Figure::Emphasized(em) => match r {
            Ok(n) => n matches Node::Emphasized(x) && exists|child: Node|
                #![trigger emphasized_built(params, em.kind, child, x)]
                built_from(params, *em.content, Ok(child)) && emphasized_built(
                    params,
                    em.kind,
                    child,
                    x,
                ),
            Err(e) => built_from(params, *em.content, Err(e)) || (e == LayoutError::TooLarge
                && exists|child: Node|
                #![trigger emphasized_fits(params, em.kind, child)]
                built_from(params, *em.content, Ok(child)) && !emphasized_fits(
                    params,
                    em.kind,
                    child,
                )),
        },
        visual::Figure::Link(l) => match r {
            Ok(n) => n matches Node::Link(x) && exists|item_ns: Seq<Node>|
                #![trigger link_built(params, l.stroke, item_ns, x)]
                {
                    &&& item_ns.len() == l.items@.len()
                    &&& (forall|i: int| 0 <= i < l.items@.len() ==> built_from(
                        params,
                        l.items@[i],
                        Ok(#[trigger] item_ns[i]),
                    ))
                    &&& link_built(params, l.stroke, item_ns, x)
                },
            Err(e) => {
                ||| (exists|i: int| 0 <= i < l.items@.len() && built_from(
                    params,
                    #[trigger] l.items@[i],
                    Err(e),
                ))
                ||| (e == LayoutError::Degenerate && l.items@.len() == 0)
                ||| (e == LayoutError::TooLarge && exists|item_ns: Seq<Node>|
                    #![trigger link_blocked(params, item_ns)]
                    {
                        &&& item_ns.len() == l.items@.len()
                        &&& (forall|i: int| 0 <= i < l.items@.len() ==> built_from(
                            params,
                            l.items@[i],
                            Ok(#[trigger] item_ns[i]),
                        ))
                        &&& link_blocked(params, item_ns)
                    })
            },
        },
        visual::Figure::Arrangement(fs) => match r {
            Ok(n) => n matches Node::Arrangement(ns) && ns@.len() == fs@.len() && fs@.len() >= 1
                && forall|i: int| 0 <= i < fs@.len() ==> built_from(
                params,
                #[trigger] fs@[i],
                Ok(ns@[i]),
            ),
            Err(e) => (exists|i: int| 0 <= i < fs@.len() && built_from(
                params,
                #[trigger] fs@[i],
                Err(e),
            )) || (e == LayoutError::Degenerate && fs@.len() == 0),
        },
    }
}

/// A fresh copy of a measured rectangle list.
#[verifier::loop_isolation(false)]
fn copy_rects(rs: &Vec<BRect>) -> (r: Vec<BRect>)
    ensures
        r@ == rs@,
{
    let mut out: Vec<BRect> = Vec::new();
    let mut i: usize = 0;
    while i < rs.len()
        invariant
            i <= rs@.len(),
            out@.len() == i,
            forall|k: int| 0 <= k < i ==> (#[trigger] out@[k]) == rs@[k],
        decreases rs@.len() - i,
    {
        out.push(rs[i]);
        i = i + 1;
    }
    proof {
        assert(out@ =~= rs@);
    }
    out
}

/// Construct the layout nodes of a list of figures, in order.
#[verifier::loop_isolation(false)]
fn construct_figures(params: &LayoutParams, figs: &Vec<visual::Figure>) -> (r: Result<
    Vec<Node>,
    LayoutError,
>)
    requires
        params.wf(),
    ensures
        r matches Ok(v) ==> {
            &&& v@.len() == figs@.len()
            &&& forall|i: int| 0 <= i < v@.len() ==> node_wf(#[trigger] v@[i]) && node_bounded(
                v@[i],
                COORD_MAX as int,
            )
            &&& forall|i: int| 0 <= i < figs@.len() ==> built_from(
                *params,
                #[trigger] figs@[i],
                Ok(v@[i]),
            )
        },
        r matches Err(e) ==> exists|i: int|
            0 <= i < figs@.len() && built_from(*params, #[trigger] figs@[i], Err(e)),
    decreases figs@, 0int,
{
    let mut out: Vec<Node> = Vec::new();
    let mut i: usize = 0;
    while i < figs.len()
        invariant
            i <= figs@.len(),
            out@.len() == i,
            forall|k: int| 0 <= k < i ==> node_wf(#[trigger] out@[k]) && node_bounded(
                out@[k],
                COORD_MAX as int,
            ),
            forall|k: int| 0 <= k < i ==> built_from(*params, #[trigger] figs@[k], Ok(out@[k])),
        decreases figs@.len() - i,
    {
        match Node::construct(params, &figs[i]) {
            Ok(n) => {
                out.push(n);
            },
            Err(e) => {
                return Err(e);
            },
        }
        i = i + 1;
    }
    Ok(out)
}

impl Node {
    /// Construct the positioned layout tree of a figure: a single
    /// recursive descent, building every node bottom-up through the
    /// per-kind combinators.
    #[verifier::rlimit(100)]
    #[verifier::spinoff_prover]
    pub fn construct(params: &LayoutParams, figure: &visual::Figure) -> (r: Result<
        Node,
        LayoutError,
    >)
        requires
            params.wf(),
        ensures
            r matches Ok(n) ==> node_wf(n) && node_bounded(n, COORD_MAX as int),
            built_from(*params, *figure, r),
        decreases *figure, 1int,
    {
        match figure {
            visual::Figure::Symbol(s) => {
                let sym = visual::Symbol { name: s.name.clone(), lines: copy_rects(&s.lines) };
                proof {
                    assert(sym.name@ == s.name@ && sym.lines@ == s.lines@);
                }
                match Symbol::construct(sym) {
                    Ok(x) => Ok(Node::Symbol(x)),
                    Err(e) => Err(e),
                }
            },
            visual::Figure::Phrase(p) => {
                let ph = visual::Phrase { text: p.text.clone(), lines: copy_rects(&p.lines) };
                proof {
                    assert(ph.text@ == p.text@ && ph.lines@ == p.lines@);
                }
                match Phrase::construct(ph) {
                    Ok(x) => Ok(Node::Phrase(x)),
                    Err(e) => Err(e),
                }
            },
            visual::Figure::Pentagram(p) => {
                let child = match Node::construct(params, &*p.content) {
                    Ok(c) => c,
                    Err(e) => {
                        return Err(e);
                    },
                };
                let ghost child0 = child;
                match Pentagram::construct(params, child) {
                    Ok(x) => {
                        proof {
                            assert(built_from(*params, *p.content, Ok(child0)));
                            assert(pentagram_built(*params, child0, x));
                        }
                        Ok(Node::Pentagram(x))
                    },
                    Err(e) => {
                        proof {
                            assert(built_from(*params, *p.content, Ok(child0)));
                            assert(e == LayoutError::TooLarge);
                            assert(!pentagram_fits(*params, child0));
                        }
                        Err(e)
                    },
                }
            },
            visual::Figure::Circle(c) => {
                let content = match Node::construct(params, &*c.content) {
                    Ok(x) => x,
                    Err(e) => {
                        return Err(e);
                    },
                };
                let rim = match construct_figures(params, &c.rim) {
                    Ok(v) => v,
                    Err(e) => {
                        return Err(e);
                    },
                };
                let ghost content0 = content;
                let ghost rim0 = rim@;
                if rim.len() > 1000000 {
                    return Err(LayoutError::TooLarge);
                }
                match Circle::construct(params, c.stroke, c.pattern, c.double, rim, content) {
                    Ok(x) => {
                        proof {
                            assert(built_from(*params, *c.content, Ok(content0)));
                            assert(circle_built(
                                *params,
                                c.stroke,
                                c.pattern,
                                c.double,
                                rim0,
                                content0,
                                x,
                            ));
                        }
                        Ok(Node::Circle(x))
                    },
                    Err(e) => {
                        proof {
                            assert(built_from(*params, *c.content, Ok(content0)));
                            assert(circle_blocked(*params, c.double, rim0, content0, e));
                        }
                        Err(e)
                    },
                }
            },
            visual::Figure::RegularPolygon(p) => {
                let child = match Node::construct(params, &*p.content) {
                    Ok(c) => c,
                    Err(e) => {
                        return Err(e);
                    },
                };
                let ghost child0 = child;
                match RegularPolygon::construct(params, p.sides, p.stroke, child) {
                    Ok(x) => {
                        proof {
                            assert(built_from(*params, *p.content, Ok(child0)));
                            assert(rp_built(*params, p.sides, p.stroke, child0, x));
                        }
                        Ok(Node::RegularPolygon(x))
                    },
                    Err(e) => {
                        proof {
                            assert(built_from(*params, *p.content, Ok(child0)));
                            assert(!rp_fits(*params, p.sides, child0));
                        }
                        Err(e)
                    },
                }
            },
            visual::Figure::Decorated(d) => {
                let child = match Node::construct(params, &*d.content) {
                    Ok(c) => c,
                    Err(e) => {
                        return Err(e);
                    },
                };
                let ghost child0 = child;
                match Decorated::construct(params, d.kind, child) {
                    Ok(x) => {
                        proof {
                            assert(built_from(*params, *d.content, Ok(child0)));
                            assert(decorated_built(*params, d.kind, child0, x));
                        }
                        Ok(Node::Decorated(x))
                    },
                    Err(e) => {
                        proof {
                            assert(built_from(*params, *d.content, Ok(child0)));
                            assert(e == LayoutError::TooLarge);
                            assert(!decorated_fits(*params, d.kind, child0));
                        }
                        Err(e)
                    },
                }
            },
            visual::Figure::Emphasized(em) => {
                let child = match Node::construct(params, &*em.content) {
                    Ok(c) => c,
                    Err(e) => {
                        return Err(e);
                    },
                };
                let ghost child0 = child;
                match Emphasized::construct(params, em.kind, child) {
                    Ok(x) => {
                        proof {
                            assert(built_from(*params, *em.content, Ok(child0)));
                            assert(emphasized_built(*params, em.kind, child0, x));
                        }
                        Ok(Node::Emphasized(x))
                    },
                    Err(e) => {
                        proof {
                            assert(built_from(*params, *em.content, Ok(child0)));
                            assert(e == LayoutError::TooLarge);
                            assert(!emphasized_fits(*params, em.kind, child0));
                        }
                        Err(e)
                    },
                }
            },
            visual::Figure::Link(l) => {
                let items = match construct_figures(params, &l.items) {
                    Ok(v) => v,
                    Err(e) => {
                        return Err(e);
                    },
                };
                let ghost items0 = items@;
                match Link::construct(params, l.stroke, items) {
                    Ok(x) => {
                        proof {
                            assert(link_built(*params, l.stroke, items0, x));
                        }
                        Ok(Node::Link(x))
                    },
                    Err(e) => Err(e),
                }
            },
            visual::Figure::Arrangement(fs) => {
                let ns = match construct_figures(params, fs) {
                    Ok(v) => v,
                    Err(e) => {
                        return Err(e);
                    },
                };
                if ns.len() == 0 {
                    return Err(LayoutError::Degenerate);
                }
                Ok(Node::Arrangement(ns))
            },
        }
    }
}

} // verus!
