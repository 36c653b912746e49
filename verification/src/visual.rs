//! The abstract figure tree that the layout engine consumes.
//!
//! A figure says what should be drawn — circles with rim items, stars,
//! decorated or emphasized children, linked chains, free arrangements —
//! but carries no geometry of its own except the measured line extents of
//! its text leaves, which the text-metrics collaborator supplies before
//! layout.

use vstd::prelude::*;
use crate::bounding::Rect;

verus! {

/// The fill pattern drawn inside a circle.
#[derive(Debug, Clone, Copy, PartialEq, Eq, Structural)]
pub enum CirclePattern {
    Plain,
    ConcentricLines,
    StrokeTriangles,
    FillTriangles,
    Dots,
    Runes,
    Rings,
}

/// How a boundary or chain is stroked.
#[derive(Debug, Clone, Copy, PartialEq, Eq, Structural)]
pub enum StrokePattern {
    Line,
    Chain,
}

/// The stylistic markers a `Decorated` figure may carry.
#[derive(Debug, Clone, Copy, PartialEq, Eq, Structural)]
pub enum DecorationKind {
    Tilde,
    Hat,
    Rays,
}

/// The emphasis styles an `Emphasized` figure may carry.
#[derive(Debug, Clone, Copy, PartialEq, Eq, Structural)]
pub enum EmphasisKind {
    Rays,
}

/// The special enclosing shapes.
#[derive(Debug, Clone, Copy, PartialEq, Eq, Structural)]
pub enum SpecialShapeKind {
    Pentagram,
}

/// A single glyph or identifier, with its measured per-line extents.
#[derive(Debug, Clone, PartialEq)]
pub struct Symbol {
    pub name: String,
    pub lines: Vec<Rect>,
}

/// A multi-line text block, with its measured per-line extents.
#[derive(Debug, Clone, PartialEq)]
pub struct Phrase {
    pub text: String,
    pub lines: Vec<Rect>,
}

/// A circle with optional double stroke, a fill pattern, rim items
/// arranged around its content, and a content child.
#[derive(Debug, PartialEq)]
pub struct Circle {
    pub stroke: StrokePattern,
    pub pattern: CirclePattern,
    pub double: bool,
    pub rim: Vec<Figure>,
    pub content: Box<Figure>,
}

/// A regular polygon enclosing one child.
#[derive(Debug, PartialEq)]
pub struct RegularPolygon {
    pub sides: usize,
    pub stroke: StrokePattern,
    pub content: Box<Figure>,
}

/// A chain of items connected by line segments.
#[derive(Debug, PartialEq)]
pub struct Link {
    pub items: Vec<Figure>,
    pub stroke: StrokePattern,
}

/// A child with a small auxiliary marker rectangle placed near it.
#[derive(Debug, PartialEq)]
pub struct Decorated {
    pub kind: DecorationKind,
    pub content: Box<Figure>,
}

/// A child wrapped in an enlarging circle.
#[derive(Debug, PartialEq)]
pub struct Emphasized {
    pub kind: EmphasisKind,
    pub content: Box<Figure>,
}

/// A five-pointed star enclosing one child.
#[derive(Debug, PartialEq)]
pub struct Pentagram {
    pub content: Box<Figure>,
}

/// The abstract figure tree.
#[derive(Debug, PartialEq)]
pub enum Figure {
    Symbol(Symbol),
    Phrase(Phrase),
    Pentagram(Pentagram),
    Circle(Circle),
    RegularPolygon(RegularPolygon),
    Decorated(Decorated),
    Emphasized(Emphasized),
    Link(Link),
    Arrangement(Vec<Figure>),
}

} // verus!
