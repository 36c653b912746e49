//! A verified geometry kernel and radial layout engine for diagrammatic
//! renderings of structured documents.
//!
//! The crate computes, from an abstract tree of figures (circles, stars,
//! linked chains, decorated glyph clusters), a concrete arrangement of
//! two-dimensional shapes: every node's boundary is sized and placed by
//! exact integer arithmetic, and the sizing and placement rules are stated
//! as contracts and proved.

pub mod angle;
pub mod bounding;
pub mod font;
pub mod laws;
pub mod layout;
pub mod num;
pub mod vec2;
pub mod visual;

pub use num::Ratio;
