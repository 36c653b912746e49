//! The text-metrics collaborator's interface.
//!
//! Glyph measurement itself is outside this crate: a renderer measures
//! each text leaf with a real font and hands the library plain line
//! widths and heights.  The library's own half of text layout — stacking
//! the measured lines into a centered block — is
//! `crate::layout::stack_lines`.

use vstd::prelude::*;

verus! {

/// The fonts a renderer bundles for the two text roles.
#[derive(Debug, PartialEq, Eq, Clone, Copy, Structural)]
pub enum BuiltinFont {
    Zeyada,
}

} // verus!
