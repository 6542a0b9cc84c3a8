//! Layout engine for organization/role diagrams.
//!
//! An organization tree (organizations, sub-organizations, and named role
//! assignments) is converted into a diagram-description document: a grid of
//! labeled role boxes nested inside organization containers. The geometry of
//! every box is computed here and proved against the mathematical layout
//! model; only the random identifier tags that decorate the output are drawn
//! from an outside source.

pub mod config;
pub mod data;
pub mod emit;
pub mod generate;
pub mod layout;
pub mod parse;
pub mod rewrite;
pub mod sheet;
pub mod text;

use vstd::prelude::*;

verus! {

/// Largest value accepted for any single geometry parameter.
pub const MAX_PARAM: i32 = 1000000;

} // verus!
