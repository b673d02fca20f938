//! Geometry, layout and draw planning for patterns traced on a triangular
//! lattice.
//!
//! A pattern is a turtle-style walk: a starting direction and a sequence of
//! relative turns. The library builds the walk's lattice path together with
//! its bounding box, per-row silhouette and edge-collision counts, packs many
//! patterns into rows under a width limit, and turns each placed pattern plus
//! a styling configuration into an ordered list of drawing commands. All
//! coordinates are kept in exact integer units (planar x in half lattice
//! steps, radii in thousandths of a lattice step); turning the command list
//! into pixels is left to the caller.

pub mod grids;
pub mod options;
pub mod pattern;
pub mod plan;
pub mod text;
pub mod pattern_utils;

use vstd::prelude::*;

verus! {

/// Smallest and largest lattice x reachable by any path this library builds.
/// Paths start at the origin and make at most one unit step per turn, so a
/// path of length `n` stays within `n` of the origin on both axes; bounding
/// the number of turns keeps every coordinate computation free of overflow.
pub const MAX_PATTERN_STEPS: usize = 0x100000;

} // verus!
