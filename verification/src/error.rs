//! Errors reported by the randomised constructors.

use vstd::prelude::*;

verus! {

/// Why a shape could not be made.
#[derive(Debug, PartialEq, Eq, Structural, Clone, Copy)]
pub enum ShapeError {
    /// The canvas is too small to sample a position from: positions are
    /// taken from `[1, width)` and `[1, height)`, and one of the two is empty.
    InvalidBounds { width: i32, height: i32 },
}

} // verus!
