//! The ways in which a snake can fail to yield a folding.

use vstd::prelude::*;

verus! {

/// Why no folding was returned.
#[derive(Clone, Copy, Debug, PartialEq, Eq, Structural)]
pub enum SolveError {
    /// Some segment has length zero.
    MalformedInput,
    /// The number of unit cubes of the snake is not a perfect cube.
    InvalidSnakeLength,
    /// Every way of folding the snake was tried and none fills the cube.
    NoSolutionFound,
}

} // verus!
