//! Folding a snake of segments into a solid cube.

pub mod bounding_box;
pub mod bounds;
pub mod direction;
pub mod error;
pub mod folding;
pub mod geometry;
pub mod guarantees;
pub mod incremental;
pub mod naive;
pub mod search;
pub mod size;
pub mod validator;

pub use crate::direction::{
    candidate, format_solution, orthogonal, Direction, Orientation, Sign,
};
pub use crate::error::SolveError;
pub use crate::geometry::{add, delta_orientation, scale};
pub use crate::size::{floor_cube_root, snake_length, snake_size};
pub use crate::validator::valid_partial_solution;
pub use crate::naive::{segments_positive, solve_naive, solve_naive_rec};
pub use crate::incremental::{
    position_key, retract, solve_fast, solve_fast_rec, try_extend_snake, SearchState, TraceEntry,
    MAX_SIDE,
};
