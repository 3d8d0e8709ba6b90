//! What holds of every result that a search returns.

use crate::bounding_box::{highest, lemma_fits_is_extent, lowest};
use crate::direction::{turns_at, Direction};
use crate::error::SolveError;
use crate::folding::{fits, lemma_trace_length, lemma_trace_starts_at_origin, near, placed, trace};
use crate::search::{first_solution, lemma_outcome_unique, outcome};
use crate::size::{cube, is_side, lemma_side_unique};
use crate::validator::paired;
use vstd::prelude::*;

verus! {

/// In a returned solution, each direction lies on another axis than the one
/// before it.
pub proof fn lemma_solution_turns(snake: Seq<usize>, sol: Vec<Direction>, i: int)
    requires
        outcome(snake, Ok(sol)),
        0 < i < sol@.len(),
    ensures
        sol@.len() == snake.len(),
        sol@[i - 1].orientation != sol@[i].orientation,
{
    assert(turns_at(sol@, i));
}

/// The cells of a returned solution are distinct, they are as many as the
/// cube has, and on every axis they span less than the side of the cube.
pub proof fn lemma_solution_fills_cube(snake: Seq<usize>, size: int, sol: Vec<Direction>)
    requires
        outcome(snake, Ok(sol)),
        is_side(snake, size),
    ensures
        trace(snake, sol@, snake.len()).no_duplicates(),
        trace(snake, sol@, snake.len()).len() == cube(size),
        fits(trace(snake, sol@, snake.len()), size),
        near(
            highest(trace(snake, sol@, snake.len())),
            lowest(trace(snake, sol@, snake.len())),
            size,
        ),
{
    let n = choose|n: int| #[trigger] is_side(snake, n) && first_solution(snake, n, sol@);
    lemma_side_unique(snake, n, size);
    let cells = trace(snake, sol@, snake.len());
    lemma_trace_length(snake, sol@, snake.len());
    assert(snake.take(snake.len() as int) =~= snake);
    lemma_trace_starts_at_origin(snake, sol@, snake.len());
    lemma_fits_is_extent(cells, size);
}

/// The two searches agree. Results that meet the contract of
/// [`crate::naive::solve_naive`] and of [`crate::incremental::solve_fast`] for
/// one snake are both a solution or both an error; the errors are the same,
/// the solutions are the same, and the validator accepts them.
pub proof fn lemma_searches_agree(
    snake: Seq<usize>,
    naive: Result<Vec<Direction>, SolveError>,
    fast: Result<Vec<Direction>, SolveError>,
)
    requires
        outcome(snake, naive),
        outcome(snake, fast),
    ensures
        naive is Ok <==> fast is Ok,
        naive is Err ==> naive == fast,
        naive is Ok ==> naive->Ok_0@ == fast->Ok_0@,
        forall|size: int|
            naive is Ok && #[trigger] is_side(snake, size) ==> placed(
                snake,
                size,
                naive->Ok_0@,
                paired(snake, naive->Ok_0@),
            ),
        forall|size: int|
            fast is Ok && #[trigger] is_side(snake, size) ==> placed(
                snake,
                size,
                fast->Ok_0@,
                paired(snake, fast->Ok_0@),
            ),
{
    lemma_outcome_unique(snake, naive, fast);
    assert forall|size: int| naive is Ok && #[trigger] is_side(snake, size) implies placed(
        snake,
        size,
        naive->Ok_0@,
        paired(snake, naive->Ok_0@),
    ) by {
        let sol = naive->Ok_0@;
        let n = choose|n: int| #[trigger] is_side(snake, n) && first_solution(snake, n, sol);
        lemma_side_unique(snake, n, size);
    }
}

} // verus!
