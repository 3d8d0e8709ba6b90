//! The exhaustive search: depth-first backtracking that checks the whole
//! folding again at every node.

use crate::direction::{candidate, lemma_turns_push, orthogonal, turns, Direction};
use crate::error::SolveError;
use crate::search::{
    all_positive, first_solution_from, lemma_candidate_fails, lemma_candidate_found,
    lemma_candidates_exhausted, lemma_dead_end, lemma_solution_is_first_from_itself,
    no_solution_from, none_before, outcome,
};
use crate::size::snake_size;
use crate::validator::valid_partial_solution;
use vstd::prelude::*;

verus! {

/// Whether every segment has a length of at least one.
pub fn segments_positive(snake: &Vec<usize>) -> (ok: bool)
    ensures
        ok == all_positive(snake@),
{
    let mut i: usize = 0;
    while i < snake.len()
        invariant
            i <= snake.len(),
            forall|j: int| 0 <= j < i ==> #[trigger] snake@[j] > 0,
        decreases snake.len() - i,
    {
        if snake[i] == 0 {
            return false;
        }
        i = i + 1;
    }
    true
}

/// Folds `snake` into its cube by exhaustive search.
///
/// Returns the first solution in search order, or the reason why there is
/// none.
pub fn solve_naive(snake: &Vec<usize>) -> (r: Result<Vec<Direction>, SolveError>)
    ensures
        outcome(snake@, r),
{
    if !segments_positive(snake) {
        return Err(SolveError::MalformedInput);
    }
    let size: usize = match snake_size(snake) {
        Ok(size) => size,
        Err(e) => {
            return Err(e);
        },
    };
    let mut partial_solution: Vec<Direction> = Vec::new();
    if solve_naive_rec(snake, size, &mut partial_solution) {
        Ok(partial_solution)
    } else {
        Err(SolveError::NoSolutionFound)
    }
}

/// Searches the foldings that begin with `partial_solution`.
///
/// On `true`, `partial_solution` holds the first solution among them; on
/// `false` there is none and `partial_solution` is as it was.
pub fn solve_naive_rec(
    snake: &Vec<usize>,
    size: usize,
    partial_solution: &mut Vec<Direction>,
) -> (found: bool)
    requires
        size <= isize::MAX,
        old(partial_solution).len() <= snake.len(),
        turns(old(partial_solution)@),
    ensures
        found ==> first_solution_from(
            snake@,
            size as int,
            old(partial_solution)@,
            final(partial_solution)@,
        ),
        !found ==> final(partial_solution)@ == old(partial_solution)@,
        !found ==> no_solution_from(snake@, size as int, old(partial_solution)@),
    decreases snake.len() - old(partial_solution).len(),
{
    let ghost prefix = partial_solution@;
    if !valid_partial_solution(snake, size, partial_solution) {
        proof {
            lemma_dead_end(snake@, size as int, prefix);
        }
        return false;
    }
    if partial_solution.len() == snake.len() {
        proof {
            lemma_solution_is_first_from_itself(snake@, size as int, prefix);
        }
        return true;
    }
    let mut r: usize = 0;
    while r < 6
        invariant
            r <= 6,
            size <= isize::MAX,
            partial_solution@ == prefix,
            old(partial_solution)@ == prefix,
            prefix.len() < snake.len(),
            turns(prefix),
            none_before(snake@, size as int, prefix, r as int),
        decreases 6 - r,
    {
        let d: Direction = candidate(r);
        let depth: usize = partial_solution.len();
        proof {
            lemma_turns_push(prefix, d);
        }
        if depth == 0 || orthogonal(&partial_solution[depth - 1].orientation, &d.orientation) {
            partial_solution.push(d);
            if solve_naive_rec(snake, size, partial_solution) {
                proof {
                    lemma_candidate_found(snake@, size as int, prefix, d, partial_solution@);
                }
                return true;
            }
            partial_solution.pop();
        } else {
            proof {
                lemma_dead_end(snake@, size as int, prefix.push(d));
            }
        }
        proof {
            lemma_candidate_fails(snake@, size as int, prefix, d);
        }
        r = r + 1;
    }
    proof {
        lemma_candidates_exhausted(snake@, size as int, prefix);
    }
    false
}

} // verus!
