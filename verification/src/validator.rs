//! Checking a folding from scratch.

use crate::bounding_box::{
    highest, lemma_box_holds_cells, lemma_box_push, lemma_fits_is_extent, lemma_placement_push,
    lower, lowest, spans_less, upper,
};
use crate::direction::Direction;
use crate::folding::{
    fits, lemma_cells_near_origin, lemma_placed_earlier, lemma_prefix_keeps_placement,
    lemma_run_grows, lemma_run_push, lemma_trace_starts_at_origin, near, placed, run, trace,
};
use crate::geometry::{advance, lemma_advance_adds, point, points, same_position, step};
use vstd::prelude::*;

verus! {

/// The number of segments that have both a length and a direction.
pub open spec fn paired(snake: Seq<usize>, dirs: Seq<Direction>) -> nat {
    if snake.len() <= dirs.len() {
        snake.len()
    } else {
        dirs.len()
    }
}

/// Whether `p` is one of `positions`.
pub fn position_seen(positions: &Vec<[isize; 3]>, p: &[isize; 3]) -> (seen: bool)
    ensures
        seen == points(positions@).contains(point(*p)),
{
    let mut i: usize = 0;
    while i < positions.len()
        invariant
            i <= positions.len(),
            forall|j: int| 0 <= j < i ==> points(positions@)[j] != point(*p),
        decreases positions.len() - i,
    {
        if same_position(&positions[i], p) {
            assert(points(positions@)[i as int] == point(*p));
            return true;
        }
        i = i + 1;
    }
    false
}

/// Recomputes the cells visited by the segments that `partial_solution`
/// places and says whether they are distinct and lie in a cube of side `size`.
///
/// Turns are not looked at. Segments without a direction, and directions
/// without a segment, are left out.
pub fn valid_partial_solution(
    snake: &Vec<usize>,
    size: usize,
    partial_solution: &Vec<Direction>,
) -> (ok: bool)
    requires
        size <= isize::MAX,
    ensures
        ok == placed(snake@, size as int, partial_solution@, paired(snake@, partial_solution@)),
{
    let count: usize = if snake.len() <= partial_solution.len() {
        snake.len()
    } else {
        partial_solution.len()
    };
    let ghost goal = paired(snake@, partial_solution@);
    let mut positions: Vec<[isize; 3]> = Vec::new();
    positions.push([0, 0, 0]);
    let mut lo: [isize; 3] = [0, 0, 0];
    let mut hi: [isize; 3] = [0, 0, 0];
    if size == 0 {
        proof {
            let whole = trace(snake@, partial_solution@, goal);
            lemma_trace_starts_at_origin(snake@, partial_solution@, goal);
            assert(!near(whole[0], whole[0], 0));
        }
        return false;
    }
    let mut k: usize = 0;
    while k < count
        invariant
            0 < size <= isize::MAX,
            count == goal,
            goal == paired(snake@, partial_solution@),
            k <= count,
            positions.len() >= 1,
            points(positions@) == trace(snake@, partial_solution@, k as nat),
            points(positions@).no_duplicates(),
            fits(points(positions@), size as int),
            point(lo) == lowest(points(positions@)),
            point(hi) == highest(points(positions@)),
        decreases count - k,
    {
        let length: usize = snake[k];
        let d: Direction = partial_solution[k];
        let ghost before = trace(snake@, partial_solution@, k as nat);
        let ghost from = before.last();
        let mut i: usize = 0;
        proof {
            lemma_advance_adds(from, d, 0, 0);
        }
        while i < length
            invariant
                0 < size <= isize::MAX,
                count == goal,
                goal == paired(snake@, partial_solution@),
                k < count,
                length == snake@[k as int],
                d == partial_solution@[k as int],
                i <= length,
                before == trace(snake@, partial_solution@, k as nat),
                before.len() >= 1,
                from == before.last(),
                positions.len() >= 1,
                points(positions@) == before + run(from, d, i as nat),
                point(positions@.last()) == advance(from, d, i as int),
                points(positions@).no_duplicates(),
                fits(points(positions@), size as int),
                point(lo) == lowest(points(positions@)),
                point(hi) == highest(points(positions@)),
            decreases length - i,
        {
            let last: [isize; 3] = positions[positions.len() - 1];
            let ghost cells = points(positions@);
            proof {
                lemma_trace_starts_at_origin(snake@, partial_solution@, k as nat);
                lemma_cells_near_origin(cells, size as int, cells.len() - 1);
                lemma_advance_adds(from, d, i as int, 1);
                lemma_box_holds_cells(cells, cells.len() - 1);
                lemma_fits_is_extent(cells, size as int);
            }
            let next: [isize; 3] = step(last, d);
            let grown_lo: [isize; 3] = lower(lo, next);
            let grown_hi: [isize; 3] = upper(hi, next);
            let seen: bool = position_seen(&positions, &next);
            let inside: bool = spans_less(&grown_lo, &grown_hi, size);
            proof {
                lemma_placement_push(cells, point(next), size as int);
                lemma_run_push(from, d, i as nat);
            }
            if seen || !inside {
                proof {
                    let grown = cells.push(point(next));
                    if placed(snake@, size as int, partial_solution@, goal) {
                        lemma_placed_earlier(
                            snake@,
                            size as int,
                            partial_solution@,
                            (k + 1) as nat,
                            goal,
                        );
                        lemma_run_grows(before, from, d, (i + 1) as nat, length as nat);
                        lemma_prefix_keeps_placement(
                            grown,
                            trace(snake@, partial_solution@, (k + 1) as nat),
                            size as int,
                        );
                    }
                }
                return false;
            }
            positions.push(next);
            lo = grown_lo;
            hi = grown_hi;
            i = i + 1;
            proof {
                assert(points(positions@) =~= cells.push(point(next)));
                lemma_box_push(cells, point(next));
            }
        }
        k = k + 1;
    }
    true
}

} // verus!
