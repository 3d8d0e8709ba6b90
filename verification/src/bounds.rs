//! How large a cube a snake can fill.

use crate::direction::Direction;
use crate::folding::{
    is_solution, lemma_placed_earlier, lemma_trace_starts_at_origin, near, placed, trace,
};
use crate::size::{is_side, segments_sum};
use vstd::prelude::*;

verus! {

/// In a placement every segment laid is shorter than the side of the cube.
pub proof fn lemma_segment_shorter_than_side(
    snake: Seq<usize>,
    size: int,
    dirs: Seq<Direction>,
    k: nat,
    j: nat,
)
    requires
        placed(snake, size, dirs, k),
        j < k,
    ensures
        snake[j as int] < size,
{
    lemma_placed_earlier(snake, size, dirs, j + 1, k);
    lemma_trace_starts_at_origin(snake, dirs, j);
    let before = trace(snake, dirs, j);
    let cells = trace(snake, dirs, j + 1);
    let n = snake[j as int] as int;
    assert(near(cells[0], cells[0], size));
    if n > 0 {
        let a = before.len() - 1;
        let b = before.len() + n - 1;
        assert(near(cells[a], cells[b], size));
        assert(near(cells[b], cells[a], size));
    }
}

/// Segments that are all shorter than `size` add up to at most their number
/// times `size - 1`.
pub proof fn lemma_short_segments_sum(snake: Seq<usize>, size: int)
    requires
        forall|j: int| 0 <= j < snake.len() ==> #[trigger] snake[j] < size,
    ensures
        segments_sum(snake) <= snake.len() * (size - 1),
    decreases snake.len(),
{
    if snake.len() > 0 {
        let rest = snake.drop_last();
        lemma_short_segments_sum(rest, size);
        let n = snake.len() as int;
        assert((n - 1) * (size - 1) + (size - 1) == n * (size - 1)) by (nonlinear_arith);
    }
}

/// A snake of at most `usize::MAX` segments that folds into its cube has a
/// cube of side below two to the power 32.
pub proof fn lemma_solvable_side_bound(snake: Seq<usize>, size: int, dirs: Seq<Direction>)
    requires
        is_side(snake, size),
        is_solution(snake, size, dirs),
        snake.len() <= usize::MAX,
    ensures
        size <= 0xffff_ffff,
{
    assert forall|j: int| 0 <= j < snake.len() implies #[trigger] snake[j] < size by {
        lemma_segment_shorter_than_side(snake, size, dirs, dirs.len(), j as nat);
    }
    lemma_short_segments_sum(snake, size);
    let n = snake.len() as int;
    if size > 0xffff_ffff {
        assert(n * (size - 1) <= 0xffff_ffff_ffff_ffff * (size - 1)) by (nonlinear_arith)
            requires
                0 <= n <= 0xffff_ffff_ffff_ffff,
                size >= 1,
        ;
        assert(size * size >= 0x1_0000_0000_0000_0000) by (nonlinear_arith)
            requires
                size >= 0x1_0000_0000,
        ;
        assert(size * size * size >= 0x1_0000_0000_0000_0000 * size) by (nonlinear_arith)
            requires
                size * size >= 0x1_0000_0000_0000_0000,
                size >= 0,
        ;
    }
}

} // verus!
