//! What it means to fold a snake: the cells it visits, and when they lie in
//! the cube without touching each other.

use crate::direction::{turns, Direction};
use crate::geometry::{advance, Point};
use crate::size::segments_sum;
use vstd::prelude::*;

verus! {

/// The `n` cells entered when walking from `from` in direction `d`.
pub open spec fn run(from: Point, d: Direction, n: nat) -> Seq<Point> {
    Seq::new(n, |i: int| advance(from, d, i + 1))
}

/// The cells visited by the first `k` segments of `snake` laid along `dirs`,
/// in order, starting with the origin.
pub open spec fn trace(snake: Seq<usize>, dirs: Seq<Direction>, k: nat) -> Seq<Point>
    decreases k,
{
    if k == 0 {
        seq![Point::origin()]
    } else {
        let before = trace(snake, dirs, (k - 1) as nat);
        before + run(before.last(), dirs[k - 1], snake[k - 1] as nat)
    }
}

/// On every axis `p` lies less than `size` beyond `q`.
pub open spec fn near(p: Point, q: Point, size: int) -> bool {
    &&& p.x - q.x < size
    &&& p.y - q.y < size
    &&& p.z - q.z < size
}

/// The cells span less than `size` on every axis: they lie in some cube of
/// side `size`.
pub open spec fn fits(cells: Seq<Point>, size: int) -> bool {
    forall|i: int, j: int|
        0 <= i < cells.len() && 0 <= j < cells.len() ==> #[trigger] near(cells[i], cells[j], size)
}

/// The first `k` segments lie in a cube of side `size` and visit no cell
/// twice.
pub open spec fn placed(snake: Seq<usize>, size: int, dirs: Seq<Direction>, k: nat) -> bool {
    &&& trace(snake, dirs, k).no_duplicates()
    &&& fits(trace(snake, dirs, k), size)
}

/// `dirs` lays the first segments of `snake` into a cube of side `size`: it
/// turns at every joint, visits no cell twice and stays in the cube.
pub open spec fn is_folding(snake: Seq<usize>, size: int, dirs: Seq<Direction>) -> bool {
    &&& dirs.len() <= snake.len()
    &&& turns(dirs)
    &&& placed(snake, size, dirs, dirs.len())
}

/// `dirs` folds the whole of `snake` into a cube of side `size`.
pub open spec fn is_solution(snake: Seq<usize>, size: int, dirs: Seq<Direction>) -> bool {
    &&& dirs.len() == snake.len()
    &&& is_folding(snake, size, dirs)
}

/// The trace starts at the origin.
pub proof fn lemma_trace_starts_at_origin(snake: Seq<usize>, dirs: Seq<Direction>, k: nat)
    ensures
        trace(snake, dirs, k).len() >= 1,
        trace(snake, dirs, k)[0] == Point::origin(),
    decreases k,
{
    if k > 0 {
        lemma_trace_starts_at_origin(snake, dirs, (k - 1) as nat);
    }
}

/// The trace holds the origin and one cell for each unit of length laid.
pub proof fn lemma_trace_length(snake: Seq<usize>, dirs: Seq<Direction>, k: nat)
    requires
        k <= snake.len(),
    ensures
        trace(snake, dirs, k).len() == segments_sum(snake.take(k as int)) + 1,
    decreases k,
{
    if k > 0 {
        lemma_trace_length(snake, dirs, (k - 1) as nat);
        assert(snake.take(k as int).drop_last() =~= snake.take(k - 1));
    }
}

/// The trace of fewer segments is the beginning of the trace of more.
pub proof fn lemma_trace_grows(snake: Seq<usize>, dirs: Seq<Direction>, j: nat, k: nat)
    requires
        j <= k,
    ensures
        trace(snake, dirs, j).is_prefix_of(trace(snake, dirs, k)),
    decreases k,
{
    if j < k {
        lemma_trace_grows(snake, dirs, j, (k - 1) as nat);
    } else {
        assert(trace(snake, dirs, j) =~= trace(snake, dirs, k).subrange(
            0,
            trace(snake, dirs, j).len() as int,
        ));
    }
}

/// The trace of `k` segments looks only at the first `k` directions.
pub proof fn lemma_trace_reads_prefix(
    snake: Seq<usize>,
    dirs: Seq<Direction>,
    other: Seq<Direction>,
    k: nat,
)
    requires
        k <= dirs.len(),
        k <= other.len(),
        dirs.take(k as int) == other.take(k as int),
    ensures
        trace(snake, dirs, k) == trace(snake, other, k),
    decreases k,
{
    if k > 0 {
        assert(dirs.take(k - 1) =~= dirs.take(k as int).take(k - 1));
        assert(other.take(k - 1) =~= other.take(k as int).take(k - 1));
        lemma_trace_reads_prefix(snake, dirs, other, (k - 1) as nat);
        assert(other[k - 1] == other.take(k as int)[k - 1]);
    }
}

/// Cells that lie in a cube and are distinct remain so when the sequence is
/// cut short.
pub proof fn lemma_prefix_keeps_placement(cells: Seq<Point>, whole: Seq<Point>, size: int)
    requires
        cells.is_prefix_of(whole),
        whole.no_duplicates(),
        fits(whole, size),
    ensures
        cells.no_duplicates(),
        fits(cells, size),
{
}

/// A placement of more segments is a placement of fewer.
pub proof fn lemma_placed_earlier(
    snake: Seq<usize>,
    size: int,
    dirs: Seq<Direction>,
    j: nat,
    k: nat,
)
    requires
        j <= k,
        placed(snake, size, dirs, k),
    ensures
        placed(snake, size, dirs, j),
{
    lemma_trace_grows(snake, dirs, j, k);
    lemma_prefix_keeps_placement(trace(snake, dirs, j), trace(snake, dirs, k), size);
}

/// The beginning of a folding is a folding.
pub proof fn lemma_folding_prefix(snake: Seq<usize>, size: int, dirs: Seq<Direction>, k: nat)
    requires
        is_folding(snake, size, dirs),
        k <= dirs.len(),
    ensures
        is_folding(snake, size, dirs.take(k as int)),
{
    crate::direction::lemma_turns_prefix(dirs, k as int);
    lemma_placed_earlier(snake, size, dirs, k, dirs.len());
    assert(dirs.take(k as int).take(k as int) =~= dirs.take(k as int));
    lemma_trace_reads_prefix(snake, dirs.take(k as int), dirs, k);
}

/// Cells that fit in a cube of side `size` and include the origin have
/// coordinates of absolute value below `size`.
pub proof fn lemma_cells_near_origin(cells: Seq<Point>, size: int, i: int)
    requires
        cells.len() >= 1,
        cells[0] == Point::origin(),
        fits(cells, size),
        0 <= i < cells.len(),
    ensures
        -size < cells[i].x < size,
        -size < cells[i].y < size,
        -size < cells[i].z < size,
{
    assert(near(cells[i], cells[0], size));
    assert(near(cells[0], cells[i], size));
}

/// Walking one step further enters one more cell.
pub proof fn lemma_run_push(from: Point, d: Direction, n: nat)
    ensures
        run(from, d, n).push(advance(from, d, n as int + 1)) == run(from, d, n + 1),
        n > 0 ==> run(from, d, n).last() == advance(from, d, n as int),
{
}

/// A shorter walk from the end of some cells is the beginning of a longer
/// one.
pub proof fn lemma_run_grows(before: Seq<Point>, from: Point, d: Direction, m: nat, n: nat)
    requires
        m <= n,
    ensures
        (before + run(from, d, m)).is_prefix_of(before + run(from, d, n)),
{
}

} // verus!
