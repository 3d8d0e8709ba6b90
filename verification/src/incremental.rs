//! The incremental search: depth-first backtracking that keeps the visited
//! cells and the bounding box up to date, so that laying or lifting a segment
//! costs no more than its length.

use crate::bounding_box::{
    highest, lemma_box_holds_cells, lemma_box_push, lemma_fits_is_extent, lemma_placement_push,
    lower, lowest, spans_less, upper,
};
use crate::bounds::lemma_solvable_side_bound;
use crate::direction::{candidate, lemma_turns_push, orthogonal, turns, Direction};
use crate::error::SolveError;
use crate::folding::{
    fits, is_folding, is_solution, lemma_cells_near_origin, lemma_prefix_keeps_placement,
    lemma_run_grows, lemma_run_push, lemma_trace_reads_prefix, placed, run, trace,
};
use crate::geometry::{advance, lemma_advance_adds, point, step, Point};
use crate::naive::segments_positive;
use crate::search::{
    first_solution_from, lemma_candidate_fails, lemma_candidate_found, lemma_candidates_exhausted,
    lemma_dead_end, lemma_solution_is_first_from_itself, no_solution_from, none_before, outcome,
};
use crate::size::snake_size;
use std::collections::HashSet;
use vstd::prelude::*;

verus! {

/// The largest side of a cube that a snake can fill: beyond it some segment
/// is longer than the side, however many segments there are.
pub const MAX_SIDE: usize = 0xffff_ffff;

/// The number under which a cell is kept in the set of visited cells.
pub open spec fn key(p: Point) -> int {
    ((p.x + 0x1_0000_0000) * 0x2_0000_0000 + (p.y + 0x1_0000_0000)) * 0x2_0000_0000 + (p.z
        + 0x1_0000_0000)
}

/// The cell has a key of its own: no coordinate is beyond `MAX_SIDE`.
pub open spec fn keyed(p: Point) -> bool {
    &&& -MAX_SIDE <= p.x <= MAX_SIDE
    &&& -MAX_SIDE <= p.y <= MAX_SIDE
    &&& -MAX_SIDE <= p.z <= MAX_SIDE
}

/// The keys of the given cells.
pub open spec fn keys(cells: Seq<Point>) -> Set<u128> {
    Set::new(|k: u128| exists|i: int| 0 <= i < cells.len() && #[trigger] key(cells[i]) == k)
}

/// Different cells have different keys.
pub proof fn lemma_key_names_cell(p: Point, q: Point)
    requires
        keyed(p),
        keyed(q),
        key(p) == key(q),
    ensures
        p == q,
{
}

/// The key of a cell fits in 128 bits.
pub proof fn lemma_key_range(p: Point)
    requires
        keyed(p),
    ensures
        0 <= key(p) <= u128::MAX,
{
}

/// The key of a position.
pub fn position_key(p: &[isize; 3]) -> (k: u128)
    requires
        keyed(point(*p)),
    ensures
        k == key(point(*p)),
{
    let x: u128 = (p[0] as i128 + 0x1_0000_0000) as u128;
    let y: u128 = (p[1] as i128 + 0x1_0000_0000) as u128;
    let z: u128 = (p[2] as i128 + 0x1_0000_0000) as u128;
    (x * 0x2_0000_0000 + y) * 0x2_0000_0000 + z
}

/// One cell of the trace, with the bounding box of the trace up to it.
#[derive(Clone, Copy, Debug)]
pub struct TraceEntry {
    pub position: [isize; 3],
    pub lowest: [isize; 3],
    pub highest: [isize; 3],
}

/// What the incremental search carries from node to node.
pub struct SearchState {
    /// The directions chosen so far, one per segment laid.
    pub partial_solution: Vec<Direction>,
    /// The cells visited so far, in order, each with its bounding box.
    pub trace: Vec<TraceEntry>,
    /// The keys of the cells visited so far.
    pub visited: HashSet<u128>,
}

impl SearchState {
    /// The cells visited so far, in order.
    pub open spec fn cells(self) -> Seq<Point> {
        self.trace@.map_values(|e: TraceEntry| point(e.position))
    }

    /// The three parts of the state agree: the cells start at the origin and
    /// are distinct, each entry holds the bounding box of the cells up to it,
    /// and the set holds the keys of the cells.
    pub open spec fn recorded(self) -> bool {
        &&& self.trace.len() >= 1
        &&& self.cells()[0] == Point::origin()
        &&& self.cells().no_duplicates()
        &&& forall|i: int| 0 <= i < self.trace.len() ==> keyed(#[trigger] self.cells()[i])
        &&& forall|i: int|
            0 <= i < self.trace.len() ==> {
                &&& point((#[trigger] self.trace[i]).lowest) == lowest(self.cells().take(i + 1))
                &&& point(self.trace[i].highest) == highest(self.cells().take(i + 1))
            }
        &&& self.visited@ == keys(self.cells())
    }

    /// The state belongs to a node of the search: its directions are a
    /// folding of the first segments of `snake` into a cube of side `size`,
    /// and its cells are the cells of that folding.
    pub open spec fn wf(self, snake: Seq<usize>, size: int) -> bool {
        &&& 1 <= size <= MAX_SIDE
        &&& size <= isize::MAX
        &&& is_folding(snake, size, self.partial_solution@)
        &&& self.recorded()
        &&& self.cells() == trace(
            snake,
            self.partial_solution@,
            self.partial_solution.len() as nat,
        )
    }

    /// Both states hold the same directions, cells and keys.
    pub open spec fn same_as(self, other: SearchState) -> bool {
        &&& self.partial_solution@ == other.partial_solution@
        &&& self.trace@ == other.trace@
        &&& self.visited@ == other.visited@
    }

    /// The state of the root of the search: nothing laid, the snake's head at
    /// the origin.
    pub fn new() -> (state: SearchState)
        ensures
            state.partial_solution@ == Seq::<Direction>::empty(),
            forall|snake: Seq<usize>, size: int|
                1 <= size <= MAX_SIDE && size <= isize::MAX ==> #[trigger] state.wf(snake, size),
    {
        broadcast use vstd::std_specs::hash::group_hash_axioms;

        let origin: [isize; 3] = [0, 0, 0];
        let mut entries: Vec<TraceEntry> = Vec::new();
        entries.push(TraceEntry { position: origin, lowest: origin, highest: origin });
        let mut visited: HashSet<u128> = HashSet::new();
        visited.insert(position_key(&origin));
        let state = SearchState { partial_solution: Vec::new(), trace: entries, visited };
        proof {
            let cells = seq![Point::origin()];
            assert(state.cells() =~= cells);
            assert(state.visited@ =~= keys(cells)) by {
                assert(key(cells[0]) == key(Point::origin()));
            }
        }
        state
    }
}

/// The keys of some cells and one more are the keys of the cells and the key
/// of that one.
pub proof fn lemma_keys_push(cells: Seq<Point>, c: Point)
    requires
        keyed(c),
    ensures
        keys(cells.push(c)) == keys(cells).insert(key(c) as u128),
{
    lemma_key_range(c);
    let grown = cells.push(c);
    assert forall|k: u128| keys(grown).contains(k) implies keys(cells).insert(
        key(c) as u128,
    ).contains(k) by {
        let i = choose|i: int| 0 <= i < grown.len() && #[trigger] key(grown[i]) == k;
        if i < cells.len() {
            assert(key(cells[i]) == k);
        }
    }
    assert forall|k: u128| keys(cells).insert(key(c) as u128).contains(k) implies keys(
        grown,
    ).contains(k) by {
        if k == key(c) as u128 {
            assert(key(grown[cells.len() as int]) == k);
        } else {
            let i = choose|i: int| 0 <= i < cells.len() && #[trigger] key(cells[i]) == k;
            assert(key(grown[i]) == k);
        }
    }
}

/// Among cells with keys of their own, a cell is present exactly when its
/// key is.
pub proof fn lemma_keys_tell_cells(cells: Seq<Point>, c: Point)
    requires
        keyed(c),
        forall|i: int| 0 <= i < cells.len() ==> keyed(#[trigger] cells[i]),
    ensures
        keys(cells).contains(key(c) as u128) <==> cells.contains(c),
{
    lemma_key_range(c);
    if keys(cells).contains(key(c) as u128) {
        let i = choose|i: int| 0 <= i < cells.len() && #[trigger] key(cells[i]) == key(c) as u128;
        lemma_key_names_cell(cells[i], c);
    }
    if cells.contains(c) {
        let i = choose|i: int| 0 <= i < cells.len() && cells[i] == c;
        assert(key(cells[i]) == key(c));
    }
}

/// Without their last cell, distinct cells with keys of their own have the
/// same keys but for the key of that cell.
pub proof fn lemma_keys_drop_last(cells: Seq<Point>)
    requires
        cells.len() >= 1,
        cells.no_duplicates(),
        forall|i: int| 0 <= i < cells.len() ==> keyed(#[trigger] cells[i]),
    ensures
        keys(cells.drop_last()) == keys(cells).remove(key(cells.last()) as u128),
{
    let rest = cells.drop_last();
    let gone = key(cells.last()) as u128;
    lemma_key_range(cells.last());
    assert forall|k: u128| keys(rest).contains(k) implies keys(cells).remove(gone).contains(k) by {
        let i = choose|i: int| 0 <= i < rest.len() && #[trigger] key(rest[i]) == k;
        assert(key(cells[i]) == k);
        if k == gone {
            lemma_key_names_cell(cells[i], cells.last());
        }
    }
    assert forall|k: u128| keys(cells).remove(gone).contains(k) implies keys(rest).contains(k) by {
        let i = choose|i: int| 0 <= i < cells.len() && #[trigger] key(cells[i]) == k;
        assert(key(rest[i]) == k);
    }
}

/// Lifts the last `count` cells off the trace and out of the visited set.
pub fn retract(state: &mut SearchState, count: usize)
    requires
        old(state).recorded(),
        count < old(state).trace.len(),
    ensures
        final(state).recorded(),
        final(state).partial_solution@ == old(state).partial_solution@,
        final(state).trace@ == old(state).trace@.take(old(state).trace.len() - count),
{
    broadcast use vstd::std_specs::hash::group_hash_axioms;

    let mut lifted: usize = 0;
    while lifted < count
        invariant
            lifted <= count,
            count < old(state).trace.len(),
            state.recorded(),
            state.partial_solution@ == old(state).partial_solution@,
            state.trace@ == old(state).trace@.take(old(state).trace.len() - lifted),
        decreases count - lifted,
    {
        let ghost cells = state.cells();
        let entry: TraceEntry = state.trace.pop().unwrap();
        let k: u128 = position_key(&entry.position);
        state.visited.remove(&k);
        lifted = lifted + 1;
        proof {
            lemma_keys_drop_last(cells);
            assert(state.cells() =~= cells.drop_last());
            assert forall|i: int| 0 <= i < state.trace.len() implies {
                &&& point((#[trigger] state.trace[i]).lowest) == lowest(state.cells().take(i + 1))
                &&& point(state.trace[i].highest) == highest(state.cells().take(i + 1))
            } by {
                assert(state.cells().take(i + 1) =~= cells.take(i + 1));
            }
        }
    }
}

/// Lays the next segment of `snake` in direction `direction`, cell by cell.
///
/// Gives up at the first cell that is already visited or that takes the
/// bounding box to `size` on some axis, and then leaves the state as it was.
pub fn try_extend_snake(
    snake: &Vec<usize>,
    size: usize,
    state: &mut SearchState,
    direction: Direction,
) -> (ok: bool)
    requires
        old(state).wf(snake@, size as int),
        old(state).partial_solution.len() < snake.len(),
        turns(old(state).partial_solution@.push(direction)),
    ensures
        ok == is_folding(snake@, size as int, old(state).partial_solution@.push(direction)),
        ok ==> final(state).wf(snake@, size as int),
        ok ==> final(state).partial_solution@ == old(state).partial_solution@.push(direction),
        ok ==> old(state).trace@.is_prefix_of(final(state).trace@),
        ok ==> final(state).trace.len() == old(state).trace.len()
            + snake@[old(state).partial_solution.len() as int],
        !ok ==> final(state).same_as(*old(state)),
{
    broadcast use vstd::std_specs::hash::group_hash_axioms;

    let depth: usize = state.partial_solution.len();
    let length: usize = snake[depth];
    let ghost prefix = state.partial_solution@;
    let ghost ext = prefix.push(direction);
    let ghost before = trace(snake@, prefix, depth as nat);
    let ghost from = before.last();
    let ghost base = state.trace@;
    proof {
        assert(ext.take(depth as int) =~= prefix.take(depth as int));
        lemma_trace_reads_prefix(snake@, ext, prefix, depth as nat);
        lemma_advance_adds(from, direction, 0, 0);
    }
    let mut pushed: usize = 0;
    let mut ok: bool = true;
    while ok && pushed < length
        invariant
            1 <= size <= MAX_SIDE,
            size <= isize::MAX,
            depth < snake.len(),
            length == snake@[depth as int],
            pushed <= length,
            prefix.len() == depth,
            ext == prefix.push(direction),
            before == trace(snake@, prefix, depth as nat),
            before.len() >= 1,
            from == before.last(),
            trace(snake@, ext, (depth + 1) as nat) == before + run(from, direction, length as nat),
            state.partial_solution@ == prefix,
            state.recorded(),
            fits(state.cells(), size as int),
            state.cells() == before + run(from, direction, pushed as nat),
            state.cells().last() == advance(from, direction, pushed as int),
            state.trace.len() == base.len() + pushed,
            base.is_prefix_of(state.trace@),
            !ok ==> !placed(snake@, size as int, ext, (depth + 1) as nat),
        decreases length - pushed + (if ok { 1int } else { 0int }),
    {
        let ghost cells = state.cells();
        let ghost entries = state.trace@;
        let entry: TraceEntry = state.trace[state.trace.len() - 1];
        proof {
            assert(cells.take(cells.len() as int) =~= cells);
            lemma_cells_near_origin(cells, size as int, cells.len() - 1);
            lemma_advance_adds(from, direction, pushed as int, 1);
            lemma_box_holds_cells(cells, cells.len() - 1);
            lemma_box_holds_cells(cells, 0);
            lemma_fits_is_extent(cells, size as int);
        }
        let next: [isize; 3] = step(entry.position, direction);
        let lo: [isize; 3] = lower(entry.lowest, next);
        let hi: [isize; 3] = upper(entry.highest, next);
        let ghost grown = cells.push(point(next));
        proof {
            lemma_placement_push(cells, point(next), size as int);
            lemma_run_push(from, direction, pushed as nat);
            lemma_run_grows(before, from, direction, (pushed + 1) as nat, length as nat);
            if placed(snake@, size as int, ext, (depth + 1) as nat) {
                lemma_prefix_keeps_placement(
                    grown,
                    trace(snake@, ext, (depth + 1) as nat),
                    size as int,
                );
            }
        }
        if !spans_less(&lo, &hi, size) {
            ok = false;
        } else {
            let k: u128 = position_key(&next);
            proof {
                lemma_keys_tell_cells(cells, point(next));
            }
            if state.visited.contains(&k) {
                ok = false;
            } else {
                state.trace.push(TraceEntry { position: next, lowest: lo, highest: hi });
                state.visited.insert(k);
                pushed = pushed + 1;
                proof {
                    assert(state.cells() =~= grown);
                    lemma_keys_push(cells, point(next));
                    lemma_box_push(cells, point(next));
                    assert forall|i: int| 0 <= i < state.trace.len() implies {
                        &&& point((#[trigger] state.trace[i]).lowest) == lowest(
                            state.cells().take(i + 1),
                        )
                        &&& point(state.trace[i].highest) == highest(state.cells().take(i + 1))
                    } by {
                        if i < entries.len() {
                            assert(grown.take(i + 1) =~= cells.take(i + 1));
                        } else {
                            assert(grown.take(i + 1) =~= grown);
                        }
                    }
                }
            }
        }
    }
    if !ok {
        retract(state, pushed);
        return false;
    }
    state.partial_solution.push(direction);
    true
}

/// Searches the foldings that begin with the directions of `state`.
///
/// On `true`, the directions of `state` are the first solution among them; on
/// `false` there is none and the directions are as they were. Either way the
/// trace and the set of visited cells are handed back as they came: every
/// cell laid during the search is lifted again before the search returns.
pub fn solve_fast_rec(snake: &Vec<usize>, size: usize, state: &mut SearchState) -> (found: bool)
    requires
        old(state).wf(snake@, size as int),
    ensures
        final(state).recorded(),
        final(state).trace@ == old(state).trace@,
        final(state).visited@ == old(state).visited@,
        found ==> first_solution_from(
            snake@,
            size as int,
            old(state).partial_solution@,
            final(state).partial_solution@,
        ),
        !found ==> final(state).partial_solution@ == old(state).partial_solution@,
        !found ==> no_solution_from(snake@, size as int, old(state).partial_solution@),
    decreases snake.len() - old(state).partial_solution.len(),
{
    let ghost prefix = state.partial_solution@;
    let ghost base = state.trace@;
    let ghost seen = state.visited@;
    if state.partial_solution.len() == snake.len() {
        proof {
            lemma_solution_is_first_from_itself(snake@, size as int, prefix);
        }
        return true;
    }
    let mut r: usize = 0;
    while r < 6
        invariant
            r <= 6,
            state.wf(snake@, size as int),
            state.partial_solution@ == prefix,
            state.trace@ == base,
            state.visited@ == seen,
            old(state).partial_solution@ == prefix,
            old(state).trace@ == base,
            old(state).visited@ == seen,
            prefix.len() < snake.len(),
            none_before(snake@, size as int, prefix, r as int),
        decreases 6 - r,
    {
        let d: Direction = candidate(r);
        let depth: usize = state.partial_solution.len();
        proof {
            lemma_turns_push(prefix, d);
        }
        if depth == 0 || orthogonal(&state.partial_solution[depth - 1].orientation, &d.orientation) {
            if try_extend_snake(snake, size, state, d) {
                let found: bool = solve_fast_rec(snake, size, state);
                retract(state, snake[depth]);
                proof {
                    assert(state.trace@ =~= base);
                }
                if found {
                    proof {
                        lemma_candidate_found(
                            snake@,
                            size as int,
                            prefix,
                            d,
                            state.partial_solution@,
                        );
                    }
                    return true;
                }
                state.partial_solution.pop();
                proof {
                    assert(state.partial_solution@ =~= prefix);
                }
            } else {
                proof {
                    lemma_dead_end(snake@, size as int, prefix.push(d));
                }
            }
        } else {
            proof {
                lemma_dead_end(snake@, size as int, prefix.push(d));
            }
        }
        proof {
            lemma_candidate_fails(snake@, size as int, prefix, d);
        }
        r = r + 1;
    }
    proof {
        lemma_candidates_exhausted(snake@, size as int, prefix);
    }
    false
}

/// Folds `snake` into its cube by incremental search.
///
/// Returns the first solution in search order, or the reason why there is
/// none.
pub fn solve_fast(snake: &Vec<usize>) -> (r: Result<Vec<Direction>, SolveError>)
    ensures
        outcome(snake@, r),
{
    if !segments_positive(snake) {
        return Err(SolveError::MalformedInput);
    }
    let size: usize = match snake_size(snake) {
        Ok(size) => size,
        Err(e) => {
            return Err(e);
        },
    };
    if size > MAX_SIDE {
        proof {
            assert forall|other: Seq<Direction>| !#[trigger] is_solution(
                snake@,
                size as int,
                other,
            ) by {
                if is_solution(snake@, size as int, other) {
                    assert(snake@.len() == snake.len());
                    lemma_solvable_side_bound(snake@, size as int, other);
                }
            }
        }
        return Err(SolveError::NoSolutionFound);
    }
    let mut state = SearchState::new();
    if solve_fast_rec(snake, size, &mut state) {
        Ok(state.partial_solution)
    } else {
        Err(SolveError::NoSolutionFound)
    }
}

} // verus!
