//! What a search owes its caller: the first folding in the order in which
//! directions are tried, or the knowledge that there is none.

use crate::direction::{lemma_rank_names_direction, rank, Direction};
use crate::error::SolveError;
use crate::folding::{is_folding, is_solution, lemma_folding_prefix};
use crate::size::{is_side, lemma_side_unique};
use vstd::prelude::*;

verus! {

/// `dirs` begins with `prefix`.
pub open spec fn extends(dirs: Seq<Direction>, prefix: Seq<Direction>) -> bool {
    prefix.is_prefix_of(dirs)
}

/// `a` and `b` agree before place `i`, where `a` has the direction that is
/// tried first.
pub open spec fn earlier_at(a: Seq<Direction>, b: Seq<Direction>, i: int) -> bool {
    &&& 0 <= i < a.len()
    &&& i < b.len()
    &&& a.take(i) == b.take(i)
    &&& rank(a[i]) < rank(b[i])
}

/// A depth-first search that tries directions in rank order comes to `a` no
/// later than to `b`.
pub open spec fn precedes(a: Seq<Direction>, b: Seq<Direction>) -> bool {
    a == b || exists|i: int| earlier_at(a, b, i)
}

/// `sol` is the first solution, in search order, among those that begin with
/// `prefix`.
pub open spec fn first_solution_from(
    snake: Seq<usize>,
    size: int,
    prefix: Seq<Direction>,
    sol: Seq<Direction>,
) -> bool {
    &&& is_solution(snake, size, sol)
    &&& extends(sol, prefix)
    &&& forall|other: Seq<Direction>|
        #[trigger] is_solution(snake, size, other) && extends(other, prefix) ==> precedes(
            sol,
            other,
        )
}

/// No solution begins with `prefix`.
pub open spec fn no_solution_from(snake: Seq<usize>, size: int, prefix: Seq<Direction>) -> bool {
    forall|other: Seq<Direction>| #[trigger]
        is_solution(snake, size, other) ==> !extends(other, prefix)
}

/// No solution begins with `prefix` followed by a direction of rank below
/// `r`.
pub open spec fn none_before(
    snake: Seq<usize>,
    size: int,
    prefix: Seq<Direction>,
    r: int,
) -> bool {
    forall|other: Seq<Direction>|
        #[trigger] is_solution(snake, size, other) && extends(other, prefix) ==> rank(
            other[prefix.len() as int],
        ) >= r
}

/// `sol` is the first solution of all, in search order.
pub open spec fn first_solution(snake: Seq<usize>, size: int, sol: Seq<Direction>) -> bool {
    first_solution_from(snake, size, Seq::empty(), sol)
}

/// The snake cannot be folded into a cube of side `size`.
pub open spec fn unsolvable(snake: Seq<usize>, size: int) -> bool {
    forall|other: Seq<Direction>| !#[trigger] is_solution(snake, size, other)
}

/// Every segment has a length of at least one.
pub open spec fn all_positive(snake: Seq<usize>) -> bool {
    forall|i: int| 0 <= i < snake.len() ==> #[trigger] snake[i] > 0
}

/// `r` is what solving `snake` must return: the first solution in search
/// order where the snake can be folded, and otherwise the reason why it
/// cannot.
pub open spec fn outcome(snake: Seq<usize>, r: Result<Vec<Direction>, SolveError>) -> bool {
    match r {
        Err(SolveError::MalformedInput) => !all_positive(snake),
        Err(SolveError::InvalidSnakeLength) => all_positive(snake) && forall|n: int|
            !#[trigger] is_side(snake, n),
        Err(SolveError::NoSolutionFound) => all_positive(snake) && exists|n: int| #[trigger]
            is_side(snake, n) && unsolvable(snake, n),
        Ok(sol) => all_positive(snake) && exists|n: int| #[trigger]
            is_side(snake, n) && first_solution(snake, n, sol@),
    }
}

/// A complete folding is the first solution among those that begin with it.
pub proof fn lemma_solution_is_first_from_itself(
    snake: Seq<usize>,
    size: int,
    dirs: Seq<Direction>,
)
    requires
        is_solution(snake, size, dirs),
    ensures
        first_solution_from(snake, size, dirs, dirs),
{
    assert forall|other: Seq<Direction>|
        #[trigger] is_solution(snake, size, other) && extends(other, dirs) implies precedes(
        dirs,
        other,
    ) by {
        assert(other =~= other.subrange(0, dirs.len() as int));
    }
}

/// Nothing that begins with a failed folding is a solution.
pub proof fn lemma_dead_end(snake: Seq<usize>, size: int, prefix: Seq<Direction>)
    requires
        !is_folding(snake, size, prefix),
    ensures
        no_solution_from(snake, size, prefix),
{
    assert forall|other: Seq<Direction>| #[trigger]
        is_solution(snake, size, other) implies !extends(other, prefix) by {
        if extends(other, prefix) {
            lemma_folding_prefix(snake, size, other, prefix.len());
        }
    }
}

/// Where the candidate of rank `r` leads to no solution, the first solution
/// lies behind a later candidate.
pub proof fn lemma_candidate_fails(
    snake: Seq<usize>,
    size: int,
    prefix: Seq<Direction>,
    d: Direction,
)
    requires
        prefix.len() < snake.len(),
        none_before(snake, size, prefix, rank(d)),
        no_solution_from(snake, size, prefix.push(d)),
    ensures
        none_before(snake, size, prefix, rank(d) + 1),
{
    assert forall|other: Seq<Direction>|
        #[trigger] is_solution(snake, size, other) && extends(other, prefix) implies rank(
        other[prefix.len() as int],
    ) >= rank(d) + 1 by {
        let k = prefix.len() as int;
        if rank(other[k]) == rank(d) {
            lemma_rank_names_direction(other[k], d);
        }
    }
}

/// The first solution behind the first candidate that leads to one is the
/// first solution of the node.
pub proof fn lemma_candidate_found(
    snake: Seq<usize>,
    size: int,
    prefix: Seq<Direction>,
    d: Direction,
    sol: Seq<Direction>,
)
    requires
        prefix.len() < snake.len(),
        none_before(snake, size, prefix, rank(d)),
        first_solution_from(snake, size, prefix.push(d), sol),
    ensures
        first_solution_from(snake, size, prefix, sol),
{
    let k = prefix.len() as int;
    assert(prefix =~= sol.subrange(0, k));
    assert(sol[k] == d) by {
        assert(prefix.push(d)[k] == sol.subrange(0, k + 1)[k]);
    }
    assert forall|other: Seq<Direction>|
        #[trigger] is_solution(snake, size, other) && extends(other, prefix) implies precedes(
        sol,
        other,
    ) by {
        if rank(other[k]) == rank(d) {
            lemma_rank_names_direction(other[k], d);
        } else {
            assert(earlier_at(sol, other, k));
        }
    }
}

/// Where no candidate leads to a solution, the node has none.
pub proof fn lemma_candidates_exhausted(snake: Seq<usize>, size: int, prefix: Seq<Direction>)
    requires
        prefix.len() < snake.len(),
        none_before(snake, size, prefix, 6),
    ensures
        no_solution_from(snake, size, prefix),
{
    assert forall|other: Seq<Direction>| #[trigger]
        is_solution(snake, size, other) implies !extends(other, prefix) by {
        lemma_rank_names_direction(other[prefix.len() as int], other[prefix.len() as int]);
    }
}

/// Two sequences of which each precedes the other are the same.
pub proof fn lemma_precedes_both_ways(a: Seq<Direction>, b: Seq<Direction>)
    requires
        precedes(a, b),
        precedes(b, a),
    ensures
        a == b,
{
    if a != b {
        let i = choose|i: int| earlier_at(a, b, i);
        let j = choose|j: int| earlier_at(b, a, j);
        if i < j {
            assert(b.take(j)[i] == a.take(j)[i]);
        } else if j < i {
            assert(a.take(i)[j] == b.take(i)[j]);
        }
    }
}

/// A snake has one outcome: two results that both meet the contract of a
/// search are the same error, or hold the same solution.
pub proof fn lemma_outcome_unique(
    snake: Seq<usize>,
    r1: Result<Vec<Direction>, SolveError>,
    r2: Result<Vec<Direction>, SolveError>,
)
    requires
        outcome(snake, r1),
        outcome(snake, r2),
    ensures
        r1 is Ok <==> r2 is Ok,
        r1 is Err ==> r1 == r2,
        r1 is Ok ==> r1->Ok_0@ == r2->Ok_0@,
{
    if all_positive(snake) && exists|n: int| is_side(snake, n) {
        let n = choose|n: int| is_side(snake, n);
        assert forall|m: int| #[trigger] is_side(snake, m) implies m == n by {
            lemma_side_unique(snake, m, n);
        }
        if r1 is Ok && r2 is Ok {
            let s1 = r1->Ok_0@;
            let s2 = r2->Ok_0@;
            lemma_precedes_both_ways(s1, s2);
        }
    }
}

} // verus!
