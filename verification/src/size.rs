//! The side of the cube that a snake is meant to fill.

use crate::error::SolveError;
use vstd::prelude::*;

verus! {

/// The sum of the segment lengths.
pub open spec fn segments_sum(snake: Seq<usize>) -> nat
    decreases snake.len(),
{
    if snake.len() == 0 {
        0
    } else {
        segments_sum(snake.drop_last()) + snake.last() as nat
    }
}

/// The number of lattice cells that the snake occupies: one more than the sum
/// of its segment lengths.
pub open spec fn total_length(snake: Seq<usize>) -> nat {
    segments_sum(snake) + 1
}

/// The number of cells of a cube of side `n`.
pub open spec fn cube(n: int) -> int {
    n * n * n
}

/// `n` is the side of the cube that holds exactly the cells of `snake`.
pub open spec fn is_side(snake: Seq<usize>, n: int) -> bool {
    0 <= n && cube(n) == total_length(snake)
}

/// Larger numbers have larger cubes.
pub proof fn lemma_cube_increases(a: int, b: int)
    requires
        0 <= a < b,
    ensures
        cube(a) < cube(b),
{
    assert(a * a * a < b * b * b) by (nonlinear_arith)
        requires
            0 <= a < b,
    ;
}

/// A snake has at most one side.
pub proof fn lemma_side_unique(snake: Seq<usize>, m: int, n: int)
    requires
        is_side(snake, m),
        is_side(snake, n),
    ensures
        m == n,
{
    if m < n {
        lemma_cube_increases(m, n);
    } else if n < m {
        lemma_cube_increases(n, m);
    }
}

/// A sum of `usize` lengths is at most as many times `usize::MAX`.
pub proof fn lemma_sum_bound(snake: Seq<usize>)
    ensures
        segments_sum(snake) <= snake.len() * usize::MAX,
    decreases snake.len(),
{
    if snake.len() > 0 {
        lemma_sum_bound(snake.drop_last());
        let n = snake.len() as int;
        let m = usize::MAX as int;
        assert((n - 1) * m + m == n * m) by (nonlinear_arith);
    }
}

/// The cube of a number above `isize::MAX` is more than any snake can hold.
proof fn lemma_side_is_small(n: int, len: int)
    requires
        0 <= n,
        0 <= len <= usize::MAX,
        cube(n) <= len * usize::MAX + 1,
    ensures
        n <= isize::MAX,
{
    let h = isize::MAX as int + 1;
    let m = usize::MAX as int;
    if n >= h {
        assert(n * n * n >= h * h * h) by (nonlinear_arith)
            requires
                n >= h >= 0,
        ;
        assert(h * h * h > (2 * h - 1) * (2 * h - 1) + 1) by (nonlinear_arith)
            requires
                h >= 4,
        ;
        assert(len * m <= m * m) by (nonlinear_arith)
            requires
                0 <= len <= m,
        ;
    }
}

/// The number of cells of the snake.
pub fn snake_length(snake: &Vec<usize>) -> (length: u128)
    ensures
        length == total_length(snake@),
{
    let mut sum: u128 = 0;
    let mut i: usize = 0;
    while i < snake.len()
        invariant
            i <= snake.len(),
            sum == segments_sum(snake@.take(i as int)),
        decreases snake.len() - i,
    {
        proof {
            let next = snake@.take(i + 1);
            assert(next.drop_last() == snake@.take(i as int));
            lemma_sum_bound(next);
            assert(next.len() * usize::MAX <= usize::MAX * usize::MAX) by (nonlinear_arith)
                requires
                    0 <= next.len() <= usize::MAX,
            ;
        }
        sum = sum + snake[i] as u128;
        i = i + 1;
    }
    proof {
        assert(snake@.take(i as int) == snake@);
        lemma_sum_bound(snake@);
        assert(snake.len() * usize::MAX <= usize::MAX * usize::MAX) by (nonlinear_arith)
            requires
                0 <= snake.len() <= usize::MAX,
        ;
    }
    sum + 1
}

/// The largest number whose cube is at most `v`.
pub fn floor_cube_root(v: u128) -> (root: u128)
    ensures
        cube(root as int) <= v < cube(root + 1),
        root < 0x800_0000_0000,
{
    let mut lo: u128 = 0;
    let mut hi: u128 = 0x800_0000_0000;
    while hi - lo > 1
        invariant
            lo < hi <= 0x800_0000_0000,
            cube(lo as int) <= v < cube(hi as int),
        decreases hi - lo,
    {
        let mid: u128 = lo + (hi - lo) / 2;
        assert(mid * mid < 0x40_0000_0000_0000_0000_0000) by (nonlinear_arith)
            requires
                mid < 0x800_0000_0000,
        ;
        let square: u128 = mid * mid;
        let below = match square.checked_mul(mid) {
            Some(c) => c <= v,
            None => false,
        };
        if below {
            lo = mid;
        } else {
            hi = mid;
        }
    }
    lo
}

/// The side of the cube that the snake fills.
///
/// Where the number of cells of the snake is the cube of some `n`, the result
/// is that `n`; where it is no cube, the result is `InvalidSnakeLength`. The
/// number is found and compared in whole numbers, so that no length is
/// mistaken for its neighbour.
pub fn snake_size(snake: &Vec<usize>) -> (r: Result<usize, SolveError>)
    ensures
        forall|n: int| #[trigger] is_side(snake@, n) ==> r == Ok::<usize, SolveError>(n as usize),
        r is Ok ==> is_side(snake@, r->Ok_0 as int),
        r is Ok ==> 1 <= r->Ok_0 <= isize::MAX,
        r is Err ==> r->Err_0 == SolveError::InvalidSnakeLength,
        r is Err ==> forall|n: int| !#[trigger] is_side(snake@, n),
{
    let length = snake_length(snake);
    let root = floor_cube_root(length);
    proof {
        lemma_sum_bound(snake@);
        lemma_side_is_small(root as int, snake.len() as int);
        if root == 0 {
            assert(cube(1) == 1);
        }
        assert(root * root < 0x40_0000_0000_0000_0000_0000) by (nonlinear_arith)
            requires
                root < 0x800_0000_0000,
        ;
    }
    if root * root * root == length {
        proof {
            assert forall|n: int| #[trigger] is_side(snake@, n) implies n == root by {
                lemma_side_unique(snake@, n, root as int);
            }
        }
        Ok(root as usize)
    } else {
        proof {
            assert forall|n: int| !is_side(snake@, n) by {
                if 0 <= n < root {
                    lemma_cube_increases(n, root as int);
                } else if n > root + 1 {
                    lemma_cube_increases(root + 1, n);
                }
            }
        }
        Err(SolveError::InvalidSnakeLength)
    }
}

} // verus!
