//! Lattice points and the vector operations on them.

use crate::direction::{Direction, Orientation, Sign};
use vstd::prelude::*;

verus! {

/// A lattice point with unbounded coordinates: the mathematical value of a
/// position.
pub struct Point {
    pub x: int,
    pub y: int,
    pub z: int,
}

impl Point {
    /// Where the head of the snake lies.
    pub open spec fn origin() -> Point {
        Point { x: 0, y: 0, z: 0 }
    }

    /// The sum of two vectors.
    pub open spec fn plus(self, other: Point) -> Point {
        Point { x: self.x + other.x, y: self.y + other.y, z: self.z + other.z }
    }

    /// The vector stretched by the factor `s`.
    pub open spec fn times(self, s: int) -> Point {
        Point { x: s * self.x, y: s * self.y, z: s * self.z }
    }

    /// Every coordinate can be held in an `isize`.
    pub open spec fn representable(self) -> bool {
        &&& isize::MIN <= self.x <= isize::MAX
        &&& isize::MIN <= self.y <= isize::MAX
        &&& isize::MIN <= self.z <= isize::MAX
    }
}

/// The point that a position stands for.
pub open spec fn point(p: [isize; 3]) -> Point {
    Point { x: p[0] as int, y: p[1] as int, z: p[2] as int }
}

/// The unit vector of an axis: front is x, right is y, up is z.
pub open spec fn unit(o: Orientation) -> Point {
    match o {
        Orientation::Front => Point { x: 1, y: 0, z: 0 },
        Orientation::Right => Point { x: 0, y: 1, z: 0 },
        Orientation::Up => Point { x: 0, y: 0, z: 1 },
    }
}

/// The point reached from `p` after `n` unit steps in direction `d`.
pub open spec fn advance(p: Point, d: Direction, n: int) -> Point {
    let m = match d.sign {
        Sign::Positive => n,
        Sign::Negative => -n,
    };
    match d.orientation {
        Orientation::Front => Point { x: p.x + m, y: p.y, z: p.z },
        Orientation::Right => Point { x: p.x, y: p.y + m, z: p.z },
        Orientation::Up => Point { x: p.x, y: p.y, z: p.z + m },
    }
}

/// The unit vector of an axis.
pub fn delta_orientation(o: &Orientation) -> (v: [isize; 3])
    ensures
        point(v) == unit(*o),
{
    match o {
        Orientation::Front => [1, 0, 0],
        Orientation::Right => [0, 1, 0],
        Orientation::Up => [0, 0, 1],
    }
}

/// The sum of two vectors, where it can be held in `isize` coordinates.
pub fn add(a: [isize; 3], b: [isize; 3]) -> (v: [isize; 3])
    requires
        point(a).plus(point(b)).representable(),
    ensures
        point(v) == point(a).plus(point(b)),
{
    [a[0] + b[0], a[1] + b[1], a[2] + b[2]]
}

/// The vector `a` stretched by the factor `s`, where it can be held in
/// `isize` coordinates.
pub fn scale(s: isize, a: [isize; 3]) -> (v: [isize; 3])
    requires
        point(a).times(s as int).representable(),
    ensures
        point(v) == point(a).times(s as int),
{
    [s * a[0], s * a[1], s * a[2]]
}

/// Whether two positions are the same lattice cell.
pub fn same_position(a: &[isize; 3], b: &[isize; 3]) -> (r: bool)
    ensures
        r == (point(*a) == point(*b)),
{
    a[0] == b[0] && a[1] == b[1] && a[2] == b[2]
}

/// The points that a sequence of positions stands for.
pub open spec fn points(positions: Seq<[isize; 3]>) -> Seq<Point> {
    positions.map_values(|p: [isize; 3]| point(p))
}

/// One step from `p` in direction `d`.
pub fn step(p: [isize; 3], d: Direction) -> (v: [isize; 3])
    requires
        advance(point(p), d, 1).representable(),
    ensures
        point(v) == advance(point(p), d, 1),
{
    self::add(p, scale(d.sign.value(), delta_orientation(&d.orientation)))
}

/// Steps in one direction add up.
pub proof fn lemma_advance_adds(p: Point, d: Direction, m: int, n: int)
    ensures
        advance(advance(p, d, m), d, n) == advance(p, d, m + n),
        advance(p, d, 0) == p,
{
}

} // verus!
