//! Orientations, signs and directions: the six ways a segment can be laid.

use vstd::prelude::*;

verus! {

/// One of the three lattice axes a segment can run along.
#[derive(Clone, Copy, Debug, PartialEq, Eq, Structural)]
pub enum Orientation {
    Up,
    Front,
    Right,
}

/// The sense in which a segment runs along its axis.
#[derive(Clone, Copy, Debug, PartialEq, Eq, Structural)]
pub enum Sign {
    Positive,
    Negative,
}

/// The placement chosen for one segment: an axis and a sense along it.
///
/// Every value of this type is one of the six legal directions; a sign other
/// than plus or minus one cannot be written down.
#[derive(Clone, Copy, Debug, PartialEq, Eq, Structural)]
pub struct Direction {
    pub orientation: Orientation,
    pub sign: Sign,
}

impl Sign {
    /// The sign as a number: `1` or `-1`.
    pub open spec fn as_int(self) -> int {
        match self {
            Sign::Positive => 1,
            Sign::Negative => -1,
        }
    }

    /// The sign as a number: `1` or `-1`.
    pub fn value(self) -> (v: isize)
        ensures
            v == self.as_int(),
    {
        match self {
            Sign::Positive => 1,
            Sign::Negative => -1,
        }
    }
}

/// The label under which a direction is shown.
pub open spec fn label(d: Direction) -> Seq<char> {
    match (d.orientation, d.sign) {
        (Orientation::Up, Sign::Positive) => "up"@,
        (Orientation::Up, Sign::Negative) => "down"@,
        (Orientation::Front, Sign::Positive) => "front"@,
        (Orientation::Front, Sign::Negative) => "back"@,
        (Orientation::Right, Sign::Positive) => "right"@,
        (Orientation::Right, Sign::Negative) => "left"@,
    }
}

/// The place of a direction in the order in which the searches try them:
/// front, back, right, left, up, down.
pub open spec fn rank(d: Direction) -> int {
    match (d.orientation, d.sign) {
        (Orientation::Front, Sign::Positive) => 0,
        (Orientation::Front, Sign::Negative) => 1,
        (Orientation::Right, Sign::Positive) => 2,
        (Orientation::Right, Sign::Negative) => 3,
        (Orientation::Up, Sign::Positive) => 4,
        (Orientation::Up, Sign::Negative) => 5,
    }
}

/// The segment laid in place `i` leaves the axis of the one before it.
pub open spec fn turns_at(dirs: Seq<Direction>, i: int) -> bool {
    dirs[i].orientation != dirs[i - 1].orientation
}

/// Consecutive directions never share an axis: the snake turns at every joint.
pub open spec fn turns(dirs: Seq<Direction>) -> bool {
    forall|i: int| 0 < i < dirs.len() ==> #[trigger] turns_at(dirs, i)
}

impl Direction {
    /// The direction along `orientation` in the sense of `sign`.
    pub fn new(orientation: Orientation, sign: Sign) -> (d: Direction)
        ensures
            d == (Direction { orientation, sign }),
    {
        Direction { orientation, sign }
    }

    /// One of `up`, `down`, `front`, `back`, `right`, `left`.
    pub fn to_string(&self) -> (s: &'static str)
        ensures
            s@ == label(*self),
    {
        match (self.orientation, self.sign) {
            (Orientation::Up, Sign::Positive) => "up",
            (Orientation::Up, Sign::Negative) => "down",
            (Orientation::Front, Sign::Positive) => "front",
            (Orientation::Front, Sign::Negative) => "back",
            (Orientation::Right, Sign::Positive) => "right",
            (Orientation::Right, Sign::Negative) => "left",
        }
    }
}

/// Whether two orientations are different axes.
pub fn orthogonal(o1: &Orientation, o2: &Orientation) -> (r: bool)
    ensures
        r == (*o1 != *o2),
{
    o1 != o2
}

/// The direction tried in place `r` of the search order.
pub fn candidate(r: usize) -> (d: Direction)
    requires
        r < 6,
    ensures
        rank(d) == r,
{
    let orientation = if r < 2 {
        Orientation::Front
    } else if r < 4 {
        Orientation::Right
    } else {
        Orientation::Up
    };
    let sign = if r % 2 == 0 {
        Sign::Positive
    } else {
        Sign::Negative
    };
    Direction { orientation, sign }
}

/// The search order names each direction once.
pub proof fn lemma_rank_names_direction(a: Direction, b: Direction)
    ensures
        0 <= rank(a) < 6,
        rank(a) == rank(b) ==> a == b,
{
}

/// A sequence that turns at every joint still does when cut short.
pub proof fn lemma_turns_prefix(dirs: Seq<Direction>, k: int)
    requires
        turns(dirs),
        0 <= k <= dirs.len(),
    ensures
        turns(dirs.take(k)),
{
    assert forall|i: int| 0 < i < dirs.take(k).len() implies #[trigger] turns_at(dirs.take(k), i) by {
        assert(turns_at(dirs, i));
    }
}

/// Appending a direction keeps the turns exactly when it leaves the last axis.
pub proof fn lemma_turns_push(dirs: Seq<Direction>, d: Direction)
    requires
        turns(dirs),
    ensures
        turns(dirs.push(d)) <==> (dirs.len() == 0 || dirs.last().orientation != d.orientation),
{
    let ext = dirs.push(d);
    if dirs.len() == 0 || dirs.last().orientation != d.orientation {
        assert forall|i: int| 0 < i < ext.len() implies #[trigger] turns_at(ext, i) by {
            if i < dirs.len() {
                assert(turns_at(dirs, i));
            }
        }
    } else {
        assert(!turns_at(ext, dirs.len() as int));
    }
}

/// The labels of the directions, in order, with a comma between neighbours.
pub open spec fn joined_labels(dirs: Seq<Direction>) -> Seq<char>
    decreases dirs.len(),
{
    if dirs.len() == 0 {
        Seq::empty()
    } else if dirs.len() == 1 {
        label(dirs[0])
    } else {
        joined_labels(dirs.drop_last()) + seq![','] + label(dirs.last())
    }
}

/// The text under which a folding is shown: the labels of its directions,
/// separated by commas.
pub fn format_solution(solution: &Vec<Direction>) -> (text: String)
    ensures
        text@ == joined_labels(solution@),
{
    let mut text = String::new();
    let mut i: usize = 0;
    while i < solution.len()
        invariant
            i <= solution.len(),
            text@ == joined_labels(solution@.take(i as int)),
        decreases solution.len() - i,
    {
        proof {
            reveal_strlit(",");
            let next = solution@.take(i + 1);
            assert(next.drop_last() =~= solution@.take(i as int));
        }
        if i > 0 {
            text.append(",");
        }
        text.append(solution[i].to_string());
        i = i + 1;
    }
    proof {
        assert(solution@.take(i as int) =~= solution@);
    }
    text
}

} // verus!
