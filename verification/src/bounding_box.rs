//! The bounding box of a sequence of cells, and how it decides whether the
//! cells lie in a cube.

use crate::folding::{fits, near};
use crate::geometry::{point, Point};
use vstd::prelude::*;

verus! {

/// The corner of the bounding box with the least coordinates.
pub open spec fn meet(p: Point, q: Point) -> Point {
    Point {
        x: if p.x <= q.x { p.x } else { q.x },
        y: if p.y <= q.y { p.y } else { q.y },
        z: if p.z <= q.z { p.z } else { q.z },
    }
}

/// The corner of the bounding box with the greatest coordinates.
pub open spec fn join(p: Point, q: Point) -> Point {
    Point {
        x: if p.x >= q.x { p.x } else { q.x },
        y: if p.y >= q.y { p.y } else { q.y },
        z: if p.z >= q.z { p.z } else { q.z },
    }
}

/// The least coordinate of the cells on each axis.
pub open spec fn lowest(cells: Seq<Point>) -> Point
    decreases cells.len(),
{
    if cells.len() <= 1 {
        cells[0]
    } else {
        meet(lowest(cells.drop_last()), cells.last())
    }
}

/// The greatest coordinate of the cells on each axis.
pub open spec fn highest(cells: Seq<Point>) -> Point
    decreases cells.len(),
{
    if cells.len() <= 1 {
        cells[0]
    } else {
        join(highest(cells.drop_last()), cells.last())
    }
}

/// The position with the lesser coordinate of the two on each axis.
pub fn lower(a: [isize; 3], b: [isize; 3]) -> (v: [isize; 3])
    ensures
        point(v) == meet(point(a), point(b)),
{
    [
        if a[0] <= b[0] { a[0] } else { b[0] },
        if a[1] <= b[1] { a[1] } else { b[1] },
        if a[2] <= b[2] { a[2] } else { b[2] },
    ]
}

/// The position with the greater coordinate of the two on each axis.
pub fn upper(a: [isize; 3], b: [isize; 3]) -> (v: [isize; 3])
    ensures
        point(v) == join(point(a), point(b)),
{
    [
        if a[0] >= b[0] { a[0] } else { b[0] },
        if a[1] >= b[1] { a[1] } else { b[1] },
        if a[2] >= b[2] { a[2] } else { b[2] },
    ]
}

/// Whether the box from `lo` to `hi` spans less than `size` on every axis.
pub fn spans_less(lo: &[isize; 3], hi: &[isize; 3], size: usize) -> (ok: bool)
    requires
        size <= isize::MAX,
        point(*hi).x - point(*lo).x <= isize::MAX,
        point(*hi).y - point(*lo).y <= isize::MAX,
        point(*hi).z - point(*lo).z <= isize::MAX,
        point(*lo).x <= point(*hi).x,
        point(*lo).y <= point(*hi).y,
        point(*lo).z <= point(*hi).z,
    ensures
        ok == near(point(*hi), point(*lo), size as int),
{
    let side: isize = size as isize;
    hi[0] - lo[0] < side && hi[1] - lo[1] < side && hi[2] - lo[2] < side
}

/// Every cell lies between the two corners of the bounding box.
pub proof fn lemma_box_holds_cells(cells: Seq<Point>, i: int)
    requires
        0 <= i < cells.len(),
    ensures
        lowest(cells).x <= cells[i].x <= highest(cells).x,
        lowest(cells).y <= cells[i].y <= highest(cells).y,
        lowest(cells).z <= cells[i].z <= highest(cells).z,
    decreases cells.len(),
{
    if cells.len() > 1 && i < cells.len() - 1 {
        lemma_box_holds_cells(cells.drop_last(), i);
    }
}

/// The bounding box spans less than `size` on every axis exactly when every
/// two cells are less than `size` apart.
pub proof fn lemma_fits_is_extent(cells: Seq<Point>, size: int)
    requires
        cells.len() >= 1,
    ensures
        fits(cells, size) <==> near(highest(cells), lowest(cells), size),
    decreases cells.len(),
{
    if near(highest(cells), lowest(cells), size) {
        assert forall|i: int, j: int| 0 <= i < cells.len() && 0 <= j < cells.len() implies #[trigger] near(
            cells[i],
            cells[j],
            size,
        ) by {
            lemma_box_holds_cells(cells, i);
            lemma_box_holds_cells(cells, j);
        }
    }
    if fits(cells, size) {
        let w = lemma_box_touches_cells(cells);
        assert(near(cells[w.3], cells[w.0], size));
        assert(near(cells[w.4], cells[w.1], size));
        assert(near(cells[w.5], cells[w.2], size));
    }
}

/// Each face of the bounding box holds a cell: the result names, for x, y and
/// z, first a cell with the least coordinate and then one with the greatest.
pub proof fn lemma_box_touches_cells(cells: Seq<Point>) -> (w: (int, int, int, int, int, int))
    requires
        cells.len() >= 1,
    ensures
        0 <= w.0 < cells.len() && cells[w.0].x == lowest(cells).x,
        0 <= w.1 < cells.len() && cells[w.1].y == lowest(cells).y,
        0 <= w.2 < cells.len() && cells[w.2].z == lowest(cells).z,
        0 <= w.3 < cells.len() && cells[w.3].x == highest(cells).x,
        0 <= w.4 < cells.len() && cells[w.4].y == highest(cells).y,
        0 <= w.5 < cells.len() && cells[w.5].z == highest(cells).z,
    decreases cells.len(),
{
    if cells.len() == 1 {
        (0, 0, 0, 0, 0, 0)
    } else {
        let v = lemma_box_touches_cells(cells.drop_last());
        let last = cells.len() - 1;
        let lo = lowest(cells.drop_last());
        let hi = highest(cells.drop_last());
        let c = cells.last();
        (
            if lo.x <= c.x { v.0 } else { last },
            if lo.y <= c.y { v.1 } else { last },
            if lo.z <= c.z { v.2 } else { last },
            if hi.x >= c.x { v.3 } else { last },
            if hi.y >= c.y { v.4 } else { last },
            if hi.z >= c.z { v.5 } else { last },
        )
    }
}

/// Adding a cell moves each corner of the bounding box only as far as that
/// cell.
pub proof fn lemma_box_push(cells: Seq<Point>, c: Point)
    requires
        cells.len() >= 1,
    ensures
        lowest(cells.push(c)) == meet(lowest(cells), c),
        highest(cells.push(c)) == join(highest(cells), c),
{
    assert(cells.push(c).drop_last() =~= cells);
}

/// A cell can follow a placement exactly when it is new and the bounding box
/// grown by it still spans less than `size`.
pub proof fn lemma_placement_push(cells: Seq<Point>, c: Point, size: int)
    requires
        cells.len() >= 1,
        cells.no_duplicates(),
        fits(cells, size),
    ensures
        (cells.push(c).no_duplicates() && fits(cells.push(c), size)) <==> (!cells.contains(c)
            && near(join(highest(cells), c), meet(lowest(cells), c), size)),
{
    let next = cells.push(c);
    lemma_box_push(cells, c);
    lemma_fits_is_extent(next, size);
    if cells.contains(c) {
        let i = choose|i: int| 0 <= i < cells.len() && cells[i] == c;
        assert(next[i] == next[cells.len() as int]);
    } else {
    }
}

} // verus!
