use vstd::prelude::*;

verus! {

/// A cell of the grid, as `(x, y)`.
pub type Cell = (i32, i32);

/// A point of the mathematical (unbounded) grid.
pub type Point = (int, int);

/// The point that a cell stands for.
pub open spec fn pt(c: Cell) -> Point {
    (c.0 as int, c.1 as int)
}

/// Whether a value lies in the range of `i32`.
pub open spec fn fits(v: int) -> bool {
    i32::MIN <= v <= i32::MAX
}

/// Offsets of the eight neighbors, in the order in which they are listed.
pub open spec fn offsets() -> Seq<Point> {
    seq![(-1, -1), (0, -1), (1, -1), (-1, 0), (1, 0), (-1, 1), (0, 1), (1, 1)]
}

/// The eight neighbors of `p`, row by row from the top left.
pub open spec fn neighbor_points(p: Point) -> Seq<Point> {
    offsets().map_values(|d: Point| (p.0 + d.0, p.1 + d.1))
}

/// Two distinct points that touch, orthogonally or diagonally.
pub open spec fn adjacent(p: Point, q: Point) -> bool {
    p != q && -1 <= p.0 - q.0 <= 1 && -1 <= p.1 - q.1 <= 1
}

/// The eight neighbors of `(x, y)`.
pub fn neighbors(x: i32, y: i32) -> (r: Vec<Cell>)
    requires
        i32::MIN < x < i32::MAX,
        i32::MIN < y < i32::MAX,
    ensures
        r@.len() == 8,
        forall|i: int| 0 <= i < 8 ==> #[trigger] pt(r@[i]) == neighbor_points((x as int, y as int))[i],
{
    let r = vec![
        (x - 1, y - 1), (x, y - 1), (x + 1, y - 1),
        (x - 1, y), (x + 1, y),
        (x - 1, y + 1), (x, y + 1), (x + 1, y + 1),
    ];
    proof {
        assert forall|i: int| 0 <= i < 8 implies #[trigger] pt(r@[i]) == neighbor_points(
            (x as int, y as int),
        )[i] by {
            assert(neighbor_points((x as int, y as int))[i] == (x + offsets()[i].0, y + offsets()[i].1));
        }
    }
    r
}

} // verus!
