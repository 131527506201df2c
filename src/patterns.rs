use vstd::prelude::*;
use std::collections::BTreeSet;
use crate::cell::{Cell, Point, pt};
use crate::life::{Grid, cells, lemma_cell_order};

verus! {

/// The points `offs` moved so that `(0, 0)` lands on `(x, y)`.
pub open spec fn placed(offs: Seq<Point>, x: int, y: int) -> Set<Point> {
    Set::new(|p: Point| offs.contains((p.0 - x, p.1 - y)))
}

pub open spec fn glider_offsets() -> Seq<Point> {
    seq![(1, 0), (2, 1), (0, 2), (1, 2), (2, 2)]
}

pub open spec fn blinker_offsets() -> Seq<Point> {
    seq![(0, 0), (1, 0), (2, 0)]
}

pub open spec fn block_offsets() -> Seq<Point> {
    seq![(0, 0), (1, 0), (0, 1), (1, 1)]
}

pub open spec fn toad_offsets() -> Seq<Point> {
    seq![(1, 0), (2, 0), (3, 0), (0, 1), (1, 1), (2, 1)]
}

pub open spec fn r_pentomino_offsets() -> Seq<Point> {
    seq![(1, 0), (2, 0), (0, 1), (1, 1), (1, 2)]
}

/// Gosper's glider gun: two blocks at the ends and the two shuttles between.
pub open spec fn gosper_glider_gun_offsets() -> Seq<Point> {
    seq![
        (0, 4), (0, 5), (1, 4), (1, 5),
        (10, 4), (10, 5), (10, 6), (11, 3), (11, 7), (12, 2), (12, 8), (13, 2), (13, 8),
        (14, 5), (15, 3), (15, 7), (16, 4), (16, 5), (16, 6), (17, 5),
        (20, 2), (20, 3), (20, 4), (21, 2), (21, 3), (21, 4), (22, 1), (22, 5),
        (24, 0), (24, 1), (24, 5), (24, 6),
        (34, 2), (34, 3), (35, 2), (35, 3),
    ]
}

/// The cells of `v` as a set.
fn collect_cells(v: Vec<Cell>) -> (r: Grid)
    ensures
        r@ == v@.to_set(),
{
    proof {
        lemma_cell_order();
    }
    let mut r: Grid = BTreeSet::new();
    let mut i: usize = 0;
    while i < v.len()
        invariant
            0 <= i <= v@.len(),
            forall|c: Cell| #[trigger] r@.contains(c) <==> exists|k: int| 0 <= k < i && v@[k] == c,
        decreases v@.len() - i,
    {
        let c = v[i];
        r.insert(c);
        proof {
            assert forall|d: Cell| #[trigger] r@.contains(d) <==> exists|k: int| 0 <= k < i + 1 && v@[k] == d by {
                if d == c {
                    assert(v@[i as int] == d);
                }
            }
        }
        i = i + 1;
    }
    proof {
        assert forall|c: Cell| #[trigger] r@.contains(c) <==> v@.to_set().contains(c) by {
            if v@.contains(c) {
                let k = choose|k: int| 0 <= k < v@.len() && v@[k] == c;
            }
        }
        assert(r@ =~= v@.to_set());
    }
    r
}

/// Cells listed as offsets moved to `(x, y)` make the placed shape.
proof fn lemma_placed(v: Seq<Cell>, offs: Seq<Point>, x: int, y: int)
    requires
        v.map_values(|c: Cell| pt(c)) == offs.map_values(|d: Point| (x + d.0, y + d.1)),
    ensures
        cells(v.to_set()) == placed(offs, x, y),
{
    let moved = offs.map_values(|d: Point| (x + d.0, y + d.1));
    assert(v.len() == offs.len()) by {
        assert(v.map_values(|c: Cell| pt(c)).len() == moved.len());
    }
    assert forall|p: Point| #[trigger] cells(v.to_set()).contains(p) implies placed(offs, x, y).contains(p) by {
        let c = (p.0 as i32, p.1 as i32);
        assert(v.contains(c));
        let k = choose|k: int| 0 <= k < v.len() && v[k] == c;
        assert(v.map_values(|c: Cell| pt(c))[k] == moved[k]);
        assert(offs[k] == (p.0 - x, p.1 - y));
    }
    assert forall|p: Point| #[trigger] placed(offs, x, y).contains(p) implies cells(v.to_set()).contains(p) by {
        let k = choose|k: int| 0 <= k < offs.len() && offs[k] == (p.0 - x, p.1 - y);
        assert(v.map_values(|c: Cell| pt(c))[k] == moved[k]);
        assert(pt(v[k]) == p);
        assert(v.to_set().contains(v[k]));
        assert((p.0 as i32, p.1 as i32) == v[k]);
    }
    assert(cells(v.to_set()) =~= placed(offs, x, y));
}

/// A glider with its bounding box's top left corner at `(x, y)`.
pub fn glider(x: i32, y: i32) -> (r: Grid)
    requires
        x <= i32::MAX - 2,
        y <= i32::MAX - 2,
    ensures
        cells(r@) == placed(glider_offsets(), x as int, y as int),
{
    let v = vec![(x + 1, y), (x + 2, y + 1), (x, y + 2), (x + 1, y + 2), (x + 2, y + 2)];
    proof {
        assert(v@.map_values(|c: Cell| pt(c)) =~= glider_offsets().map_values(|d: Point| (x + d.0, y + d.1)));
        lemma_placed(v@, glider_offsets(), x as int, y as int);
    }
    collect_cells(v)
}

/// A horizontal blinker of three cells starting at `(x, y)`.
pub fn blinker(x: i32, y: i32) -> (r: Grid)
    requires
        x <= i32::MAX - 2,
    ensures
        cells(r@) == placed(blinker_offsets(), x as int, y as int),
{
    let v = vec![(x, y), (x + 1, y), (x + 2, y)];
    proof {
        assert(v@.map_values(|c: Cell| pt(c)) =~= blinker_offsets().map_values(|d: Point| (x + d.0, y + d.1)));
        lemma_placed(v@, blinker_offsets(), x as int, y as int);
    }
    collect_cells(v)
}

/// A two by two block with its top left cell at `(x, y)`.
pub fn block(x: i32, y: i32) -> (r: Grid)
    requires
        x <= i32::MAX - 1,
        y <= i32::MAX - 1,
    ensures
        cells(r@) == placed(block_offsets(), x as int, y as int),
{
    let v = vec![(x, y), (x + 1, y), (x, y + 1), (x + 1, y + 1)];
    proof {
        assert(v@.map_values(|c: Cell| pt(c)) =~= block_offsets().map_values(|d: Point| (x + d.0, y + d.1)));
        lemma_placed(v@, block_offsets(), x as int, y as int);
    }
    collect_cells(v)
}

/// A toad with its bounding box's top left corner at `(x, y)`.
pub fn toad(x: i32, y: i32) -> (r: Grid)
    requires
        x <= i32::MAX - 3,
        y <= i32::MAX - 1,
    ensures
        cells(r@) == placed(toad_offsets(), x as int, y as int),
{
    let v = vec![(x + 1, y), (x + 2, y), (x + 3, y), (x, y + 1), (x + 1, y + 1), (x + 2, y + 1)];
    proof {
        assert(v@.map_values(|c: Cell| pt(c)) =~= toad_offsets().map_values(|d: Point| (x + d.0, y + d.1)));
        lemma_placed(v@, toad_offsets(), x as int, y as int);
    }
    collect_cells(v)
}

/// An R-pentomino with its bounding box's top left corner at `(x, y)`.
pub fn r_pentomino(x: i32, y: i32) -> (r: Grid)
    requires
        x <= i32::MAX - 2,
        y <= i32::MAX - 2,
    ensures
        cells(r@) == placed(r_pentomino_offsets(), x as int, y as int),
{
    let v = vec![(x + 1, y), (x + 2, y), (x, y + 1), (x + 1, y + 1), (x + 1, y + 2)];
    proof {
        assert(v@.map_values(|c: Cell| pt(c)) =~= r_pentomino_offsets().map_values(|d: Point| (x + d.0, y + d.1)));
        lemma_placed(v@, r_pentomino_offsets(), x as int, y as int);
    }
    collect_cells(v)
}

/// Gosper's glider gun with its bounding box's top left corner at `(x, y)`.
#[verifier::rlimit(50)]
pub fn gosper_glider_gun(x: i32, y: i32) -> (r: Grid)
    requires
        x <= i32::MAX - 35,
        y <= i32::MAX - 8,
    ensures
        cells(r@) == placed(gosper_glider_gun_offsets(), x as int, y as int),
{
    let v = vec![
        (x, y + 4), (x, y + 5), (x + 1, y + 4), (x + 1, y + 5),
        (x + 10, y + 4), (x + 10, y + 5), (x + 10, y + 6), (x + 11, y + 3), (x + 11, y + 7), (x + 12, y + 2), (x + 12, y + 8), (x + 13, y + 2), (x + 13, y + 8),
        (x + 14, y + 5), (x + 15, y + 3), (x + 15, y + 7), (x + 16, y + 4), (x + 16, y + 5), (x + 16, y + 6), (x + 17, y + 5),
        (x + 20, y + 2), (x + 20, y + 3), (x + 20, y + 4), (x + 21, y + 2), (x + 21, y + 3), (x + 21, y + 4), (x + 22, y + 1), (x + 22, y + 5),
        (x + 24, y), (x + 24, y + 1), (x + 24, y + 5), (x + 24, y + 6),
        (x + 34, y + 2), (x + 34, y + 3), (x + 35, y + 2), (x + 35, y + 3),
    ];
    proof {
        assert(v@.map_values(|c: Cell| pt(c)) =~= gosper_glider_gun_offsets().map_values(
            |d: Point| (x + d.0, y + d.1),
        ));
        lemma_placed(v@, gosper_glider_gun_offsets(), x as int, y as int);
    }
    collect_cells(v)
}

} // verus!
