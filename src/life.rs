use vstd::prelude::*;
use std::collections::BTreeSet;
use vstd::std_specs::iter::IteratorSpec;
use crate::cell::{Cell, Point, pt, fits, offsets, neighbor_points, adjacent, neighbors};

verus! {

/// The live-set: every cell that is currently alive.
pub type Grid = BTreeSet<Cell>;

/// The points that a set of cells stands for.
pub open spec fn cells(g: Set<Cell>) -> Set<Point> {
    Set::new(|p: Point| fits(p.0) && fits(p.1) && g.contains((p.0 as i32, p.1 as i32)))
}

/// A cell far enough from the edge of `i32` that its neighbors' neighbors fit.
pub open spec fn roomy(c: Cell) -> bool {
    i32::MIN + 2 <= c.0 <= i32::MAX - 2 && i32::MIN + 2 <= c.1 <= i32::MAX - 2
}

/// Every cell of the grid is `roomy`.
pub open spec fn all_roomy(g: Set<Cell>) -> bool {
    forall|c: Cell| #[trigger] g.contains(c) ==> roomy(c)
}

/// Cells are ordered as std's `Ord` on pairs says, which the set relies on.
pub proof fn lemma_cell_order()
    ensures
        vstd::laws_cmp::obeys_cmp::<Cell>(),
{
    assert(vstd::laws_cmp::obeys_cmp::<i32>());
}

/// A cell is alive exactly when the point that it stands for is.
pub proof fn lemma_cells_pt(g: Set<Cell>, c: Cell)
    ensures
        #[trigger] cells(g).contains(pt(c)) == g.contains(c),
{
    let p = pt(c);
    assert((p.0 as i32, p.1 as i32) == c);
}

/// 1 if `(x, y)` is alive, else 0.
pub open spec fn alive_at(s: Set<Point>, x: int, y: int) -> nat {
    if s.contains((x, y)) { 1 } else { 0 }
}

/// How many of the eight neighbors of `p` are alive.
pub open spec fn live_neighbors(s: Set<Point>, p: Point) -> nat {
    alive_at(s, p.0 - 1, p.1 - 1) + alive_at(s, p.0, p.1 - 1) + alive_at(s, p.0 + 1, p.1 - 1)
        + alive_at(s, p.0 - 1, p.1) + alive_at(s, p.0 + 1, p.1)
        + alive_at(s, p.0 - 1, p.1 + 1) + alive_at(s, p.0, p.1 + 1) + alive_at(s, p.0 + 1, p.1 + 1)
}

/// The rule: a live cell survives with 2 or 3 live neighbors, a dead one is
/// born with exactly 3.
pub open spec fn lives_on(alive: bool, n: nat) -> bool {
    if alive { n == 2 || n == 3 } else { n == 3 }
}

/// The next generation of the live-set `s`.
pub open spec fn next_gen(s: Set<Point>) -> Set<Point> {
    Set::new(|p: Point| lives_on(s.contains(p), live_neighbors(s, p)))
}

/// The cells that may be alive in the next generation: the live ones and
/// those that touch one.
pub open spec fn candidates(s: Set<Point>) -> Set<Point> {
    Set::new(|p: Point| s.contains(p) || exists|q: Point| s.contains(q) && adjacent(p, q))
}

/// How many points of `ps` are alive.
pub open spec fn count_alive(s: Set<Point>, ps: Seq<Point>) -> nat
    decreases ps.len(),
{
    if ps.len() == 0 {
        0
    } else {
        count_alive(s, ps.drop_last()) + if s.contains(ps.last()) { 1nat } else { 0nat }
    }
}

proof fn lemma_count_neighbors(s: Set<Point>, p: Point)
    ensures
        count_alive(s, neighbor_points(p)) == live_neighbors(s, p),
{
    let ps = neighbor_points(p);
    reveal_with_fuel(count_alive, 9);
    assert(ps.drop_last().drop_last().drop_last().drop_last().drop_last().drop_last().drop_last().drop_last().len() == 0);
    assert(ps[0] == (p.0 - 1, p.1 - 1));
    assert(ps[1] == (p.0, p.1 - 1));
    assert(ps[2] == (p.0 + 1, p.1 - 1));
    assert(ps[3] == (p.0 - 1, p.1));
    assert(ps[4] == (p.0 + 1, p.1));
    assert(ps[5] == (p.0 - 1, p.1 + 1));
    assert(ps[6] == (p.0, p.1 + 1));
    assert(ps[7] == (p.0 + 1, p.1 + 1));
}

/// How many of the eight neighbors of `cell` are alive in `grid`.
pub fn count_live_neighbors(grid: &Grid, cell: &Cell) -> (r: usize)
    requires
        i32::MIN < cell.0 < i32::MAX,
        i32::MIN < cell.1 < i32::MAX,
    ensures
        r == live_neighbors(cells(grid@), pt(*cell)),
{
    proof {
        lemma_cell_order();
    }
    let ns = neighbors(cell.0, cell.1);
    let ghost s = cells(grid@);
    let ghost ps = neighbor_points(pt(*cell));
    assert(ps.len() == 8);
    let mut n: usize = 0;
    let mut i: usize = 0;
    while i < ns.len()
        invariant
            s == cells(grid@),
            ps == neighbor_points(pt(*cell)),
            ns@.len() == 8,
            ps.len() == 8,
            forall|k: int| 0 <= k < 8 ==> #[trigger] pt(ns@[k]) == ps[k],
            0 <= i <= 8,
            n == count_alive(s, ps.take(i as int)),
            n <= i,
        decreases 8 - i,
    {
        let c = ns[i];
        let hit = grid.contains(&c);
        proof {
            assert(ps.take(i + 1).drop_last() =~= ps.take(i as int));
            assert(pt(ns@[i as int]) == ps[i as int]);
            assert(ps.take(i + 1).last() == ps[i as int]);
            lemma_cells_pt(grid@, c);
            assert(ps.take(i + 1).len() == i + 1);
            assert(count_alive(s, ps.take(i + 1)) == count_alive(s, ps.take(i as int)) + if hit {
                1nat
            } else {
                0nat
            });
        }
        if hit {
            n = n + 1;
        }
        i = i + 1;
    }
    proof {
        assert(ps.take(8) =~= ps);
        lemma_count_neighbors(s, pt(*cell));
    }
    n
}

/// Whether `cell` is alive in the generation after `grid`.
pub fn should_live(grid: &Grid, cell: &Cell) -> (r: bool)
    requires
        i32::MIN < cell.0 < i32::MAX,
        i32::MIN < cell.1 < i32::MAX,
    ensures
        r == lives_on(cells(grid@).contains(pt(*cell)), live_neighbors(cells(grid@), pt(*cell))),
{
    proof {
        lemma_cell_order();
    }
    let live_neighbors = count_live_neighbors(grid, cell);
    let is_alive = grid.contains(cell);
    proof {
        lemma_cells_pt(grid@, *cell);
    }
    match (is_alive, live_neighbors) {
        (true, 2) | (true, 3) => true,
        (false, 3) => true,
        _ => false,
    }
}

/// A cell whose neighbors all fit in `i32`.
pub open spec fn inner(c: Cell) -> bool {
    i32::MIN < c.0 < i32::MAX && i32::MIN < c.1 < i32::MAX
}

/// Every point adjacent to `p` is one of its eight listed neighbors.
proof fn lemma_adjacent_listed(p: Point, q: Point)
    requires
        adjacent(q, p),
    ensures
        exists|j: int| 0 <= j < 8 && #[trigger] neighbor_points(p)[j] == q,
{
    let ns = neighbor_points(p);
    assert(ns.len() == 8);
    let dx = q.0 - p.0;
    let dy = q.1 - p.1;
    let j: int = if dy == -1 {
        dx + 1
    } else if dy == 0 {
        if dx == -1 { 3 } else { 4 }
    } else {
        dx + 6
    };
    assert(ns[j] == (p.0 + offsets()[j].0, p.1 + offsets()[j].1));
    assert(ns[j] == q);
}

/// Each listed neighbor of `p` is adjacent to it.
proof fn lemma_listed_adjacent(p: Point, j: int)
    requires
        0 <= j < 8,
    ensures
        adjacent(neighbor_points(p)[j], p),
{
    assert(neighbor_points(p)[j] == (p.0 + offsets()[j].0, p.1 + offsets()[j].1));
}

/// A point that is neither alive nor next to a live one has no live neighbor.
pub proof fn lemma_outside_candidates(s: Set<Point>, p: Point)
    requires
        !candidates(s).contains(p),
    ensures
        !s.contains(p),
        live_neighbors(s, p) == 0,
{
    assert forall|q: Point| s.contains(q) implies !adjacent(p, q) by {
        if adjacent(p, q) {
            assert(candidates(s).contains(p));
        }
    }
    assert(!s.contains((p.0 - 1, p.1 - 1)) && !s.contains((p.0 - 1, p.1)) && !s.contains((p.0 - 1, p.1 + 1)));
    assert(!s.contains((p.0, p.1 - 1)) && !s.contains((p.0, p.1 + 1)));
    assert(!s.contains((p.0 + 1, p.1 - 1)) && !s.contains((p.0 + 1, p.1)) && !s.contains((p.0 + 1, p.1 + 1)));
}

/// The live cells of `grid` and every neighbor of each.
pub fn cells_to_check(grid: &Grid) -> (r: Grid)
    requires
        all_roomy(grid@),
    ensures
        cells(r@) == candidates(cells(grid@)),
        forall|c: Cell| #[trigger] r@.contains(c) ==> inner(c),
{
    proof {
        lemma_cell_order();
    }
    let mut check = grid.clone();
    let ghost items = vstd::std_specs::btree::spec_btree_keys_iter(grid).remaining();
    for cell in it: grid.iter()
        invariant
            all_roomy(grid@),
            it.seq() == items,
            items.unref().to_set() == grid@,
            forall|c: Cell| #[trigger] grid@.contains(c) ==> check@.contains(c),
            forall|c: Cell| #[trigger] check@.contains(c) ==> inner(c) && (grid@.contains(c)
                || exists|q: Cell| grid@.contains(q) && adjacent(pt(c), pt(q))),
            forall|k: int, c: Cell|
                0 <= k < it.index() && adjacent(pt(c), pt(*#[trigger] items[k]))
                    ==> #[trigger] check@.contains(c),
    {
        let ghost k = it.index();
        let ghost before = check@;
        proof {
            assert(it.seq().unref()[k] == *cell);
            assert(it.seq().unref().to_set().contains(*cell));
        }
        let ns = neighbors(cell.0, cell.1);
        for j in 0..8usize
            invariant
                ns@.len() == 8,
                forall|i: int| 0 <= i < 8 ==> #[trigger] pt(ns@[i]) == neighbor_points(pt(*cell))[i],
                grid@.contains(*cell),
                all_roomy(grid@),
                forall|c: Cell| #[trigger] before.contains(c) ==> check@.contains(c),
                forall|c: Cell| #[trigger] check@.contains(c) ==> inner(c) && (grid@.contains(c)
                    || exists|q: Cell| grid@.contains(q) && adjacent(pt(c), pt(q))),
                forall|i: int| 0 <= i < j ==> #[trigger] check@.contains(ns@[i]),
                forall|kk: int, c: Cell|
                    0 <= kk < k && adjacent(pt(c), pt(*#[trigger] items[kk])) ==> #[trigger] before.contains(c),
        {
            proof {
                lemma_listed_adjacent(pt(*cell), j as int);
                assert(pt(ns@[j as int]) == neighbor_points(pt(*cell))[j as int]);
            }
            check.insert(ns[j]);
        }
        proof {
            assert forall|c: Cell| adjacent(pt(c), pt(*cell)) implies #[trigger] check@.contains(c) by {
                lemma_adjacent_listed(pt(*cell), pt(c));
                let j = choose|j: int| 0 <= j < 8 && #[trigger] neighbor_points(pt(*cell))[j] == pt(c);
                assert(pt(ns@[j]) == pt(c));
                assert(ns@[j] == c);
            }
            assert(*items[k] == *cell);
            assert forall|kk: int, c: Cell|
                0 <= kk <= k && adjacent(pt(c), pt(*#[trigger] items[kk])) implies #[trigger] check@.contains(c) by {
                if kk < k {
                    assert(before.contains(c));
                }
            }
        }
    }
    proof {
        let s = cells(grid@);
        assert forall|p: Point| candidates(s).contains(p) implies #[trigger] cells(check@).contains(p) by {
            if s.contains(p) {
            } else {
                let q = choose|q: Point| s.contains(q) && adjacent(p, q);
                let qc = (q.0 as i32, q.1 as i32);
                assert(pt(qc) == q);
                assert(items.unref().to_set().contains(qc));
                let k = choose|k: int| 0 <= k < items.len() && items.unref()[k] == qc;
                assert(*items[k] == qc);
                let c = (p.0 as i32, p.1 as i32);
                assert(pt(c) == p);
            }
        }
        assert forall|p: Point| cells(check@).contains(p) implies #[trigger] candidates(s).contains(p) by {
            let c = (p.0 as i32, p.1 as i32);
            assert(pt(c) == p);
            if !grid@.contains(c) {
                let q = choose|q: Cell| grid@.contains(q) && adjacent(pt(c), pt(q));
                lemma_cells_pt(grid@, q);
            }
        }
        assert(cells(check@) =~= candidates(s));
    }
    check
}

/// Whatever comes alive or stays alive is alive or next to a live cell.
proof fn lemma_born_near(s: Set<Point>, p: Point)
    requires
        lives_on(s.contains(p), live_neighbors(s, p)),
    ensures
        candidates(s).contains(p),
{
    if !candidates(s).contains(p) {
        lemma_outside_candidates(s, p);
    }
}

/// The next generation of `grid`, as a new set; `grid` is left as it was.
pub fn step(grid: &Grid) -> (r: Grid)
    requires
        all_roomy(grid@),
    ensures
        cells(r@) == next_gen(cells(grid@)),
{
    proof {
        lemma_cell_order();
    }
    let check = cells_to_check(grid);
    let mut next: Grid = BTreeSet::new();
    let ghost s = cells(grid@);
    let ghost items = vstd::std_specs::btree::spec_btree_keys_iter(&check).remaining();
    for c in it: check.iter()
        invariant
            s == cells(grid@),
            it.seq() == items,
            items.unref().to_set() == check@,
            forall|x: Cell| #[trigger] check@.contains(x) ==> inner(x),
            forall|x: Cell| #[trigger] next@.contains(x) ==> next_gen(s).contains(pt(x)),
            forall|k: int|
                0 <= k < it.index() && next_gen(s).contains(pt(*#[trigger] items[k]))
                    ==> next@.contains(*items[k]),
    {
        let ghost k = it.index();
        proof {
            assert(*items[k] == *c);
            assert(items.unref().to_set().contains(*c));
        }
        if should_live(grid, c) {
            next.insert(*c);
        }
    }
    proof {
        assert forall|p: Point| next_gen(s).contains(p) implies #[trigger] cells(next@).contains(p) by {
            lemma_born_near(s, p);
            let x = (p.0 as i32, p.1 as i32);
            assert(pt(x) == p);
            assert(items.unref().to_set().contains(x));
            let k = choose|k: int| 0 <= k < items.len() && items.unref()[k] == x;
            assert(*items[k] == x);
        }
        assert forall|p: Point| cells(next@).contains(p) implies #[trigger] next_gen(s).contains(p) by {
            let x = (p.0 as i32, p.1 as i32);
            assert(pt(x) == p);
        }
        assert(cells(next@) =~= next_gen(s));
    }
    next
}

} // verus!