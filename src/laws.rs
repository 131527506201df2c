use vstd::prelude::*;
use crate::cell::Point;
use crate::life::{live_neighbors, next_gen};
use crate::patterns::{placed, block_offsets, blinker_offsets, glider_offsets};

verus! {

/// A live cell stays alive exactly when 2 or 3 of its neighbors are alive.
pub proof fn lemma_survival(s: Set<Point>, p: Point)
    requires
        s.contains(p),
    ensures
        next_gen(s).contains(p) <==> (live_neighbors(s, p) == 2 || live_neighbors(s, p) == 3),
{
}

/// A dead cell comes alive exactly when 3 of its neighbors are alive.
pub proof fn lemma_birth(s: Set<Point>, p: Point)
    requires
        !s.contains(p),
    ensures
        next_gen(s).contains(p) <==> live_neighbors(s, p) == 3,
{
}

/// A block at `(x, y)`, cell by cell.
pub open spec fn block_at(x: int, y: int) -> Set<Point> {
    Set::new(
        |p: Point|
            {
                let dx = p.0 - x;
                let dy = p.1 - y;
                (dx == 0 && dy == 0)
                    || (dx == 1 && dy == 0)
                    || (dx == 0 && dy == 1)
                    || (dx == 1 && dy == 1)
            },
    )
}

/// A horizontal blinker at `(x, y)`, cell by cell.
pub open spec fn blinker_flat(x: int, y: int) -> Set<Point> {
    Set::new(
        |p: Point|
            {
                let dx = p.0 - x;
                let dy = p.1 - y;
                (dx == 0 && dy == 0)
                    || (dx == 1 && dy == 0)
                    || (dx == 2 && dy == 0)
            },
    )
}

/// The vertical phase of the blinker at `(x, y)`.
pub open spec fn blinker_upright(x: int, y: int) -> Set<Point> {
    Set::new(
        |p: Point|
            {
                let dx = p.0 - x;
                let dy = p.1 - y;
                (dx == 1 && dy == -1)
                    || (dx == 1 && dy == 0)
                    || (dx == 1 && dy == 1)
            },
    )
}

/// A glider at `(x, y)`, cell by cell.
pub open spec fn glider_at(x: int, y: int) -> Set<Point> {
    Set::new(
        |p: Point|
            {
                let dx = p.0 - x;
                let dy = p.1 - y;
                (dx == 1 && dy == 0)
                    || (dx == 2 && dy == 1)
                    || (dx == 0 && dy == 2)
                    || (dx == 1 && dy == 2)
                    || (dx == 2 && dy == 2)
            },
    )
}

/// A glider at `(x, y)` one generation on.
pub open spec fn glider_phase_one(x: int, y: int) -> Set<Point> {
    Set::new(
        |p: Point|
            {
                let dx = p.0 - x;
                let dy = p.1 - y;
                (dx == 0 && dy == 1)
                    || (dx == 1 && dy == 2)
                    || (dx == 1 && dy == 3)
                    || (dx == 2 && dy == 1)
                    || (dx == 2 && dy == 2)
            },
    )
}

/// A glider at `(x, y)` two generations on.
pub open spec fn glider_phase_two(x: int, y: int) -> Set<Point> {
    Set::new(
        |p: Point|
            {
                let dx = p.0 - x;
                let dy = p.1 - y;
                (dx == 0 && dy == 2)
                    || (dx == 1 && dy == 3)
                    || (dx == 2 && dy == 1)
                    || (dx == 2 && dy == 2)
                    || (dx == 2 && dy == 3)
            },
    )
}

/// A glider at `(x, y)` three generations on.
pub open spec fn glider_phase_three(x: int, y: int) -> Set<Point> {
    Set::new(
        |p: Point|
            {
                let dx = p.0 - x;
                let dy = p.1 - y;
                (dx == 1 && dy == 1)
                    || (dx == 1 && dy == 3)
                    || (dx == 2 && dy == 2)
                    || (dx == 2 && dy == 3)
                    || (dx == 3 && dy == 2)
            },
    )
}

/// The listed offsets, moved to `(x, y)`, are the cells written out.
proof fn lemma_block_written(x: int, y: int)
    ensures
        placed(block_offsets(), x, y) == block_at(x, y),
{
    let offs = block_offsets();
    assert(offs[0] == (0int, 0int));
    assert(offs[1] == (1int, 0int));
    assert(offs[2] == (0int, 1int));
    assert(offs[3] == (1int, 1int));
    assert forall|p: Point| placed(offs, x, y).contains(p) == block_at(x, y).contains(p) by {
        let d = (p.0 - x, p.1 - y);
        if offs.contains(d) {
            let i = choose|i: int| 0 <= i < offs.len() && offs[i] == d;
        }
    }
    assert(placed(offs, x, y) =~= block_at(x, y));
}

/// The listed offsets, moved to `(x, y)`, are the cells written out.
proof fn lemma_blinker_written(x: int, y: int)
    ensures
        placed(blinker_offsets(), x, y) == blinker_flat(x, y),
{
    let offs = blinker_offsets();
    assert(offs[0] == (0int, 0int));
    assert(offs[1] == (1int, 0int));
    assert(offs[2] == (2int, 0int));
    assert forall|p: Point| placed(offs, x, y).contains(p) == blinker_flat(x, y).contains(p) by {
        let d = (p.0 - x, p.1 - y);
        if offs.contains(d) {
            let i = choose|i: int| 0 <= i < offs.len() && offs[i] == d;
        }
    }
    assert(placed(offs, x, y) =~= blinker_flat(x, y));
}

/// The listed offsets, moved to `(x, y)`, are the cells written out.
proof fn lemma_glider_written(x: int, y: int)
    ensures
        placed(glider_offsets(), x, y) == glider_at(x, y),
{
    let offs = glider_offsets();
    assert(offs[0] == (1int, 0int));
    assert(offs[1] == (2int, 1int));
    assert(offs[2] == (0int, 2int));
    assert(offs[3] == (1int, 2int));
    assert(offs[4] == (2int, 2int));
    assert forall|p: Point| placed(offs, x, y).contains(p) == glider_at(x, y).contains(p) by {
        let d = (p.0 - x, p.1 - y);
        if offs.contains(d) {
            let i = choose|i: int| 0 <= i < offs.len() && offs[i] == d;
        }
    }
    assert(placed(offs, x, y) =~= glider_at(x, y));
}

/// One generation turns the first shape into the second.
proof fn lemma_block_step(x: int, y: int)
    ensures
        next_gen(block_at(x, y)) == block_at(x, y),
{
    assert forall|p: Point| next_gen(block_at(x, y)).contains(p) == block_at(x, y).contains(p) by {}
    assert(next_gen(block_at(x, y)) =~= block_at(x, y));
}

/// One generation turns the first shape into the second.
proof fn lemma_blinker_turns(x: int, y: int)
    ensures
        next_gen(blinker_flat(x, y)) == blinker_upright(x, y),
{
    assert forall|p: Point| next_gen(blinker_flat(x, y)).contains(p) == blinker_upright(x, y).contains(p) by {}
    assert(next_gen(blinker_flat(x, y)) =~= blinker_upright(x, y));
}

/// One generation turns the first shape into the second.
proof fn lemma_blinker_turns_back(x: int, y: int)
    ensures
        next_gen(blinker_upright(x, y)) == blinker_flat(x, y),
{
    assert forall|p: Point| next_gen(blinker_upright(x, y)).contains(p) == blinker_flat(x, y).contains(p) by {}
    assert(next_gen(blinker_upright(x, y)) =~= blinker_flat(x, y));
}

/// One generation turns the first shape into the second.
proof fn lemma_glider_step_one(x: int, y: int)
    ensures
        next_gen(glider_at(x, y)) == glider_phase_one(x, y),
{
    assert forall|p: Point| next_gen(glider_at(x, y)).contains(p) == glider_phase_one(x, y).contains(p) by {}
    assert(next_gen(glider_at(x, y)) =~= glider_phase_one(x, y));
}

/// One generation turns the first shape into the second.
proof fn lemma_glider_step_two(x: int, y: int)
    ensures
        next_gen(glider_phase_one(x, y)) == glider_phase_two(x, y),
{
    assert forall|p: Point| next_gen(glider_phase_one(x, y)).contains(p) == glider_phase_two(x, y).contains(p) by {}
    assert(next_gen(glider_phase_one(x, y)) =~= glider_phase_two(x, y));
}

/// One generation turns the first shape into the second.
proof fn lemma_glider_step_three(x: int, y: int)
    ensures
        next_gen(glider_phase_two(x, y)) == glider_phase_three(x, y),
{
    assert forall|p: Point| next_gen(glider_phase_two(x, y)).contains(p) == glider_phase_three(x, y).contains(p) by {}
    assert(next_gen(glider_phase_two(x, y)) =~= glider_phase_three(x, y));
}

/// One generation turns the first shape into the second.
proof fn lemma_glider_step_four(x: int, y: int)
    ensures
        next_gen(glider_phase_three(x, y)) == glider_at(x + 1, y + 1),
{
    assert forall|p: Point| next_gen(glider_phase_three(x, y)).contains(p) == glider_at(x + 1, y + 1).contains(p) by {}
    assert(next_gen(glider_phase_three(x, y)) =~= glider_at(x + 1, y + 1));
}

/// The block is a still life: one generation leaves it as it is.
pub proof fn lemma_block_still(x: int, y: int)
    ensures
        next_gen(placed(block_offsets(), x, y)) == placed(block_offsets(), x, y),
{
    lemma_block_written(x, y);
    lemma_block_step(x, y);
}

/// The blinker has period two: two generations bring it back.
pub proof fn lemma_blinker_period_two(x: int, y: int)
    ensures
        next_gen(next_gen(placed(blinker_offsets(), x, y))) == placed(blinker_offsets(), x, y),
{
    lemma_blinker_written(x, y);
    lemma_blinker_turns(x, y);
    lemma_blinker_turns_back(x, y);
}

/// Four generations move a glider one cell right and one cell down.
pub proof fn lemma_glider_moves(x: int, y: int)
    ensures
        next_gen(next_gen(next_gen(next_gen(placed(glider_offsets(), x, y)))))
            == placed(glider_offsets(), x + 1, y + 1),
{
    lemma_glider_written(x, y);
    lemma_glider_written(x + 1, y + 1);
    lemma_glider_step_one(x, y);
    lemma_glider_step_two(x, y);
    lemma_glider_step_three(x, y);
    lemma_glider_step_four(x, y);
}

} // verus!
