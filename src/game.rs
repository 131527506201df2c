use vstd::prelude::*;
use vstd::std_specs::iter::IteratorSpec;
use crate::life::{Grid, cells, next_gen, all_roomy, roomy, step, lemma_cell_order};
use crate::render::{display_grid, picture, side};

verus! {

/// What is shown for one generation: the header's two numbers and the
/// viewport's text.
pub struct Frame {
    pub generation: usize,
    pub population: usize,
    pub picture: String,
}

/// A running simulation: the current generation's index and live-set, and
/// how many generations a bounded run shows (`None` runs without end).
pub struct Game {
    pub generation: usize,
    pub grid: Grid,
    pub limit: Option<usize>,
}

/// Whether a run with `limit` shows generation `generation`.
pub open spec fn shows(limit: Option<usize>, generation: nat) -> bool {
    match limit {
        Some(n) => generation < n,
        None => true,
    }
}

/// The number of live cells.
pub fn population(grid: &Grid) -> (r: usize)
    ensures
        r == grid@.len(),
{
    proof {
        lemma_cell_order();
    }
    grid.len()
}

/// Whether every live cell is far enough from the edge of `i32` for one more
/// generation to be computed.
pub fn is_roomy(grid: &Grid) -> (r: bool)
    ensures
        r == all_roomy(grid@),
{
    proof {
        lemma_cell_order();
    }
    let ghost items = vstd::std_specs::btree::spec_btree_keys_iter(grid).remaining();
    for c in it: grid.iter()
        invariant
            it.seq() == items,
            items.unref().to_set() == grid@,
            forall|k: int| 0 <= k < it.index() ==> roomy(*#[trigger] items[k]),
    {
        let ghost k = it.index();
        proof {
            assert(*items[k] == *c);
            assert(items.unref().to_set().contains(*c));
        }
        if c.0 < i32::MIN + 2 || c.0 > i32::MAX - 2 || c.1 < i32::MIN + 2 || c.1 > i32::MAX - 2 {
            proof {
                assert(!roomy(*c));
            }
            return false;
        }
    }
    proof {
        assert forall|c| #[trigger] grid@.contains(c) implies roomy(c) by {
            assert(items.unref().to_set().contains(c));
            let k = choose|k: int| 0 <= k < items.len() && items.unref()[k] == c;
            assert(*items[k] == c);
        }
    }
    true
}

impl Game {
    /// A run that starts at generation 0 from `grid`.
    pub fn new(grid: Grid, limit: Option<usize>) -> (r: Game)
        ensures
            r.generation == 0,
            r.grid@ == grid@,
            r.limit == limit,
    {
        Game { generation: 0, grid, limit }
    }

    /// Whether the current generation is still to be shown.
    pub fn running(&self) -> (r: bool)
        ensures
            r == shows(self.limit, self.generation as nat),
    {
        match self.limit {
            Some(n) => self.generation < n,
            None => true,
        }
    }

    /// The frame of the current generation over the viewport
    /// `[0, width) x [0, height)`, or `None` once a bounded run is over.
    pub fn frame(&self, width: i32, height: i32) -> (r: Option<Frame>)
        ensures
            r is Some <==> shows(self.limit, self.generation as nat),
            r matches Some(f) ==> {
                &&& f.generation == self.generation
                &&& f.population == self.grid@.len()
                &&& f.picture@ == picture(cells(self.grid@), side(width), side(height))
            },
    {
        if !self.running() {
            return None;
        }
        Some(
            Frame {
                generation: self.generation,
                population: population(&self.grid),
                picture: display_grid(width, height, &self.grid),
            },
        )
    }

    /// Whether `advance` may be called: the cells are clear of the edge of
    /// `i32` and the counter can still grow.
    pub fn can_advance(&self) -> (r: bool)
        ensures
            r == (all_roomy(self.grid@) && self.generation < usize::MAX),
    {
        self.generation < usize::MAX && is_roomy(&self.grid)
    }

    /// Replaces the live-set by the next generation and counts it.
    pub fn advance(&mut self)
        requires
            all_roomy(old(self).grid@),
            old(self).generation < usize::MAX,
        ensures
            cells(final(self).grid@) == next_gen(cells(old(self).grid@)),
            final(self).generation == old(self).generation + 1,
            final(self).limit == old(self).limit,
    {
        self.grid = step(&self.grid);
        self.generation = self.generation + 1;
    }
}

/// How many frames a run bounded by `n` shows from generation `from` on,
/// each frame followed by one step to the next generation.
pub open spec fn frames_shown(n: usize, from: nat) -> nat
    decreases n - from,
{
    if shows(Some(n), from) {
        1 + frames_shown(n, from + 1)
    } else {
        0
    }
}

/// A bounded run of `n` generations from generation 0 shows exactly `n`
/// frames, generations `0` to `n - 1`: with `n == 0` it shows none.
pub proof fn lemma_bounded_run(n: usize)
    ensures
        frames_shown(n, 0) == n,
        forall|g: nat| #[trigger] shows(Some(n), g) <==> g < n,
{
    lemma_frames_from(n, 0);
}

proof fn lemma_frames_from(n: usize, from: nat)
    ensures
        frames_shown(n, from) == if from < n { n - from } else { 0 },
    decreases n - from,
{
    if from < n {
        lemma_frames_from(n, from + 1);
    }
}

} // verus!
