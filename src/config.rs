use vstd::prelude::*;
use vstd::std_specs::iter::IteratorSpec;
use crate::cell::Point;
use crate::life::{Grid, cells, lemma_cell_order};
use crate::patterns::{placed, glider, blinker, block, toad, r_pentomino, gosper_glider_gun,
    glider_offsets, blinker_offsets, block_offsets, toad_offsets, r_pentomino_offsets,
    gosper_glider_gun_offsets};

verus! {

/// Delay between generations when none or no valid one is given, in ms.
pub const DEFAULT_DELAY_MS: u64 = 200;

/// Shortest delay between generations, in ms.
pub const MIN_DELAY_MS: u64 = 50;

/// Longest delay between generations, in ms.
pub const MAX_DELAY_MS: u64 = 1000;

pub open spec fn is_digit(c: char) -> bool {
    '0' <= c <= '9'
}

pub open spec fn all_digits(d: Seq<char>) -> bool {
    forall|i: int| 0 <= i < d.len() ==> is_digit(#[trigger] d[i])
}

/// The value of a string of decimal digits.
pub open spec fn decimal_value(s: Seq<char>) -> int
    decreases s.len(),
{
    if s.len() == 0 {
        0
    } else {
        decimal_value(s.drop_last()) * 10 + (s.last() as int - '0' as int)
    }
}

/// The number that `s` writes as an unsigned decimal (an optional `+`, then
/// one or more digits), if it writes one.
pub open spec fn unsigned_text(s: Seq<char>) -> Option<int> {
    let d = if s.len() > 0 && s[0] == '+' { s.drop_first() } else { s };
    if d.len() > 0 && all_digits(d) {
        Some(decimal_value(d))
    } else {
        None
    }
}

proof fn lemma_decimal_nonneg(d: Seq<char>)
    requires
        all_digits(d),
    ensures
        decimal_value(d) >= 0,
    decreases d.len(),
{
    if d.len() > 0 {
        assert(is_digit(d[d.len() - 1]));
        lemma_decimal_nonneg(d.drop_last());
    }
}

proof fn lemma_unsigned_text_nonneg(s: Seq<char>)
    ensures
        unsigned_text(s) matches Some(v) ==> v >= 0,
{
    let d = if s.len() > 0 && s[0] == '+' { s.drop_first() } else { s };
    if d.len() > 0 && all_digits(d) {
        lemma_decimal_nonneg(d);
    }
}

/// Relies on `str::parse::<u64>` (`u64::from_str`): it accepts an optional
/// `+` and then one or more decimal digits, and fails on anything else and on
/// a value over `u64::MAX`.
#[verifier::external_body]
fn parse_u64(s: &str) -> (r: Option<u64>)
    ensures
        r == (match unsigned_text(s@) {
            Some(v) => if v <= u64::MAX { Some(v as u64) } else { None },
            None => None,
        }),
{
    s.parse::<u64>().ok()
}

/// The delay given by `input`: the default for an empty or unparsable one,
/// else the number clamped to `[MIN_DELAY_MS, MAX_DELAY_MS]`.
pub open spec fn delay_of(input: Seq<char>) -> u64 {
    if input.len() == 0 {
        DEFAULT_DELAY_MS
    } else {
        match unsigned_text(input) {
            Some(v) => if v > u64::MAX {
                DEFAULT_DELAY_MS
            } else if v < MIN_DELAY_MS {
                MIN_DELAY_MS
            } else if v > MAX_DELAY_MS {
                MAX_DELAY_MS
            } else {
                v as u64
            },
            None => DEFAULT_DELAY_MS,
        }
    }
}

/// The delay between generations, in ms, that the (trimmed) `input` asks for.
pub fn parse_delay(input: &str) -> (r: u64)
    ensures
        r == delay_of(input@),
        MIN_DELAY_MS <= r <= MAX_DELAY_MS,
{
    if input.is_empty() {
        return DEFAULT_DELAY_MS;
    }
    let parsed = parse_u64(input);
    proof {
        lemma_unsigned_text_nonneg(input@);
        match unsigned_text(input@) {
            Some(t) => {
                if t <= u64::MAX {
                    assert(parsed == Some(t as u64));
                } else {
                    assert(parsed is None);
                }
            },
            None => {
                assert(parsed is None);
            },
        }
    }
    match parsed {
        Some(v) => if v < MIN_DELAY_MS {

            MIN_DELAY_MS
        } else if v > MAX_DELAY_MS {
            MAX_DELAY_MS
        } else {
            v
        },
        None => DEFAULT_DELAY_MS,
    }
}

/// The one character of `s`, if it has exactly one.
fn only_char(s: &str) -> (r: Option<char>)
    ensures
        r == (if s@.len() == 1 { Some(s@[0]) } else { None }),
{
    let mut it = s.chars();
    proof {
        vstd::string::axiom_spec_iter(s);
    }
    match it.next() {
        None => None,
        Some(c) => match it.next() {
            None => Some(c),
            Some(_) => None,
        },
    }
}

/// Whether the run mode `mode` asks for a run without end (`b`).
pub fn is_unbounded(mode: &str) -> (r: bool)
    ensures
        r == (mode@ == seq!['b']),
{
    match only_char(mode) {
        Some(c) => {
            proof {
                if c == 'b' {
                    assert(mode@ =~= seq!['b']);
                }
            }
            c == 'b'
        },
        None => false,
    }
}

/// The demos on offer.
#[derive(Clone, Copy, Debug, PartialEq, Eq, Structural)]
pub enum Demo {
    Glider,
    Oscillators,
    RPentomino,
    GliderGun,
    Mixed,
}

/// The demo that `choice` names, if it is one of `1` to `5`.
pub open spec fn named_demo(choice: Seq<char>) -> Option<Demo> {
    if choice == seq!['1'] {
        Some(Demo::Glider)
    } else if choice == seq!['2'] {
        Some(Demo::Oscillators)
    } else if choice == seq!['3'] {
        Some(Demo::RPentomino)
    } else if choice == seq!['4'] {
        Some(Demo::GliderGun)
    } else if choice == seq!['5'] {
        Some(Demo::Mixed)
    } else {
        None
    }
}

/// The demo that the (trimmed) `choice` names, or `None` where it names none.
pub fn recognized_demo(choice: &str) -> (r: Option<Demo>)
    ensures
        r == named_demo(choice@),
{
    match only_char(choice) {
        Some(c) => {
            proof {
                assert(choice@ =~= seq![c]);
            }
            if c == '1' {
                Some(Demo::Glider)
            } else if c == '2' {
                Some(Demo::Oscillators)
            } else if c == '3' {
                Some(Demo::RPentomino)
            } else if c == '4' {
                Some(Demo::GliderGun)
            } else if c == '5' {
                Some(Demo::Mixed)
            } else {
                None
            }
        },
        None => {
            proof {
                assert(choice@.len() != 1);
                assert(seq!['1'].len() == 1);
            }
            None
        },
    }
}

/// The demo that the (trimmed) `choice` picks; the glider where it names none.
pub fn select_demo(choice: &str) -> (r: Demo)
    ensures
        r == (match named_demo(choice@) {
            Some(d) => d,
            None => Demo::Glider,
        }),
{
    match recognized_demo(choice) {
        Some(d) => d,
        None => Demo::Glider,
    }
}

/// Adds every cell of `other` to `grid`.
pub fn add_cells(grid: &mut Grid, other: &Grid)
    ensures
        final(grid)@ == old(grid)@.union(other@),
{
    proof {
        lemma_cell_order();
    }
    let ghost start = grid@;
    let ghost items = vstd::std_specs::btree::spec_btree_keys_iter(other).remaining();
    for c in it: other.iter()
        invariant
            it.seq() == items,
            items.unref().to_set() == other@,
            forall|x| #[trigger] grid@.contains(x) <==> start.contains(x)
                || exists|k: int| 0 <= k < it.index() && *items[k] == x,
    {
        let ghost k = it.index();
        proof {
            assert(*items[k] == *c);
        }
        grid.insert(*c);
        proof {
            assert forall|x| #[trigger] grid@.contains(x) <==> start.contains(x)
                || exists|j: int| 0 <= j < k + 1 && *items[j] == x by {
                if x == *c {
                    assert(*items[k] == x);
                }
                if exists|j: int| 0 <= j < k + 1 && *items[j] == x {
                    let j = choose|j: int| 0 <= j < k + 1 && *items[j] == x;
                    if j < k {
                    }
                }
            }
        }
    }
    proof {
        assert forall|x| #[trigger] grid@.contains(x) <==> start.union(other@).contains(x) by {
            if other@.contains(x) {
                assert(items.unref().to_set().contains(x));
                let k = choose|k: int| 0 <= k < items.len() && items.unref()[k] == x;
                assert(*items[k] == x);
            }
            if exists|k: int| 0 <= k < items.len() && *items[k] == x {
                let k = choose|k: int| 0 <= k < items.len() && *items[k] == x;
                assert(items.unref()[k] == x);
                assert(items.unref().to_set().contains(x));
            }
        }
        assert(grid@ =~= start.union(other@));
    }
}

proof fn lemma_cells_union(a: Set<crate::cell::Cell>, b: Set<crate::cell::Cell>)
    ensures
        cells(a.union(b)) == cells(a).union(cells(b)),
{
    assert(cells(a.union(b)) =~= cells(a).union(cells(b)));
}

/// The viewport and the length of a bounded run of a demo.
#[derive(Clone, Copy, Debug, PartialEq, Eq, Structural)]
pub struct Setup {
    pub width: i32,
    pub height: i32,
    pub generations: usize,
}

/// Viewport width, height and bounded length of each demo.
pub open spec fn setup_of(demo: Demo) -> (int, int, int) {
    match demo {
        Demo::Glider => (50, 25, 100),
        Demo::Oscillators => (40, 20, 50),
        Demo::RPentomino => (60, 30, 200),
        Demo::GliderGun => (80, 40, 300),
        Demo::Mixed => (50, 25, 150),
    }
}

/// The live cells a demo starts from.
pub open spec fn demo_cells(demo: Demo) -> Set<Point> {
    match demo {
        Demo::Glider => placed(glider_offsets(), 5, 5),
        Demo::Oscillators => placed(blinker_offsets(), 10, 10).union(placed(toad_offsets(), 20, 10)),
        Demo::RPentomino => placed(r_pentomino_offsets(), 30, 15),
        Demo::GliderGun => placed(gosper_glider_gun_offsets(), 5, 10),
        Demo::Mixed => placed(glider_offsets(), 5, 5).union(placed(blinker_offsets(), 25, 12)).union(
            placed(block_offsets(), 40, 18),
        ).union(placed(toad_offsets(), 15, 20)),
    }
}

/// The viewport and bounded length of `demo`.
pub fn setup(demo: Demo) -> (r: Setup)
    ensures
        (r.width as int, r.height as int, r.generations as int) == setup_of(demo),
{
    match demo {
        Demo::Glider => Setup { width: 50, height: 25, generations: 100 },
        Demo::Oscillators => Setup { width: 40, height: 20, generations: 50 },
        Demo::RPentomino => Setup { width: 60, height: 30, generations: 200 },
        Demo::GliderGun => Setup { width: 80, height: 40, generations: 300 },
        Demo::Mixed => Setup { width: 50, height: 25, generations: 150 },
    }
}

/// The live-set that `demo` starts from.
pub fn initial_grid(demo: Demo) -> (r: Grid)
    ensures
        cells(r@) == demo_cells(demo),
{
    match demo {
        Demo::Glider => glider(5, 5),
        Demo::Oscillators => {
            let mut pattern = blinker(10, 10);
            let other = toad(20, 10);
            let ghost first = pattern@;
            add_cells(&mut pattern, &other);
            proof {
                lemma_cells_union(first, other@);
            }
            pattern
        },
        Demo::RPentomino => r_pentomino(30, 15),
        Demo::GliderGun => gosper_glider_gun(5, 10),
        Demo::Mixed => {
            let mut pattern = glider(5, 5);
            let b = blinker(25, 12);
            let ghost g0 = pattern@;
            add_cells(&mut pattern, &b);
            let k = block(40, 18);
            let ghost g1 = pattern@;
            add_cells(&mut pattern, &k);
            let t = toad(15, 20);
            let ghost g2 = pattern@;
            add_cells(&mut pattern, &t);
            proof {
                lemma_cells_union(g0, b@);
                lemma_cells_union(g1, k@);
                lemma_cells_union(g2, t@);
            }
            pattern
        },
    }
}

} // verus!
