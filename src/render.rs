use vstd::prelude::*;
use crate::cell::Point;
use crate::life::{Grid, cells, lemma_cell_order, lemma_cells_pt};

verus! {

/// Marker of a live cell.
pub const LIVE: char = '#';

/// Marker of a dead cell.
pub const DEAD: char = '.';

/// A side of the viewport: a negative length shows nothing.
pub open spec fn side(v: i32) -> nat {
    if v < 0 { 0 } else { v as nat }
}

/// The marker shown at `(x, y)`.
pub open spec fn mark(s: Set<Point>, x: int, y: int) -> char {
    if s.contains((x, y)) { LIVE } else { DEAD }
}

/// Row `y` of the viewport, `w` markers wide, without its line break.
pub open spec fn row_text(s: Set<Point>, y: int, w: nat) -> Seq<char>
    decreases w,
{
    if w == 0 {
        Seq::empty()
    } else {
        row_text(s, y, (w - 1) as nat).push(mark(s, w - 1, y))
    }
}

/// The first `h` rows of the viewport, each `w` markers and a line break.
pub open spec fn picture(s: Set<Point>, w: nat, h: nat) -> Seq<char>
    decreases h,
{
    if h == 0 {
        Seq::empty()
    } else {
        picture(s, w, (h - 1) as nat) + row_text(s, h - 1, w).push('\n')
    }
}

/// Relies on `String::push`: appends one character at the end.
#[verifier::external_body]
fn push_char(out: &mut String, c: char)
    ensures
        final(out)@ == old(out)@.push(c),
{
    out.push(c);
}

/// The viewport `[0, width) x [0, height)` of `grid` as text: one line per
/// row, `#` for a live cell and `.` for a dead one.
pub fn display_grid(width: i32, height: i32, grid: &Grid) -> (out: String)
    ensures
        out@ == picture(cells(grid@), side(width), side(height)),
{
    proof {
        lemma_cell_order();
    }
    let ghost s = cells(grid@);
    let mut out = String::new();
    let mut y: i32 = 0;
    while y < height
        invariant
            s == cells(grid@),
            0 <= y,
            y as nat <= side(height),
            out@ == picture(s, side(width), y as nat),
        decreases height - y,
    {
        let mut x: i32 = 0;
        while x < width
            invariant
                s == cells(grid@),
                0 <= x,
                x as nat <= side(width),
                0 <= y < height,
                out@ == picture(s, side(width), y as nat) + row_text(s, y as int, x as nat),
            decreases width - x,
        {
            let live = grid.contains(&(x, y));
            proof {
                lemma_cells_pt(grid@, (x, y));
            }
            if live {
                push_char(&mut out, LIVE);
            } else {
                push_char(&mut out, DEAD);
            }
            proof {
                assert(row_text(s, y as int, (x + 1) as nat) == row_text(s, y as int, x as nat).push(
                    mark(s, x as int, y as int),
                ));
            }
            x = x + 1;
        }
        push_char(&mut out, '\n');
        proof {
            assert(x as nat == side(width));
            assert(picture(s, side(width), (y + 1) as nat) == picture(s, side(width), y as nat)
                + row_text(s, y as int, side(width)).push('\n'));
        }
        y = y + 1;
    }
    proof {
        assert(y as nat == side(height));
    }
    out
}

/// Position in the text of column `x` of row `y`, lines being `w + 1` long.
pub open spec fn offset_of(w: nat, x: int, y: int) -> int {
    y * (w + 1) + x
}

proof fn lemma_row_text(s: Set<Point>, y: int, w: nat)
    ensures
        row_text(s, y, w).len() == w,
        forall|x: int| 0 <= x < w ==> #[trigger] row_text(s, y, w)[x] == mark(s, x, y),
    decreases w,
{
    if w > 0 {
        lemma_row_text(s, y, (w - 1) as nat);
    }
}

/// The text has `h` lines of `w` markers each, ended by a line break; in it
/// column `x` of row `y` shows `#` exactly when `(x, y)` is alive.
pub proof fn lemma_picture_layout(s: Set<Point>, w: nat, h: nat)
    ensures
        picture(s, w, h).len() == h * (w + 1),
        forall|x: int, y: int|
            0 <= x < w && 0 <= y < h ==> #[trigger] picture(s, w, h)[offset_of(w, x, y)] == mark(s, x, y),
        forall|y: int| 0 <= y < h ==> #[trigger] picture(s, w, h)[offset_of(w, w as int, y)] == '\n',
    decreases h,
{
    if h > 0 {
        let h1 = (h - 1) as nat;
        lemma_picture_layout(s, w, h1);
        lemma_row_text(s, h1 as int, w);
        let prev = picture(s, w, h1);
        let line = row_text(s, h1 as int, w).push('\n');
        assert(picture(s, w, h) == prev + line);
        assert(line.len() == w + 1);
        assert(h * (w + 1) == h1 * (w + 1) + (w + 1)) by (nonlinear_arith)
            requires h1 == h - 1;
        assert forall|x: int, y: int| 0 <= x <= w && 0 <= y < h implies #[trigger] picture(s, w, h)[offset_of(w, x, y)]
            == if x < w { mark(s, x, y) } else { '\n' } by {
            if y < h1 {
                assert(offset_of(w, x, y) < h1 * (w + 1)) by (nonlinear_arith)
                    requires y < h1, 0 <= x <= w, offset_of(w, x, y) == y * (w + 1) + x;
                assert(0 <= offset_of(w, x, y)) by (nonlinear_arith)
                    requires 0 <= y, 0 <= x, offset_of(w, x, y) == y * (w + 1) + x;
            } else {
                assert(offset_of(w, x, y) == h1 * (w + 1) + x);
            }
        }
    } else {
        assert(h * (w + 1) == 0) by (nonlinear_arith)
            requires h == 0;
    }
}

/// An empty set shows `h` lines of `w` dead markers each.
pub proof fn lemma_empty_picture(w: nat, h: nat)
    ensures
        picture(Set::empty(), w, h).len() == h * (w + 1),
        forall|x: int, y: int|
            0 <= x < w && 0 <= y < h ==> #[trigger] picture(Set::empty(), w, h)[offset_of(w, x, y)] == DEAD,
        forall|y: int| 0 <= y < h ==> #[trigger] picture(Set::empty(), w, h)[offset_of(w, w as int, y)] == '\n',
{
    lemma_picture_layout(Set::empty(), w, h);
    assert forall|x: int, y: int| 0 <= x < w && 0 <= y < h implies #[trigger] picture(Set::empty(), w, h)[offset_of(w, x, y)] == DEAD by {
        assert(mark(Set::empty(), x, y) == DEAD);
    }
}

} // verus!
