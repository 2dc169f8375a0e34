//! Rendering the board as a grid of glyphs: one row of cells per line,
//! newline-terminated.  A pure projection of the board's query surface.

use vstd::prelude::*;

use crate::board::MineSweeper;

verus! {

/// The glyph of a cell that has not been revealed.
pub open spec fn unopened_glyph() -> Seq<char> {
    "\u{2b1b}\u{fe0f}"@
}

/// The glyph of a revealed mine.
pub open spec fn mine_glyph() -> Seq<char> {
    "\u{1f4a3}"@
}

/// The glyph of a revealed safe cell: its neighboring-mine count between
/// spaces.
pub open spec fn count_glyph(n: int) -> Seq<char> {
    if n == 0 {
        " 0 "@
    } else if n == 1 {
        " 1 "@
    } else if n == 2 {
        " 2 "@
    } else if n == 3 {
        " 3 "@
    } else if n == 4 {
        " 4 "@
    } else if n == 5 {
        " 5 "@
    } else if n == 6 {
        " 6 "@
    } else if n == 7 {
        " 7 "@
    } else {
        " 8 "@
    }
}

/// The glyph of the count `n`, as a string slice.
fn count_cell(n: usize) -> (r: &'static str)
    requires
        n <= 8,
    ensures
        r@ == count_glyph(n as int),
{
    if n == 0 {
        " 0 "
    } else if n == 1 {
        " 1 "
    } else if n == 2 {
        " 2 "
    } else if n == 3 {
        " 3 "
    } else if n == 4 {
        " 4 "
    } else if n == 5 {
        " 5 "
    } else if n == 6 {
        " 6 "
    } else if n == 7 {
        " 7 "
    } else {
        " 8 "
    }
}

impl MineSweeper {
    /// The glyph rendered for the cell at `(x, y)`: unopened cells hide
    /// their content, a revealed mine shows as a mine, and any other
    /// revealed cell shows its neighboring-mine count.
    pub open spec fn cell_glyph(self, x: usize, y: usize) -> Seq<char> {
        if !self.open_set().contains((x, y)) {
            unopened_glyph()
        } else if self.mines_set().contains((x, y)) {
            mine_glyph()
        } else {
            count_glyph(self.neighbor_mines((x, y)).len() as int)
        }
    }

    /// The first `x` cell glyphs of row `y`.
    pub open spec fn row_chars(self, y: usize, x: int) -> Seq<char>
        decreases x,
    {
        if x <= 0 {
            Seq::<char>::empty()
        } else {
            self.row_chars(y, x - 1) + self.cell_glyph((x - 1) as usize, y)
        }
    }

    /// The first `y` rendered rows, each of the full width and
    /// newline-terminated.
    pub open spec fn grid_chars(self, y: int) -> Seq<char>
        decreases y,
    {
        if y <= 0 {
            Seq::<char>::empty()
        } else {
            self.grid_chars(y - 1) + self.row_chars((y - 1) as usize, self.spec_width() as int)
                + seq!['\n']
        }
    }

    /// The whole rendering: all `height` rows.
    pub open spec fn render_spec(self) -> Seq<char> {
        self.grid_chars(self.spec_height() as int)
    }

    /// Renders the board, row by row.  A read-only projection: the board is
    /// not touched, and equal boards render equally.
    pub fn render(&self) -> (out: String)
        requires
            self.wf(),
        ensures
            out@ == self.render_spec(),
    {
        let mut out = String::new();
        let mut y: usize = 0;
        while y < self.height()
            invariant
                self.wf(),
                y <= self.spec_height(),
                out@ == self.grid_chars(y as int),
            decreases self.spec_height() - y,
        {
            let mut x: usize = 0;
            while x < self.width()
                invariant
                    self.wf(),
                    y < self.spec_height(),
                    x <= self.spec_width(),
                    out@ == self.grid_chars(y as int) + self.row_chars(y, x as int),
                decreases self.spec_width() - x,
            {
                if !self.is_open((x, y)) {
                    out.append("\u{2b1b}\u{fe0f}");
                } else if self.is_mine((x, y)) {
                    out.append("\u{1f4a3}");
                } else {
                    let n = self.neighbor_mine_count((x, y));
                    out.append(count_cell(n));
                }
                proof {
                    assert(out@ =~= self.grid_chars(y as int) + self.row_chars(y, x + 1));
                }
                x = x + 1;
            }
            out.append("\n");
            proof {
                reveal_strlit("\n");
                assert(("\n")@ =~= seq!['\n']);
                assert(out@ =~= self.grid_chars(y + 1));
            }
            y = y + 1;
        }
        out
    }
}

} // verus!
