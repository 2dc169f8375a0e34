//! Board-wide laws, stated and proved once for all boards.

use vstd::prelude::*;

use crate::board::MineSweeper;
use crate::board::count_where;
use crate::board::high_clip;
use crate::board::in_bounds;
use crate::board::is_neighbor_in;
use crate::board::lemma_count_where_is_filter_len;
use crate::board::low_clip;
use crate::board::neighbor_count;
use crate::render::unopened_glyph;

verus! {

/// Opening is idempotent on the revealed set: opening a cell puts it in the
/// set, and opening it again changes nothing.  `open` grows the revealed set
/// by exactly `insert`, so this law covers repeated calls on any cell.
pub proof fn lemma_open_idempotent(s: Set<(usize, usize)>, p: (usize, usize))
    ensures
        s.insert(p).contains(p),
        s.insert(p).insert(p) == s.insert(p),
{
    assert(s.insert(p).insert(p) =~= s.insert(p));
}

/// The neighboring-mine count is exactly the number of members of the mine
/// set among the cells that `neighbors` returns: for any duplicate-free
/// sequence holding precisely the neighbors of `p` (which is what
/// `neighbors(p)` ensures), counting its mined entries gives the cardinality
/// of `neighbor_mines(p)` (which is what `neighbor_mine_count(p)` returns).
pub proof fn lemma_mine_count_over_neighbors(
    b: MineSweeper,
    ns: Seq<(usize, usize)>,
    p: (usize, usize),
)
    requires
        ns.no_duplicates(),
        forall|q: (usize, usize)| #[trigger]
            ns.contains(q) <==> is_neighbor_in(b.spec_width(), b.spec_height(), p, q),
    ensures
        count_where(ns, |q: (usize, usize)| b.mines_set().contains(q)) == b.neighbor_mines(
            p,
        ).len(),
{
    let f = |q: (usize, usize)| b.mines_set().contains(q);
    lemma_count_where_is_filter_len(ns, f);
    assert(ns.to_set().filter(f) =~= b.neighbor_mines(p));
}

/// How many neighbors a cell has, by where it lies: on a grid of at least
/// 2 by 2, a corner cell has exactly 3; an edge cell that is not a corner
/// has exactly 5; an interior cell has exactly 8.
pub proof fn lemma_neighbor_count_by_location(width: usize, height: usize, p: (usize, usize))
    requires
        in_bounds(width, height, p),
    ensures
        (2 <= width && 2 <= height && (p.0 == 0 || p.0 == width - 1) && (p.1 == 0 || p.1 == height
            - 1)) ==> neighbor_count(width, height, p) == 3,
        (2 <= height && (p.1 == 0 || p.1 == height - 1) && 1 <= p.0 < width - 1)
            ==> neighbor_count(width, height, p) == 5,
        (2 <= width && (p.0 == 0 || p.0 == width - 1) && 1 <= p.1 < height - 1)
            ==> neighbor_count(width, height, p) == 5,
        (1 <= p.0 < width - 1 && 1 <= p.1 < height - 1) ==> neighbor_count(width, height, p) == 8,
{
    let sx = high_clip(p.0, width) - low_clip(p.0) + 1;
    let sy = high_clip(p.1, height) - low_clip(p.1) + 1;
    if 2 <= width && 2 <= height && (p.0 == 0 || p.0 == width - 1) && (p.1 == 0 || p.1 == height
        - 1) {
        assert(sx == 2 && sy == 2);
        assert(sx * sy == 4) by (nonlinear_arith)
            requires
                sx == 2 && sy == 2,
        ;
    }
    if 2 <= height && (p.1 == 0 || p.1 == height - 1) && 1 <= p.0 < width - 1 {
        assert(sx == 3 && sy == 2);
        assert(sx * sy == 6) by (nonlinear_arith)
            requires
                sx == 3 && sy == 2,
        ;
    }
    if 2 <= width && (p.0 == 0 || p.0 == width - 1) && 1 <= p.1 < height - 1 {
        assert(sx == 2 && sy == 3);
        assert(sx * sy == 6) by (nonlinear_arith)
            requires
                sx == 2 && sy == 3,
        ;
    }
    if 1 <= p.0 < width - 1 && 1 <= p.1 < height - 1 {
        assert(sx == 3 && sy == 3);
        assert(sx * sy == 9) by (nonlinear_arith)
            requires
                sx == 3 && sy == 3,
        ;
    }
}

/// `n` copies of the unopened glyph in a row.
pub open spec fn unopened_row(n: int) -> Seq<char>
    decreases n,
{
    if n <= 0 {
        Seq::<char>::empty()
    } else {
        unopened_row(n - 1) + unopened_glyph()
    }
}

/// `h` newline-terminated rows of `w` unopened glyphs each.
pub open spec fn unopened_grid(w: int, h: int) -> Seq<char>
    decreases h,
{
    if h <= 0 {
        Seq::<char>::empty()
    } else {
        unopened_grid(w, h - 1) + unopened_row(w) + seq!['\n']
    }
}

proof fn lemma_row_unopened(b: MineSweeper, y: usize, x: int)
    requires
        b.open_set() == Set::<(usize, usize)>::empty(),
    ensures
        b.row_chars(y, x) == unopened_row(x),
    decreases x,
{
    if x > 0 {
        lemma_row_unopened(b, y, x - 1);
    }
}

proof fn lemma_grid_unopened(b: MineSweeper, y: int)
    requires
        b.open_set() == Set::<(usize, usize)>::empty(),
    ensures
        b.grid_chars(y) == unopened_grid(b.spec_width() as int, y),
    decreases y,
{
    if y > 0 {
        lemma_grid_unopened(b, y - 1);
        lemma_row_unopened(b, (y - 1) as usize, b.spec_width() as int);
    }
}

/// Rendering a board on which nothing has been opened shows the unopened
/// glyph at every one of its cells: the whole rendering is `height` rows of
/// `width` unopened glyphs.
pub proof fn lemma_render_unopened(b: MineSweeper)
    requires
        b.open_set() == Set::<(usize, usize)>::empty(),
    ensures
        forall|x: usize, y: usize| #[trigger] b.cell_glyph(x, y) == unopened_glyph(),
        b.render_spec() == unopened_grid(b.spec_width() as int, b.spec_height() as int),
{
    lemma_grid_unopened(b, b.spec_height() as int);
}

/// Rendering is deterministic and side-effect free: it is a function of the
/// board alone, so any two renderings of the same board are equal.
pub proof fn lemma_render_deterministic(b: MineSweeper, r1: Seq<char>, r2: Seq<char>)
    requires
        r1 == b.render_spec(),
        r2 == b.render_spec(),
    ensures
        r1 == r2,
{
}

} // verus!
