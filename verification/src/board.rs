//! The minesweeper board: grid state, mine placement, reveal logic and the
//! neighboring-mine computation.

use vstd::prelude::*;
use vstd::seq_lib::seq_to_set_is_finite;

use crate::rng::random_below;

verus! {

/// The outcome of revealing a cell: either the cell held a mine, or it did
/// not and carries a count payload (always `0` in this engine: the board does
/// not cascade and reports the true neighbor count only through
/// [`MineSweeper::neighbor_mine_count`]).
#[derive(Clone, Copy, Debug, PartialEq, Eq, Structural)]
pub enum OpenResult {
    Mine,
    NoMine(u8),
}

/// A rejected input: the board validates its inputs instead of panicking or
/// looping forever.
#[derive(Clone, Copy, Debug, PartialEq, Eq, Structural)]
pub enum BoardError {
    /// `new` was given a zero width or a zero height.
    EmptyBoard,
    /// `new` was given more mines than the grid has cells.
    TooManyMines,
    /// `open` was given a position outside the grid.
    OutOfBounds,
}

/// `p` lies on a `width` by `height` grid.
pub open spec fn in_bounds(width: usize, height: usize, p: (usize, usize)) -> bool {
    p.0 < width && p.1 < height
}

/// `q` is one of the at most 8 cells adjacent to `p` (diagonals included),
/// clipped to the grid; `p` is not its own neighbor.
pub open spec fn is_neighbor_in(
    width: usize,
    height: usize,
    p: (usize, usize),
    q: (usize, usize),
) -> bool {
    &&& in_bounds(width, height, q)
    &&& q != p
    &&& p.0 <= q.0 + 1 && q.0 <= p.0 + 1
    &&& p.1 <= q.1 + 1 && q.1 <= p.1 + 1
}

/// The lower end of the 3-cell band around coordinate `c`, clipped at 0.
pub open spec fn low_clip(c: usize) -> int {
    if c >= 1 {
        c - 1
    } else {
        0
    }
}

/// The upper end of the 3-cell band around coordinate `c`, clipped at
/// `dim - 1`.
pub open spec fn high_clip(c: usize, dim: usize) -> int {
    if c + 1 <= dim - 1 {
        c + 1
    } else {
        dim - 1
    }
}

/// How many neighbors a cell at `p` has: the area of the clipped 3 by 3
/// block minus the cell itself.
pub open spec fn neighbor_count(width: usize, height: usize, p: (usize, usize)) -> int {
    (high_clip(p.0, width) - low_clip(p.0) + 1) * (high_clip(p.1, height) - low_clip(p.1) + 1) - 1
}

/// How many positions of `s` satisfy `f`.
pub open spec fn count_where(s: Seq<(usize, usize)>, f: spec_fn((usize, usize)) -> bool) -> int
    decreases s.len(),
{
    if s.len() == 0 {
        0
    } else {
        count_where(s.drop_last(), f) + if f(s.last()) {
            1int
        } else {
            0int
        }
    }
}

/// Row-major index of `p` on a grid `width` cells wide.
pub open spec fn cell_index(width: usize, p: (usize, usize)) -> int {
    p.1 * width + p.0
}

/// Appending an element to a sequence extends membership by exactly that
/// element.
proof fn lemma_push_contains(s: Seq<(usize, usize)>, v: (usize, usize), q: (usize, usize))
    ensures
        s.push(v).contains(q) <==> (s.contains(q) || q == v),
{
    if s.push(v).contains(q) {
        let i = choose|i: int| 0 <= i < s.push(v).len() && s.push(v)[i] == q;
        if i < s.len() {
            assert(s[i] == q);
        }
    }
    if s.contains(q) {
        let i = choose|i: int| 0 <= i < s.len() && s[i] == q;
        assert(s.push(v)[i] == q);
    }
    if q == v {
        assert(s.push(v)[s.len() as int] == q);
    }
}

/// Appending a fresh element keeps a sequence duplicate-free.
proof fn lemma_push_no_duplicates(s: Seq<(usize, usize)>, v: (usize, usize))
    requires
        s.no_duplicates(),
        !s.contains(v),
    ensures
        s.push(v).no_duplicates(),
{
    assert forall|i: int, j: int|
        0 <= i < s.push(v).len() && 0 <= j < s.push(v).len() && i != j implies s.push(v)[i]
        != s.push(v)[j] by {
        if i < s.len() && j < s.len() {
            assert(s[i] == s.push(v)[i] && s[j] == s.push(v)[j]);
        } else if j == s.len() {
            assert(s.contains(s[i]));
        } else {
            assert(s.contains(s[j]));
        }
    }
}

/// Counting the members that satisfy `f` in a duplicate-free sequence is the
/// cardinality of the filtered set of its elements.
pub proof fn lemma_count_where_is_filter_len(
    s: Seq<(usize, usize)>,
    f: spec_fn((usize, usize)) -> bool,
)
    requires
        s.no_duplicates(),
    ensures
        s.to_set().filter(f).finite(),
        count_where(s, f) == s.to_set().filter(f).len(),
    decreases s.len(),
{
    broadcast use seq_to_set_is_finite;

    s.to_set().lemma_len_filter(f);
    s.unique_seq_to_set();
    if s.len() == 0 {
        assert(s.to_set().filter(f) =~= Set::<(usize, usize)>::empty());
    } else {
        let d = s.drop_last();
        let v = s.last();
        assert(d.no_duplicates());
        assert(!d.contains(v)) by {
            if d.contains(v) {
                let i = choose|i: int| 0 <= i < d.len() && d[i] == v;
                assert(s[i] == v && s[s.len() - 1] == v);
            }
        }
        lemma_count_where_is_filter_len(d, f);
        assert(s =~= d.push(v));
        assert forall|q: (usize, usize)| #[trigger]
            s.to_set().contains(q) <==> (d.to_set().contains(q) || q == v) by {
            lemma_push_contains(d, v, q);
        }
        if f(v) {
            assert(s.to_set().filter(f) =~= d.to_set().filter(f).insert(v));
            assert(!d.to_set().filter(f).contains(v));
        } else {
            assert(s.to_set().filter(f) =~= d.to_set().filter(f));
        }
    }
}

/// A cell has at most 8 neighbors, so at most 8 of any set's members are its
/// neighbors.
pub proof fn lemma_neighbor_filter_len_le_8(
    m: Set<(usize, usize)>,
    width: usize,
    height: usize,
    p: (usize, usize),
)
    requires
        in_bounds(width, height, p),
    ensures
        m.filter(|q: (usize, usize)| is_neighbor_in(width, height, p, q)).len() <= 8,
{
    let (px, py) = p;
    let xm: usize = if px >= 1 {
        (px - 1) as usize
    } else {
        px
    };
    let ym: usize = if py >= 1 {
        (py - 1) as usize
    } else {
        py
    };
    let xp: usize = (px + 1) as usize;
    let yp: usize = (py + 1) as usize;
    let cs = Set::<(usize, usize)>::empty().insert((xm, ym)).insert((xm, py)).insert(
        (xm, yp),
    ).insert((px, ym)).insert((px, py)).insert((px, yp)).insert((xp, ym)).insert((xp, py)).insert(
        (xp, yp),
    );
    let around = cs.remove((px, py));
    assert(around.finite());
    assert(around.len() <= 8);
    let nf = m.filter(|q: (usize, usize)| is_neighbor_in(width, height, p, q));
    assert forall|q: (usize, usize)| nf.contains(q) implies around.contains(q) by {
        assert(is_neighbor_in(width, height, p, q));
        assert(q.0 == xm || q.0 == px || q.0 == xp);
        assert(q.1 == ym || q.1 == py || q.1 == yp);
    }
    vstd::set_lib::lemma_len_subset(nf, around);
}

/// The minesweeper engine: a `width` by `height` grid, a set of mines fixed
/// at construction, and the sets of revealed and flagged cells.
pub struct MineSweeper {
    width: usize,
    height: usize,
    open_fields: Vec<(usize, usize)>,
    mines: Vec<(usize, usize)>,
    flagged_fields: Vec<(usize, usize)>,
}

/// `v@.contains(p)`, decided by a scan.
fn vec_contains_pos(v: &Vec<(usize, usize)>, p: (usize, usize)) -> (r: bool)
    ensures
        r == v@.contains(p),
{
    let mut i: usize = 0;
    while i < v.len()
        invariant
            i <= v@.len(),
            forall|k: int| 0 <= k < i ==> v@[k] != p,
        decreases v@.len() - i,
    {
        if v[i].0 == p.0 && v[i].1 == p.1 {
            assert(v@[i as int] == p);
            return true;
        }
        i = i + 1;
    }
    false
}

/// Inserts `p` into the duplicate-free sequence held by `v`, as a set
/// insertion: a present element is not inserted twice.
fn vec_insert_pos(v: &mut Vec<(usize, usize)>, p: (usize, usize))
    requires
        old(v)@.no_duplicates(),
    ensures
        final(v)@.no_duplicates(),
        final(v)@.to_set() == old(v)@.to_set().insert(p),
        forall|i: int|
            0 <= i < final(v)@.len() ==> (old(v)@.contains(#[trigger] final(v)@[i])
                || final(v)@[i] == p),
{
    let present = vec_contains_pos(v, p);
    if !present {
        v.push(p);
        proof {
            lemma_push_no_duplicates(old(v)@, p);
            assert forall|q: (usize, usize)| #[trigger]
                v@.contains(q) <==> (old(v)@.contains(q) || q == p) by {
                lemma_push_contains(old(v)@, p, q);
            }
            assert(v@.to_set() =~= old(v)@.to_set().insert(p));
            assert forall|i: int|
                0 <= i < v@.len() implies (old(v)@.contains(#[trigger] v@[i]) || v@[i] == p) by {
                assert(v@.contains(v@[i]));
            }
        }
    } else {
        proof {
            assert(v@.to_set() =~= old(v)@.to_set().insert(p));
            assert forall|i: int|
                0 <= i < v@.len() implies (old(v)@.contains(#[trigger] v@[i]) || v@[i] == p) by {
                assert(v@.contains(v@[i]));
            }
        }
    }
}

impl MineSweeper {
    /// The grid width the board was constructed with.
    pub closed spec fn spec_width(self) -> usize {
        self.width
    }

    /// The grid height the board was constructed with.
    pub closed spec fn spec_height(self) -> usize {
        self.height
    }

    /// The set of mined cells, fixed at construction.
    pub closed spec fn mines_set(self) -> Set<(usize, usize)> {
        self.mines@.to_set()
    }

    /// The set of revealed cells; grows monotonically under `open`.
    pub closed spec fn open_set(self) -> Set<(usize, usize)> {
        self.open_fields@.to_set()
    }

    /// The set of flagged cells.
    pub closed spec fn flagged_set(self) -> Set<(usize, usize)> {
        self.flagged_fields@.to_set()
    }

    /// The board's invariant: positive dimensions, a grid that fits the
    /// machine, and duplicate-free, in-bounds position lists.
    pub closed spec fn wf(self) -> bool {
        &&& 1 <= self.width
        &&& 1 <= self.height
        &&& self.width * self.height <= usize::MAX
        &&& self.mines@.no_duplicates()
        &&& self.open_fields@.no_duplicates()
        &&& self.flagged_fields@.no_duplicates()
        &&& forall|i: int|
            0 <= i < self.mines@.len() ==> in_bounds(
                self.width,
                self.height,
                #[trigger] self.mines@[i],
            )
        &&& forall|i: int|
            0 <= i < self.open_fields@.len() ==> in_bounds(
                self.width,
                self.height,
                #[trigger] self.open_fields@[i],
            )
        &&& forall|i: int|
            0 <= i < self.flagged_fields@.len() ==> in_bounds(
                self.width,
                self.height,
                #[trigger] self.flagged_fields@[i],
            )
    }

    /// The mines of a cell's neighborhood.
    pub open spec fn neighbor_mines(self, p: (usize, usize)) -> Set<(usize, usize)> {
        self.mines_set().filter(
            |q: (usize, usize)| is_neighbor_in(self.spec_width(), self.spec_height(), p, q),
        )
    }

    /// What a well-formed board guarantees of its three position sets: they
    /// are finite and hold only in-bounds positions.
    pub proof fn lemma_wf_sets(self)
        requires
            self.wf(),
        ensures
            1 <= self.spec_width(),
            1 <= self.spec_height(),
            self.spec_width() * self.spec_height() <= usize::MAX,
            self.mines_set().finite(),
            self.open_set().finite(),
            self.flagged_set().finite(),
            forall|p: (usize, usize)|
                self.mines_set().contains(p) ==> in_bounds(
                    self.spec_width(),
                    self.spec_height(),
                    p,
                ),
            forall|p: (usize, usize)|
                self.open_set().contains(p) ==> in_bounds(self.spec_width(), self.spec_height(), p),
            forall|p: (usize, usize)|
                self.flagged_set().contains(p) ==> in_bounds(
                    self.spec_width(),
                    self.spec_height(),
                    p,
                ),
    {
        broadcast use seq_to_set_is_finite;

    }

    /// The grid width.
    pub fn width(&self) -> (r: usize)
        ensures
            r == self.spec_width(),
    {
        self.width
    }

    /// The grid height.
    pub fn height(&self) -> (r: usize)
        ensures
            r == self.spec_height(),
    {
        self.height
    }

    /// Whether `p` has been revealed.
    pub fn is_open(&self, p: (usize, usize)) -> (r: bool)
        ensures
            r == self.open_set().contains(p),
    {
        vec_contains_pos(&self.open_fields, p)
    }

    /// Whether `p` holds a mine.
    pub fn is_mine(&self, p: (usize, usize)) -> (r: bool)
        ensures
            r == self.mines_set().contains(p),
    {
        vec_contains_pos(&self.mines, p)
    }

    /// Builds a board: `mine_count` distinct mines drawn uniformly over a
    /// `width` by `height` grid, with nothing revealed and nothing flagged.
    /// Invalid inputs are rejected instead of looping forever.
    pub fn new(width: usize, height: usize, mine_count: usize) -> (r: Result<MineSweeper, BoardError>)
        requires
            width * height <= usize::MAX,
        ensures
            r is Ok <==> (1 <= width && 1 <= height && mine_count <= width * height),
            (width == 0 || height == 0) ==> r == Err::<MineSweeper, BoardError>(
                BoardError::EmptyBoard,
            ),
            (1 <= width && 1 <= height && mine_count > width * height) ==> r == Err::<
                MineSweeper,
                BoardError,
            >(BoardError::TooManyMines),
            r matches Ok(b) ==> {
                &&& b.wf()
                &&& b.spec_width() == width
                &&& b.spec_height() == height
                &&& b.mines_set().finite()
                &&& b.mines_set().len() == mine_count
                &&& forall|p: (usize, usize)| b.mines_set().contains(p) ==> in_bounds(width, height, p)
                &&& b.open_set() == Set::<(usize, usize)>::empty()
                &&& b.flagged_set() == Set::<(usize, usize)>::empty()
            },
    {
        if width == 0 || height == 0 {
            return Err(BoardError::EmptyBoard);
        }
        let total: usize = width * height;
        if mine_count > total {
            return Err(BoardError::TooManyMines);
        }
        let mut mines: Vec<(usize, usize)> = Vec::new();
        let mut rem: usize = total;
        let mut y: usize = 0;
        while y < height
            invariant
                1 <= width,
                1 <= height,
                total == width * height,
                mine_count <= total,
                y <= height,
                rem == total - y * width,
                mines@.len() <= mine_count,
                mine_count - mines@.len() <= rem,
                forall|i: int|
                    0 <= i < mines@.len() ==> in_bounds(width, height, #[trigger] mines@[i]),
                forall|i: int|
                    0 <= i < mines@.len() ==> cell_index(width, #[trigger] mines@[i]) < y * width,
                forall|i: int, j: int|
                    0 <= i < j < mines@.len() ==> cell_index(width, mines@[i]) < cell_index(
                        width,
                        mines@[j],
                    ),
            decreases height - y,
        {
            let mut x: usize = 0;
            while x < width
                invariant
                    1 <= width,
                    1 <= height,
                    total == width * height,
                    mine_count <= total,
                    y < height,
                    x <= width,
                    rem == total - (y * width + x),
                    mines@.len() <= mine_count,
                    mine_count - mines@.len() <= rem,
                    forall|i: int|
                        0 <= i < mines@.len() ==> in_bounds(width, height, #[trigger] mines@[i]),
                    forall|i: int|
                        0 <= i < mines@.len() ==> cell_index(width, #[trigger] mines@[i]) < y * width
                            + x,
                    forall|i: int, j: int|
                        0 <= i < j < mines@.len() ==> cell_index(width, mines@[i]) < cell_index(
                            width,
                            mines@[j],
                        ),
                decreases width - x,
            {
                assert(y * width + x < width * height) by (nonlinear_arith)
                    requires
                        0 <= x < width,
                        0 <= y < height,
                ;
                let need = mine_count - mines.len();
                if need > 0 {
                    let d = random_below(0, rem);
                    if d < need {
                        let ghost prev = mines@;
                        mines.push((x, y));
                        proof {
                            assert forall|i: int|
                                0 <= i < mines@.len() implies cell_index(
                                width,
                                #[trigger] mines@[i],
                            ) < y * width + x + 1 by {
                                if i < prev.len() {
                                    assert(mines@[i] == prev[i]);
                                } else {
                                    assert(mines@[i] == (x, y));
                                }
                            }
                        }
                    }
                }
                rem = rem - 1;
                x = x + 1;
            }
            proof {
                assert((y + 1) * width == y * width + width) by (nonlinear_arith);
            }
            y = y + 1;
        }
        proof {
            assert(height * width == width * height) by (nonlinear_arith);
        }
        let board = MineSweeper {
            width,
            height,
            open_fields: Vec::new(),
            mines,
            flagged_fields: Vec::new(),
        };
        proof {
            broadcast use seq_to_set_is_finite;

            assert(board.mines@.no_duplicates()) by {
                assert forall|i: int, j: int|
                    0 <= i < board.mines@.len() && 0 <= j < board.mines@.len() && i
                        != j implies board.mines@[i] != board.mines@[j] by {
                    if i < j {
                        assert(cell_index(width, board.mines@[i]) < cell_index(
                            width,
                            board.mines@[j],
                        ));
                    } else {
                        assert(cell_index(width, board.mines@[j]) < cell_index(
                            width,
                            board.mines@[i],
                        ));
                    }
                }
            }
            board.mines@.unique_seq_to_set();
            assert forall|p: (usize, usize)| board.mines_set().contains(p) implies in_bounds(
                width,
                height,
                p,
            ) by {
                let i = choose|i: int| 0 <= i < board.mines@.len() && board.mines@[i] == p;
            }
            assert(board.open_set() =~= Set::<(usize, usize)>::empty());
            assert(board.flagged_set() =~= Set::<(usize, usize)>::empty());
        }
        Ok(board)
    }

    /// Reveals `p`: an out-of-bounds position is rejected and changes
    /// nothing; otherwise `p` joins the revealed set (idempotently), and the
    /// result is `Mine` exactly when `p` is mined.  Mines, flags and the
    /// dimensions never change.
    pub fn open(&mut self, position: (usize, usize)) -> (r: Result<OpenResult, BoardError>)
        requires
            old(self).wf(),
        ensures
            final(self).wf(),
            final(self).spec_width() == old(self).spec_width(),
            final(self).spec_height() == old(self).spec_height(),
            final(self).mines_set() == old(self).mines_set(),
            final(self).flagged_set() == old(self).flagged_set(),
            old(self).open_set().subset_of(final(self).open_set()),
            r is Ok <==> in_bounds(old(self).spec_width(), old(self).spec_height(), position),
            in_bounds(old(self).spec_width(), old(self).spec_height(), position)
                ==> final(self).open_set() == old(self).open_set().insert(position)
                    && final(self).open_set().contains(position),
            !in_bounds(old(self).spec_width(), old(self).spec_height(), position) ==> (r == Err::<
                OpenResult,
                BoardError,
            >(BoardError::OutOfBounds) && final(self).open_set() == old(self).open_set()),
            in_bounds(old(self).spec_width(), old(self).spec_height(), position) ==> (r == Ok::<
                OpenResult,
                BoardError,
            >(OpenResult::Mine) <==> old(self).mines_set().contains(position)),
            (in_bounds(old(self).spec_width(), old(self).spec_height(), position)
                && !old(self).mines_set().contains(position))
                ==> r == Ok::<OpenResult, BoardError>(OpenResult::NoMine(0)),
    {
        if !(position.0 < self.width && position.1 < self.height) {
            return Err(BoardError::OutOfBounds);
        }
        vec_insert_pos(&mut self.open_fields, position);
        proof {
            assert forall|i: int| 0 <= i < self.open_fields@.len() implies in_bounds(
                self.width,
                self.height,
                #[trigger] self.open_fields@[i],
            ) by {
                if old(self).open_fields@.contains(self.open_fields@[i]) {
                    let k = choose|k: int|
                        0 <= k < old(self).open_fields@.len() && old(self).open_fields@[k]
                            == self.open_fields@[i];
                }
            }
        }
        if vec_contains_pos(&self.mines, position) {
            proof {
                assert(self.mines_set().contains(position));
            }
            Ok(OpenResult::Mine)
        } else {
            proof {
                if self.mines_set().contains(position) {
                    let k = choose|k: int|
                        0 <= k < self.mines@.len() && self.mines@[k] == position;
                }
            }
            Ok(OpenResult::NoMine(0))
        }
    }

    /// The cells adjacent to `pos`, in column-major order: every in-bounds
    /// cell of the 3 by 3 block centered on `pos` except `pos` itself, each
    /// exactly once.
    pub fn neighbors(&self, pos: (usize, usize)) -> (r: Vec<(usize, usize)>)
        requires
            self.wf(),
            in_bounds(self.spec_width(), self.spec_height(), pos),
        ensures
            r@.no_duplicates(),
            forall|q: (usize, usize)| #[trigger]
                r@.contains(q) <==> is_neighbor_in(self.spec_width(), self.spec_height(), pos, q),
            r@.len() == neighbor_count(self.spec_width(), self.spec_height(), pos),
    {
        let (px, py) = pos;
        let x_lo: usize = if px >= 1 {
            px - 1
        } else {
            0
        };
        let x_hi: usize = if px + 1 <= self.width - 1 {
            px + 1
        } else {
            self.width - 1
        };
        let y_lo: usize = if py >= 1 {
            py - 1
        } else {
            0
        };
        let y_hi: usize = if py + 1 <= self.height - 1 {
            py + 1
        } else {
            self.height - 1
        };
        let ghost span_y: int = y_hi - y_lo + 1;
        let mut r: Vec<(usize, usize)> = Vec::new();
        let mut i: usize = x_lo;
        while i <= x_hi
            invariant
                pos == (px, py),
                x_lo == low_clip(px),
                x_hi == high_clip(px, self.spec_width()),
                y_lo == low_clip(py),
                y_hi == high_clip(py, self.spec_height()),
                span_y == y_hi - y_lo + 1,
                x_lo <= i <= x_hi + 1,
                x_lo <= px <= x_hi,
                y_lo <= py <= y_hi,
                x_hi < self.spec_width(),
                y_hi < self.spec_height(),
                r@.no_duplicates(),
                forall|q: (usize, usize)| #[trigger]
                    r@.contains(q) <==> (x_lo <= q.0 <= x_hi && y_lo <= q.1 <= y_hi && q != pos
                        && q.0 < i),
                r@.len() == (i - x_lo) * span_y - (if px < i {
                    1int
                } else {
                    0int
                }),
            decreases x_hi + 1 - i,
        {
            let mut j: usize = y_lo;
            while j <= y_hi
                invariant
                    pos == (px, py),
                    x_lo == low_clip(px),
                    x_hi == high_clip(px, self.spec_width()),
                    y_lo == low_clip(py),
                    y_hi == high_clip(py, self.spec_height()),
                    span_y == y_hi - y_lo + 1,
                    x_lo <= i <= x_hi,
                    y_lo <= j <= y_hi + 1,
                    x_lo <= px <= x_hi,
                    y_lo <= py <= y_hi,
                    x_hi < self.spec_width(),
                    y_hi < self.spec_height(),
                    r@.no_duplicates(),
                    forall|q: (usize, usize)| #[trigger]
                        r@.contains(q) <==> (x_lo <= q.0 <= x_hi && y_lo <= q.1 <= y_hi && q != pos
                            && (q.0 < i || (q.0 == i && q.1 < j))),
                    r@.len() == (i - x_lo) * span_y + (j - y_lo) - (if px < i || (px == i && py < j) {
                        1int
                    } else {
                        0int
                    }),
                decreases y_hi + 1 - j,
            {
                if !(i == px && j == py) {
                    let ghost prev = r@;
                    r.push((i, j));
                    proof {
                        assert(!prev.contains((i, j)));
                        lemma_push_no_duplicates(prev, (i, j));
                        assert forall|q: (usize, usize)| #[trigger]
                            r@.contains(q) <==> (prev.contains(q) || q == (i, j)) by {
                            lemma_push_contains(prev, (i, j), q);
                        }
                    }
                }
                j = j + 1;
            }
            proof {
                assert((i + 1 - x_lo) * span_y == (i - x_lo) * span_y + span_y) by (nonlinear_arith);
            }
            i = i + 1;
        }
        proof {
            assert((x_hi + 1 - x_lo) * span_y == (x_hi - x_lo + 1) * (y_hi - y_lo + 1))
                by (nonlinear_arith)
                requires
                    span_y == y_hi - y_lo + 1,
            ;
        }
        r
    }

    /// How many mines lie in the neighborhood of `pos`: the cardinality of
    /// `neighbor_mines(pos)`, never more than 8.
    pub fn neighbor_mine_count(&self, pos: (usize, usize)) -> (r: usize)
        requires
            self.wf(),
            in_bounds(self.spec_width(), self.spec_height(), pos),
        ensures
            r == self.neighbor_mines(pos).len(),
            r <= 8,
    {
        let ghost f = |q: (usize, usize)| is_neighbor_in(self.spec_width(), self.spec_height(), pos, q);
        let mut cnt: usize = 0;
        let mut k: usize = 0;
        while k < self.mines.len()
            invariant
                k <= self.mines@.len(),
                cnt <= k,
                cnt == count_where(self.mines@.take(k as int), f),
                f == (|q: (usize, usize)| is_neighbor_in(self.spec_width(), self.spec_height(), pos, q)),
                self.wf(),
                in_bounds(self.spec_width(), self.spec_height(), pos),
            decreases self.mines@.len() - k,
        {
            let q = self.mines[k];
            let adjacent = is_adjacent(self.width, self.height, pos, q);
            proof {
                assert(self.mines@.take(k + 1).drop_last() =~= self.mines@.take(k as int));
                assert(self.mines@.take(k + 1).last() == q);
            }
            if adjacent {
                cnt = cnt + 1;
            }
            k = k + 1;
        }
        proof {
            assert(self.mines@.take(self.mines@.len() as int) =~= self.mines@);
            lemma_count_where_is_filter_len(self.mines@, f);
            assert(self.mines@.to_set().filter(f) =~= self.neighbor_mines(pos));
            lemma_neighbor_filter_len_le_8(
                self.mines_set(),
                self.spec_width(),
                self.spec_height(),
                pos,
            );
            assert(self.mines_set().filter(
                |q: (usize, usize)| is_neighbor_in(self.spec_width(), self.spec_height(), pos, q),
            ) =~= self.neighbor_mines(pos));
        }
        cnt
    }
}

/// Whether `q` is adjacent to `p` on the grid, decided by comparisons.
fn is_adjacent(width: usize, height: usize, p: (usize, usize), q: (usize, usize)) -> (r: bool)
    requires
        in_bounds(width, height, p),
    ensures
        r == is_neighbor_in(width, height, p, q),
{
    q.0 < width && q.1 < height && !(q.0 == p.0 && q.1 == p.1) && p.0 <= q.0 + 1 && q.0 <= p.0 + 1
        && p.1 <= q.1 + 1 && q.1 <= p.1 + 1
}

} // verus!
