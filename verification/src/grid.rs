//! The mathematical grid: what a universe is, apart from how it is stored.
//!
//! A [`Grid`] is a width, a height and one boolean per cell, row after row.
//! Rows and columns are `int`s here, so that a contract can speak of the
//! cell "one to the left" before saying where the torus puts it.

use vstd::arithmetic::div_mod::{
    lemma_fundamental_div_mod,
    lemma_fundamental_div_mod_converse,
    lemma_mod_bound,
};
use vstd::prelude::*;

verus! {

/// The position `i` folded onto a ring of `n` places.
pub open spec fn wrap(i: int, n: int) -> int {
    i % n
}

/// One for a live cell, zero for a dead one.
pub open spec fn census(alive: bool) -> int {
    if alive {
        1
    } else {
        0
    }
}

/// The glyph that stands for a live cell in a rendering.
pub const ALIVE_GLYPH: char = '\u{25FC}';

/// The glyph that stands for a dead cell in a rendering.
pub const DEAD_GLYPH: char = '\u{25FB}';

/// The glyph of a cell: a black square when alive, a white one when dead.
pub open spec fn glyph(alive: bool) -> char {
    if alive {
        ALIVE_GLYPH
    } else {
        DEAD_GLYPH
    }
}

/// The rule of the game: what becomes of a cell with `n` live neighbours.
/// A live cell stays alive with two or three of them, a dead cell comes
/// alive with exactly three, and every other cell is dead in the next
/// generation.
pub open spec fn next_state(alive: bool, n: int) -> bool {
    if alive {
        n == 2 || n == 3
    } else {
        n == 3
    }
}

/// A grid of cells, each alive or dead. The cell `(row, col)` is entry
/// `row * width + col` of `cells`.
pub struct Grid {
    pub width: nat,
    pub height: nat,
    pub cells: Seq<bool>,
}

impl Grid {
    /// There is exactly one entry per cell.
    pub open spec fn wf(self) -> bool {
        self.cells.len() == self.width * self.height
    }

    /// `(row, col)` names a cell of the grid.
    pub open spec fn contains(self, row: int, col: int) -> bool {
        0 <= row < self.height && 0 <= col < self.width
    }

    /// Where the cell `(row, col)` stands in `cells`.
    pub open spec fn index(self, row: int, col: int) -> int {
        row * self.width + col
    }

    /// Whether the cell `(row, col)` is alive.
    pub open spec fn alive(self, row: int, col: int) -> bool {
        self.cells[self.index(row, col)]
    }

    /// Both grids have the same width and the same height.
    pub open spec fn same_shape(self, other: Grid) -> bool {
        self.width == other.width && self.height == other.height
    }

    /// Every pair in `cells` names a cell of the grid.
    pub open spec fn contains_all(self, cells: Seq<(u32, u32)>) -> bool {
        forall|i: int|
            0 <= i < cells.len() ==> self.contains(
                (#[trigger] cells[i]).0 as int,
                cells[i].1 as int,
            )
    }

    /// The grid of the given shape with every cell dead.
    pub open spec fn blank(width: nat, height: nat) -> Grid {
        Grid { width, height, cells: Seq::new(width * height, |i: int| false) }
    }

    /// This grid with the one cell `(row, col)` set to `alive`.
    pub open spec fn with_cell(self, row: int, col: int, alive: bool) -> Grid {
        Grid { cells: self.cells.update(self.index(row, col), alive), ..self }
    }

    /// This grid with the one cell `(row, col)` flipped.
    pub open spec fn toggled(self, row: int, col: int) -> Grid {
        self.with_cell(row, col, !self.alive(row, col))
    }

    /// The state of the cell that lies `dr` rows and `dc` columns away from
    /// `(row, col)` on the torus.
    pub open spec fn neighbor(self, row: int, col: int, dr: int, dc: int) -> bool {
        self.alive(wrap(row + dr, self.height as int), wrap(col + dc, self.width as int))
    }

    /// The number of live cells among the eight neighbours of `(row, col)`.
    /// Each of the eight offsets is looked up on its own: on a grid with
    /// fewer than three rows or columns two offsets may land on one cell,
    /// which then counts once for each.
    pub open spec fn live_neighbors(self, row: int, col: int) -> int {
        census(self.neighbor(row, col, -1, -1)) + census(self.neighbor(row, col, -1, 0))
            + census(self.neighbor(row, col, -1, 1)) + census(self.neighbor(row, col, 0, -1))
            + census(self.neighbor(row, col, 0, 1)) + census(self.neighbor(row, col, 1, -1))
            + census(self.neighbor(row, col, 1, 0)) + census(self.neighbor(row, col, 1, 1))
    }

    /// The state of `(row, col)` one generation later.
    pub open spec fn next_alive(self, row: int, col: int) -> bool {
        next_state(self.alive(row, col), self.live_neighbors(row, col))
    }

    /// The text of one row: a glyph per cell, then a line break.
    pub open spec fn line(self, row: int) -> Seq<char> {
        Seq::new(self.width, |col: int| glyph(self.alive(row, col))).push('\n')
    }

    /// The text of the first `rows` rows, one line after the other.
    pub open spec fn lines(self, rows: nat) -> Seq<char>
        decreases rows,
    {
        if rows == 0 {
            Seq::empty()
        } else {
            self.lines((rows - 1) as nat) + self.line(rows - 1)
        }
    }

    /// The grid as text: one line per row, from the first row down.
    pub open spec fn rendering(self) -> Seq<char> {
        self.lines(self.height)
    }

    /// `later` is this grid one generation on: same shape, and every cell
    /// follows the rule from this grid's cells alone.
    pub open spec fn steps_to(self, later: Grid) -> bool {
        &&& later.wf()
        &&& later.same_shape(self)
        &&& forall|row: int, col: int|
            self.contains(row, col) ==> #[trigger] later.alive(row, col) == self.next_alive(
                row,
                col,
            )
    }
}

/// One step along the ring from a place on it: forward from the last place
/// leads to the first, backward from the first leads to the last, and a
/// step of no length leads nowhere else.
pub proof fn lemma_wrap_step(x: int, n: int)
    requires
        0 <= x < n,
    ensures
        wrap(x + 0, n) == x,
        wrap(x + 1, n) == (if x + 1 == n {
            0
        } else {
            x + 1
        }),
        wrap(x - 1, n) == (if x == 0 {
            n - 1
        } else {
            x - 1
        }),
{
    lemma_fundamental_div_mod_converse(x, n, 0, x);
    if x + 1 == n {
        lemma_fundamental_div_mod_converse(x + 1, n, 1, 0);
    } else {
        lemma_fundamental_div_mod_converse(x + 1, n, 0, x + 1);
    }
    if x == 0 {
        lemma_fundamental_div_mod_converse(x - 1, n, -1, n - 1);
    } else {
        lemma_fundamental_div_mod_converse(x - 1, n, 0, x - 1);
    }
}

/// The cells of a well-formed grid fill `cells` without gaps or overlap:
/// every cell has its own place inside the sequence.
pub proof fn lemma_index_in_range(g: Grid, row: int, col: int)
    requires
        g.wf(),
        g.contains(row, col),
    ensures
        0 <= g.index(row, col) < g.cells.len(),
{
    let w = g.width as int;
    let h = g.height as int;
    assert(0 <= row * w && row * w + w <= h * w) by (nonlinear_arith)
        requires
            0 <= row < h,
            0 <= w,
    ;
    assert(h * w == w * h) by (nonlinear_arith);
}

/// Two cells that share a place in `cells` are the same cell.
pub proof fn lemma_index_injective(g: Grid, r1: int, c1: int, r2: int, c2: int)
    requires
        g.contains(r1, c1),
        g.contains(r2, c2),
        g.index(r1, c1) == g.index(r2, c2),
    ensures
        r1 == r2,
        c1 == c2,
{
    let w = g.width as int;
    lemma_fundamental_div_mod_converse(g.index(r1, c1), w, r1, c1);
    lemma_fundamental_div_mod_converse(g.index(r2, c2), w, r2, c2);
}

/// Every place in `cells` belongs to a cell of the grid.
pub proof fn lemma_index_onto(g: Grid, i: int)
    requires
        g.wf(),
        0 <= i < g.cells.len(),
    ensures
        g.contains(i / (g.width as int), i % (g.width as int)),
        g.index(i / (g.width as int), i % (g.width as int)) == i,
{
    let w = g.width as int;
    let h = g.height as int;
    assert(w > 0) by (nonlinear_arith)
        requires
            0 <= i < w * h,
            0 <= w,
    ;
    lemma_fundamental_div_mod(i, w);
    lemma_mod_bound(i, w);
    let q = i / w;
    assert(w * q == q * w) by (nonlinear_arith);
    assert(0 <= q < h) by (nonlinear_arith)
        requires
            0 <= i < w * h,
            w > 0,
            i == q * w + i % w,
            0 <= i % w < w,
    ;
}

/// Setting one cell changes that cell and no other.
pub proof fn lemma_with_cell(g: Grid, row: int, col: int, alive: bool)
    requires
        g.wf(),
        g.contains(row, col),
    ensures
        g.with_cell(row, col, alive).wf(),
        g.with_cell(row, col, alive).same_shape(g),
        forall|r: int, c: int|
            g.contains(r, c) ==> #[trigger] g.with_cell(row, col, alive).alive(r, c) == (if r == row
                && c == col {
                alive
            } else {
                g.alive(r, c)
            }),
{
    let after = g.with_cell(row, col, alive);
    lemma_index_in_range(g, row, col);
    assert forall|r: int, c: int| g.contains(r, c) implies #[trigger] after.alive(r, c) == (if r
        == row && c == col {
        alive
    } else {
        g.alive(r, c)
    }) by {
        lemma_index_in_range(g, r, c);
        if g.index(r, c) == g.index(row, col) {
            lemma_index_injective(g, r, c, row, col);
        }
    }
}

/// Two well-formed grids of one shape whose cells agree everywhere are the
/// same grid.
pub proof fn lemma_grid_extensional(a: Grid, b: Grid)
    requires
        a.wf(),
        b.wf(),
        a.same_shape(b),
        forall|row: int, col: int| a.contains(row, col) ==> a.alive(row, col) == b.alive(row, col),
    ensures
        a == b,
{
    assert forall|i: int| 0 <= i < a.cells.len() implies a.cells[i] == b.cells[i] by {
        lemma_index_onto(a, i);
        let w = a.width as int;
        assert(a.alive(i / w, i % w) == b.alive(i / w, i % w));
    }
    assert(a.cells =~= b.cells);
}

} // verus!
