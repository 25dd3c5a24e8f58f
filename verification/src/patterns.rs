//! Stamping well-known patterns onto a universe.
//!
//! A pattern is placed around an origin and wraps round the edges of the
//! grid. The stamps are built on [`Universe::set_cell`] alone.

use crate::grid::{wrap, Grid};
use crate::torus::{step_backward, step_forward};
use crate::universe::Universe;
use vstd::arithmetic::div_mod::{lemma_add_mod_noop_right, lemma_mod_bound, lemma_small_mod};
use vstd::prelude::*;

verus! {

/// Whether `x` is one of the `len` places that follow each other on a ring
/// of `n` places, the first of them being `start` wrapped.
pub open spec fn in_arc(x: int, start: int, len: int, n: int) -> bool {
    exists|p: int| start <= p < start + len && x == #[trigger] wrap(p, n)
}

/// Whether `x` lies at most `delta` places before or after `origin` on a
/// ring of `n` places.
pub open spec fn in_span(x: int, origin: int, delta: int, n: int) -> bool {
    in_arc(x, origin - delta, 2 * delta + 1, n)
}

/// Whether the cell `(r, c)` lies in the square of `2 * delta + 1` rows and
/// columns whose middle is `(origin_row, origin_col)`.
pub open spec fn in_square(
    g: Grid,
    origin_row: int,
    origin_col: int,
    delta: int,
    r: int,
    c: int,
) -> bool {
    in_span(r, origin_row, delta, g.height as int) && in_span(c, origin_col, delta, g.width as int)
}

/// Whether `(r, c)` is one of the three cells of the blinker whose middle is
/// `(row, col)`: the middle and the cell on either side of it, along the row
/// when the blinker is horizontal and along the column when it is not.
pub open spec fn on_blinker(g: Grid, row: int, col: int, horizontal: bool, r: int, c: int) -> bool {
    if horizontal {
        r == row && (c == col || c == wrap(col - 1, g.width as int) || c == wrap(
            col + 1,
            g.width as int,
        ))
    } else {
        c == col && (r == row || r == wrap(row - 1, g.height as int) || r == wrap(
            row + 1,
            g.height as int,
        ))
    }
}

/// Whether `(r, c)` is one of the five live cells of the glider whose middle
/// is `(row, col)`: the cell above the middle, the middle, the cell to its
/// right, and the cells below it to the left and to the right.
pub open spec fn on_glider(g: Grid, row: int, col: int, r: int, c: int) -> bool {
    let up = wrap(row - 1, g.height as int);
    let down = wrap(row + 1, g.height as int);
    let left = wrap(col - 1, g.width as int);
    let right = wrap(col + 1, g.width as int);
    ||| (r == up && c == col)
    ||| (r == row && c == col)
    ||| (r == row && c == right)
    ||| (r == down && c == left)
    ||| (r == down && c == right)
}

/// Whether `(r, c)` belongs to one of the four horizontal blinkers of a
/// pulsar that stand in the column `center_col`: six rows and one row above
/// `row`, one row and six rows below it.
pub open spec fn on_pulsar_bars(g: Grid, row: int, center_col: int, r: int, c: int) -> bool {
    let h = g.height as int;
    ||| on_blinker(g, wrap(row - 6, h), center_col, true, r, c)
    ||| on_blinker(g, wrap(row - 1, h), center_col, true, r, c)
    ||| on_blinker(g, wrap(row + 1, h), center_col, true, r, c)
    ||| on_blinker(g, wrap(row + 6, h), center_col, true, r, c)
}

/// Whether `(r, c)` belongs to one of the two vertical blinkers of a pulsar
/// that stand in the column `center_col`: three rows above `row` and three
/// rows below it.
pub open spec fn on_pulsar_posts(g: Grid, row: int, center_col: int, r: int, c: int) -> bool {
    let h = g.height as int;
    ||| on_blinker(g, wrap(row - 3, h), center_col, false, r, c)
    ||| on_blinker(g, wrap(row + 3, h), center_col, false, r, c)
}

/// Whether `(r, c)` is one of the cells of the pulsar whose middle is
/// `(row, col)`: sixteen blinkers, the horizontal ones three columns to
/// either side of the middle, the vertical ones one column and six columns
/// to either side.
pub open spec fn on_pulsar(g: Grid, row: int, col: int, r: int, c: int) -> bool {
    let w = g.width as int;
    ||| on_pulsar_bars(g, row, wrap(col - 3, w), r, c)
    ||| on_pulsar_bars(g, row, wrap(col + 3, w), r, c)
    ||| on_pulsar_posts(g, row, wrap(col - 6, w), r, c)
    ||| on_pulsar_posts(g, row, wrap(col - 1, w), r, c)
    ||| on_pulsar_posts(g, row, wrap(col + 1, w), r, c)
    ||| on_pulsar_posts(g, row, wrap(col + 6, w), r, c)
}

/// An arc grows by one place at its end.
proof fn lemma_arc_extend(x: int, start: int, len: int, n: int)
    requires
        len >= 0,
    ensures
        in_arc(x, start, len + 1, n) <==> (in_arc(x, start, len, n) || x == wrap(start + len, n)),
{
    if in_arc(x, start, len + 1, n) {
        let p = choose|p: int| start <= p < start + len + 1 && x == #[trigger] wrap(p, n);
        if p < start + len {
            assert(in_arc(x, start, len, n));
        }
    }
    if in_arc(x, start, len, n) {
        let p = choose|p: int| start <= p < start + len && x == #[trigger] wrap(p, n);
        assert(start <= p < start + len + 1 && x == wrap(p, n));
    }
    if x == wrap(start + len, n) {
        assert(start <= start + len < start + len + 1 && x == wrap(start + len, n));
    }
}

/// Whether `(row, column)` occurs in `cells`.
fn lists(cells: &[(u32, u32)], row: u32, column: u32) -> (found: bool)
    ensures
        found == cells@.contains((row, column)),
{
    let mut i: usize = 0;
    while i < cells.len()
        invariant
            i <= cells@.len(),
            forall|j: int| 0 <= j < i ==> cells@[j] != (row, column),
        decreases cells@.len() - i,
    {
        let (r, c) = cells[i];
        if r == row && c == column {
            return true;
        }
        i += 1;
    }
    false
}

/// A place lies on an arc exactly when its distance from the start of the
/// arc, going forward round the ring, is less than the length of the arc.
pub proof fn lemma_arc_by_distance(x: int, start: int, len: int, n: int)
    requires
        0 <= x < n,
        0 <= len,
    ensures
        in_arc(x, start, len, n) <==> wrap(x - start, n) < len,
{
    lemma_mod_bound(x - start, n);
    lemma_small_mod(x as nat, n as nat);
    if in_arc(x, start, len, n) {
        let p = choose|p: int| start <= p < start + len && x == #[trigger] wrap(p, n);
        lemma_add_mod_noop_right(-start, p, n);
        if len <= n {
            lemma_small_mod((p - start) as nat, n as nat);
        }
    }
    if wrap(x - start, n) < len {
        let p = start + wrap(x - start, n);
        lemma_add_mod_noop_right(start, x - start, n);
        assert(start <= p < start + len && x == wrap(p, n));
    }
}

impl Universe {
    /// Whether a square pattern of `size` rows and columns can be stamped:
    /// the size must be odd, so that the square has a middle, and no larger
    /// than either side of the grid.
    pub fn square_fits(&self, size: u32) -> (fits: bool)
        ensures
            fits == (size % 2 == 1 && size <= self@.width && size <= self@.height),
    {
        size % 2 == 1 && size <= self.width() && size <= self.height()
    }

    /// Stamps a square of `size` rows and columns whose middle is the
    /// origin, wrapping round the edges. Inside the square a cell is alive
    /// afterwards exactly when `alive_cells` lists its coordinates; the
    /// stamp overwrites the whole square. Outside it nothing changes.
    pub fn draw_square_pattern(
        &mut self,
        origin_row: u32,
        origin_column: u32,
        size: u32,
        alive_cells: &[(u32, u32)],
    )
        requires
            old(self).wf(),
            size % 2 == 1,
            size <= old(self)@.width,
            size <= old(self)@.height,
        ensures
            final(self).wf(),
            final(self)@.same_shape(old(self)@),
            forall|r: int, c: int|
                old(self)@.contains(r, c) ==> #[trigger] final(self)@.alive(r, c) == (if in_square(
                    old(self)@,
                    origin_row as int,
                    origin_column as int,
                    size as int / 2,
                    r,
                    c,
                ) {
                    alive_cells@.contains((r as u32, c as u32))
                } else {
                    old(self)@.alive(r, c)
                }),
    {
        let ghost before = self@;
        let height = self.height();
        let width = self.width();
        let delta = size / 2;
        let first_row = step_backward(origin_row, delta, height);
        let first_col = step_backward(origin_column, delta, width);
        let ghost top = origin_row - delta;
        let ghost left = origin_column - delta;
        let ghost h = height as int;
        let ghost w = width as int;

        let mut i: u32 = 0;
        while i < size
            invariant
                i <= size,
                self.wf(),
                self@.same_shape(before),
                before.width == width,
                before.height == height,
                0 < w == width,
                0 < h == height,
                first_row == wrap(top, h),
                first_col == wrap(left, w),
                forall|r: int, c: int|
                    before.contains(r, c) ==> #[trigger] self@.alive(r, c) == (if in_arc(
                        r,
                        top,
                        i as int,
                        h,
                    ) && in_arc(c, left, size as int, w) {
                        alive_cells@.contains((r as u32, c as u32))
                    } else {
                        before.alive(r, c)
                    }),
            decreases size - i,
        {
            let cell_row = step_forward(first_row, i, height);
            proof {
                lemma_add_mod_noop_right(i as int, top, h);
                assert(cell_row == wrap(top + i, h));
            }
            let mut j: u32 = 0;
            while j < size
                invariant
                    j <= size,
                    i < size,
                    self.wf(),
                    self@.same_shape(before),
                    before.width == width,
                    before.height == height,
                    0 < w == width,
                    0 < h == height,
                    first_col == wrap(left, w),
                    cell_row == wrap(top + i, h),
                    cell_row < height,
                    forall|r: int, c: int|
                        before.contains(r, c) ==> #[trigger] self@.alive(r, c) == (if (in_arc(
                            r,
                            top,
                            i as int,
                            h,
                        ) && in_arc(c, left, size as int, w)) || (r == cell_row && in_arc(
                            c,
                            left,
                            j as int,
                            w,
                        )) {
                            alive_cells@.contains((r as u32, c as u32))
                        } else {
                            before.alive(r, c)
                        }),
                decreases size - j,
            {
                let cell_col = step_forward(first_col, j, width);
                let listed = lists(alive_cells, cell_row, cell_col);
                let ghost prev = self@;
                self.set_cell(cell_row, cell_col, listed);
                proof {
                    lemma_add_mod_noop_right(j as int, left, w);
                    assert(cell_col == wrap(left + j, w));
                    assert forall|r: int, c: int| before.contains(r, c) implies #[trigger] self@.alive(
                        r,
                        c,
                    ) == (if (in_arc(r, top, i as int, h) && in_arc(c, left, size as int, w)) || (r
                        == cell_row && in_arc(c, left, j as int + 1, w)) {
                        alive_cells@.contains((r as u32, c as u32))
                    } else {
                        before.alive(r, c)
                    }) by {
                        lemma_arc_extend(c, left, j as int, w);
                        assert(prev.contains(r, c));
                        if r == cell_row && c == cell_col {
                            assert(self@.alive(r, c) == listed);
                        } else {
                            assert(self@.alive(r, c) == prev.alive(r, c));
                        }
                    }
                }
                j += 1;
            }
            proof {
                assert forall|r: int, c: int| before.contains(r, c) implies #[trigger] self@.alive(
                    r,
                    c,
                ) == (if in_arc(r, top, i as int + 1, h) && in_arc(c, left, size as int, w) {
                    alive_cells@.contains((r as u32, c as u32))
                } else {
                    before.alive(r, c)
                }) by {
                    lemma_arc_extend(r, top, i as int, h);
                }
            }
            i += 1;
        }
        proof {
            assert(2 * (size as int / 2) + 1 == size);
        }
    }

    /// Draws a blinker whose middle is `(row, column)`: the middle and its
    /// two neighbours on the torus, left and right when `horizontal`, above
    /// and below otherwise, become alive. No cell is cleared.
    pub fn draw_blinker(&mut self, row: u32, column: u32, horizontal: bool)
        requires
            old(self).wf(),
            old(self)@.contains(row as int, column as int),
        ensures
            final(self).wf(),
            final(self)@.same_shape(old(self)@),
            forall|r: int, c: int|
                old(self)@.contains(r, c) ==> #[trigger] final(self)@.alive(r, c) == (old(
                    self,
                )@.alive(r, c) || on_blinker(
                    old(self)@,
                    row as int,
                    column as int,
                    horizontal,
                    r,
                    c,
                )),
    {
        let width = self.width();
        let height = self.height();
        self.set_cell(row, column, true);
        if horizontal {
            self.set_cell(row, step_backward(column, 1, width), true);
            self.set_cell(row, step_forward(column, 1, width), true);
        } else {
            self.set_cell(step_backward(row, 1, height), column, true);
            self.set_cell(step_forward(row, 1, height), column, true);
        }
    }

    /// Draws a glider whose middle is `(row, column)`. The stamp covers the
    /// three by three square round the middle: the five cells of the glider
    /// become alive, the other four cells of the square dead, and nothing
    /// outside the square changes.
    pub fn draw_glider(&mut self, row: u32, column: u32)
        requires
            old(self).wf(),
            old(self)@.contains(row as int, column as int),
            old(self)@.width >= 3,
            old(self)@.height >= 3,
        ensures
            final(self).wf(),
            final(self)@.same_shape(old(self)@),
            forall|r: int, c: int|
                old(self)@.contains(r, c) ==> #[trigger] final(self)@.alive(r, c) == (if in_square(
                    old(self)@,
                    row as int,
                    column as int,
                    1,
                    r,
                    c,
                ) {
                    on_glider(old(self)@, row as int, column as int, r, c)
                } else {
                    old(self)@.alive(r, c)
                }),
    {
        let width = self.width();
        let height = self.height();
        let up = step_backward(row, 1, height);
        let down = step_forward(row, 1, height);
        let left = step_backward(column, 1, width);
        let right = step_forward(column, 1, width);

        let top = (up, column);
        let center = (row, column);
        let right_of_center = (row, right);
        let bottom_left = (down, left);
        let bottom_right = (down, right);
        let alive_cells = vec![top, center, right_of_center, bottom_left, bottom_right];

        self.draw_square_pattern(row, column, 3, alive_cells.as_slice());
        proof {
            let listed = alive_cells@;
            assert forall|r: int, c: int| old(self)@.contains(r, c) implies listed.contains(
                (r as u32, c as u32),
            ) == on_glider(old(self)@, row as int, column as int, r, c) by {
                let cell = (r as u32, c as u32);
                if on_glider(old(self)@, row as int, column as int, r, c) {
                    assert(listed[0] == cell || listed[1] == cell || listed[2] == cell || listed[3]
                        == cell || listed[4] == cell);
                }
            }
        }
    }

    /// Draws the four horizontal blinkers of a pulsar that stand in the
    /// column `center_column`: six rows and one row above `row`, one row
    /// and six rows below it.
    fn draw_pulsar_bars(&mut self, row: u32, center_column: u32)
        requires
            old(self).wf(),
            old(self)@.contains(row as int, center_column as int),
        ensures
            final(self).wf(),
            final(self)@.same_shape(old(self)@),
            forall|r: int, c: int|
                old(self)@.contains(r, c) ==> #[trigger] final(self)@.alive(r, c) == (old(
                    self,
                )@.alive(r, c) || on_pulsar_bars(
                    old(self)@,
                    row as int,
                    center_column as int,
                    r,
                    c,
                )),
    {
        let height = self.height();
        self.draw_blinker(step_backward(row, 6, height), center_column, true);
        self.draw_blinker(step_backward(row, 1, height), center_column, true);
        self.draw_blinker(step_forward(row, 1, height), center_column, true);
        self.draw_blinker(step_forward(row, 6, height), center_column, true);
    }

    /// Draws the two vertical blinkers of a pulsar that stand in the column
    /// `center_column`: three rows above `row` and three rows below it.
    fn draw_pulsar_posts(&mut self, row: u32, center_column: u32)
        requires
            old(self).wf(),
            old(self)@.contains(row as int, center_column as int),
        ensures
            final(self).wf(),
            final(self)@.same_shape(old(self)@),
            forall|r: int, c: int|
                old(self)@.contains(r, c) ==> #[trigger] final(self)@.alive(r, c) == (old(
                    self,
                )@.alive(r, c) || on_pulsar_posts(
                    old(self)@,
                    row as int,
                    center_column as int,
                    r,
                    c,
                )),
    {
        let height = self.height();
        self.draw_blinker(step_backward(row, 3, height), center_column, false);
        self.draw_blinker(step_forward(row, 3, height), center_column, false);
    }

    /// Draws a pulsar whose middle is `(row, column)`: sixteen blinkers at
    /// fixed distances from the middle, each wrapped round the edges. Every
    /// cell of a blinker becomes alive and no cell is cleared.
    pub fn draw_pulsar(&mut self, row: u32, column: u32)
        requires
            old(self).wf(),
            old(self)@.contains(row as int, column as int),
        ensures
            final(self).wf(),
            final(self)@.same_shape(old(self)@),
            forall|r: int, c: int|
                old(self)@.contains(r, c) ==> #[trigger] final(self)@.alive(r, c) == (old(
                    self,
                )@.alive(r, c) || on_pulsar(old(self)@, row as int, column as int, r, c)),
    {
        let width = self.width();
        self.draw_pulsar_bars(row, step_backward(column, 3, width));
        self.draw_pulsar_bars(row, step_forward(column, 3, width));
        self.draw_pulsar_posts(row, step_backward(column, 6, width));
        self.draw_pulsar_posts(row, step_backward(column, 1, width));
        self.draw_pulsar_posts(row, step_forward(column, 1, width));
        self.draw_pulsar_posts(row, step_forward(column, 6, width));
    }
}

} // verus!
