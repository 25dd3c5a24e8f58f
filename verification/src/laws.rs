//! What holds of the grid whatever its cells are.
//!
//! The contracts of [`Universe`](crate::Universe) say what each operation
//! does to the grid. The statements here relate the operations to each
//! other; each is proved from the definitions in [`crate::grid`].

use crate::grid::{
    census,
    glyph,
    lemma_grid_extensional,
    lemma_index_in_range,
    lemma_with_cell,
    lemma_wrap_step,
    wrap,
    Grid,
};
use vstd::prelude::*;

verus! {

/// A cell has between no and eight live neighbours: the count is the sum
/// of eight lookups, each worth one or nothing.
pub proof fn lemma_live_neighbors_bounded(g: Grid, row: int, col: int)
    ensures
        0 <= g.live_neighbors(row, col) <= 8,
{
}

/// On a grid of at least two rows and two columns a cell is not its own
/// neighbour: its state has no part in its count of live neighbours.
pub proof fn lemma_live_neighbors_ignore_center(g: Grid, row: int, col: int, alive: bool)
    requires
        g.wf(),
        g.contains(row, col),
        g.width >= 2,
        g.height >= 2,
    ensures
        g.with_cell(row, col, alive).live_neighbors(row, col) == g.live_neighbors(row, col),
{
    let after = g.with_cell(row, col, alive);
    let h = g.height as int;
    let w = g.width as int;
    lemma_with_cell(g, row, col, alive);
    lemma_wrap_step(row, h);
    lemma_wrap_step(col, w);
    assert forall|dr: int, dc: int|
        -1 <= dr <= 1 && -1 <= dc <= 1 && !(dr == 0 && dc == 0) implies #[trigger] after.neighbor(
        row,
        col,
        dr,
        dc,
    ) == g.neighbor(row, col, dr, dc) by {
        let r = wrap(row + dr, h);
        let c = wrap(col + dc, w);
        assert(g.contains(r, c));
        assert(!(r == row && c == col));
        assert(after.alive(r, c) == g.alive(r, c));
    }
}

/// A grid made blank has no live cell, and making it blank once more
/// changes nothing.
pub proof fn lemma_blank_is_dead(width: nat, height: nat)
    ensures
        Grid::blank(width, height).wf(),
        forall|row: int, col: int|
            Grid::blank(width, height).contains(row, col) ==> !#[trigger] Grid::blank(
                width,
                height,
            ).alive(row, col),
        Grid::blank(Grid::blank(width, height).width, Grid::blank(width, height).height)
            == Grid::blank(width, height),
{
    let blank = Grid::blank(width, height);
    assert forall|row: int, col: int| blank.contains(row, col) implies !#[trigger] blank.alive(
        row,
        col,
    ) by {
        lemma_index_in_range(blank, row, col);
    }
}

/// The torus has no edge: the cell in the first row and first column is a
/// neighbour of the cell in the last row and last column, one step down
/// and one step right of it. So once the first cell has been flipped, the
/// last cell's count of live neighbours includes it.
pub proof fn lemma_corners_are_neighbors(g: Grid)
    requires
        g.wf(),
        g.width > 0,
        g.height > 0,
    ensures
        g.neighbor(g.height - 1, g.width - 1, 1, 1) == g.alive(0, 0),
        g.toggled(0, 0).neighbor(g.height - 1, g.width - 1, 1, 1) == !g.alive(0, 0),
        g.live_neighbors(g.height - 1, g.width - 1) >= census(g.alive(0, 0)),
        g.toggled(0, 0).live_neighbors(g.height - 1, g.width - 1) >= census(!g.alive(0, 0)),
{
    lemma_wrap_step(g.height - 1, g.height as int);
    lemma_wrap_step(g.width - 1, g.width as int);
    lemma_with_cell(g, 0, 0, !g.alive(0, 0));
}

/// A cell reads back as it was set.
pub proof fn lemma_set_then_get(g: Grid, row: int, col: int, alive: bool)
    requires
        g.wf(),
        g.contains(row, col),
    ensures
        g.with_cell(row, col, alive).alive(row, col) == alive,
{
    lemma_with_cell(g, row, col, alive);
}

/// Flipping a cell twice gives back the grid as it was.
pub proof fn lemma_toggle_twice(g: Grid, row: int, col: int)
    requires
        g.wf(),
        g.contains(row, col),
    ensures
        g.toggled(row, col).toggled(row, col) == g,
{
    let once = g.toggled(row, col);
    lemma_with_cell(g, row, col, !g.alive(row, col));
    lemma_with_cell(once, row, col, !once.alive(row, col));
    lemma_grid_extensional(once.toggled(row, col), g);
}

/// The rule of the game leaves no choice: a grid has one next generation.
pub proof fn lemma_step_is_unique(g: Grid, a: Grid, b: Grid)
    requires
        g.steps_to(a),
        g.steps_to(b),
    ensures
        a == b,
{
    lemma_grid_extensional(a, b);
}

/// Where the first `rows` lines put their characters: line `row` begins at
/// place `row * (width + 1)`.
proof fn lemma_lines_layout(g: Grid, rows: nat)
    ensures
        g.lines(rows).len() == rows * (g.width + 1),
        forall|row: int, col: int|
            0 <= row < rows && 0 <= col <= g.width ==> g.lines(rows)[row * (g.width + 1) + col]
                == #[trigger] g.line(row)[col],
    decreases rows,
{
    let stride = g.width as int + 1;
    if rows > 0 {
        let above = (rows - 1) as nat;
        lemma_lines_layout(g, above);
        assert(rows * stride == above * stride + stride) by (nonlinear_arith)
            requires
                rows == above + 1,
        ;
        assert forall|row: int, col: int| 0 <= row < rows && 0 <= col <= g.width implies g.lines(
            rows,
        )[row * stride + col] == #[trigger] g.line(row)[col] by {
            if row < above {
                assert(0 <= row * stride && row * stride + col < above * stride)
                    by (nonlinear_arith)
                    requires
                        0 <= row < above,
                        0 <= col < stride,
                ;
                assert(g.lines(above)[row * stride + col] == g.line(row)[col]);
            } else {
                assert(row * stride == above * stride);
            }
        }
    } else {
        assert(rows * stride == 0) by (nonlinear_arith)
            requires
                rows == 0,
        ;
    }
}

/// A rendering has one line per row and nothing after the last line break.
/// Each line holds one glyph per cell of its row, in column order, and then
/// its line break: the glyph of the cell `(row, col)` stands at place
/// `row * (width + 1) + col`.
pub proof fn lemma_rendering_layout(g: Grid)
    ensures
        g.rendering().len() == g.height * (g.width + 1),
        forall|row: int, col: int|
            g.contains(row, col) ==> g.rendering()[row * (g.width + 1) + col] == glyph(
                #[trigger] g.alive(row, col),
            ),
        forall|row: int|
            0 <= row < g.height ==> g.rendering()[row * (g.width + 1) + g.width]
                == #[trigger] g.line(row).last(),
        forall|row: int| #[trigger] g.line(row).last() == '\n',
{
    lemma_lines_layout(g, g.height);
    assert forall|row: int, col: int| g.contains(row, col) implies g.rendering()[row * (g.width
        + 1) + col] == glyph(#[trigger] g.alive(row, col)) by {
        assert(g.line(row)[col] == glyph(g.alive(row, col)));
    }
    assert forall|row: int| 0 <= row < g.height implies g.rendering()[row * (g.width + 1)
        + g.width] == #[trigger] g.line(row).last() by {
        assert(g.line(row)[g.width as int] == g.line(row).last());
    }
}

} // verus!
