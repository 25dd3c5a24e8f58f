//! The universe: a grid of cells held one bit per cell.

use crate::bitset::{
    bits_of,
    bitset_as_slice,
    bitset_clone,
    bitset_get,
    bitset_len,
    bitset_set,
    bitset_with_capacity,
    word_bit,
};
use crate::grid::{
    census,
    glyph,
    lemma_index_in_range,
    lemma_index_injective,
    lemma_with_cell,
    next_state,
    Grid,
};
use crate::random::{gen_ratio, thread_rng};
use crate::torus::{step_backward, step_forward};
use fixedbitset::FixedBitSet;
use vstd::arithmetic::div_mod::lemma_small_mod;
use vstd::prelude::*;

verus! {

/// A universe of Conway's Game of Life. The cell `(row, column)` is bit
/// `row * width + column` of `cells`.
pub struct Universe {
    width: u32,
    height: u32,
    cells: FixedBitSet,
}

impl View for Universe {
    type V = Grid;

    closed spec fn view(&self) -> Grid {
        Grid { width: self.width as nat, height: self.height as nat, cells: bits_of(self.cells) }
    }
}

impl Universe {
    /// The bit set holds one bit per cell, and the number of cells fits the
    /// index range of the grid, a `u32`.
    pub open spec fn wf(&self) -> bool {
        self@.wf() && self@.width * self@.height <= u32::MAX
    }

    /// Whether a universe of this shape can be built: its cells must be
    /// countable in a `u32`.
    pub fn dimensions_fit(width: u32, height: u32) -> (fits: bool)
        ensures
            fits == (width * height <= u32::MAX),
    {
        assert(width * height <= 0xffff_ffff * 0xffff_ffff) by (nonlinear_arith);
        width as u64 * height as u64 <= u32::MAX as u64
    }

    /// Whether `(row, column)` names a cell of this universe.
    pub fn in_bounds(&self, row: u32, column: u32) -> (inside: bool)
        ensures
            inside == self@.contains(row as int, column as int),
    {
        row < self.height && column < self.width
    }

    /// The place of the cell `(row, column)` in the bit set.
    fn get_index(&self, row: u32, column: u32) -> (idx: usize)
        requires
            self.wf(),
            self@.contains(row as int, column as int),
        ensures
            idx == self@.index(row as int, column as int),
            idx < self@.cells.len(),
    {
        proof {
            lemma_index_in_range(self@, row as int, column as int);
        }
        row as usize * self.width as usize + column as usize
    }

    /// An empty universe of 64 by 64 cells.
    pub fn new() -> (universe: Universe)
        ensures
            universe.wf(),
            universe@ == Grid::blank(64, 64),
    {
        Self::new_empty(64, 64)
    }

    /// A universe of the given shape with every cell dead.
    pub fn new_empty(width: u32, height: u32) -> (universe: Universe)
        requires
            width * height <= u32::MAX,
        ensures
            universe.wf(),
            universe@ == Grid::blank(width as nat, height as nat),
    {
        let size = width as usize * height as usize;
        let cells = bitset_with_capacity(size);
        Universe { width, height, cells }
    }

    /// The number of columns.
    pub fn width(&self) -> (width: u32)
        ensures
            width == self@.width,
    {
        self.width
    }

    /// The number of rows.
    pub fn height(&self) -> (height: u32)
        ensures
            height == self@.height,
    {
        self.height
    }

    /// Whether the cell `(row, column)` is alive. The coordinates address
    /// the cell directly and are not wrapped.
    pub fn is_cell_alive(&self, row: u32, column: u32) -> (alive: bool)
        requires
            self.wf(),
            self@.contains(row as int, column as int),
        ensures
            alive == self@.alive(row as int, column as int),
    {
        let idx = self.get_index(row, column);
        bitset_get(&self.cells, idx)
    }

    /// Makes the cell `(row, column)` alive or dead and leaves every other
    /// cell as it was. The coordinates are not wrapped.
    pub fn set_cell(&mut self, row: u32, column: u32, alive: bool)
        requires
            old(self).wf(),
            old(self)@.contains(row as int, column as int),
        ensures
            final(self).wf(),
            final(self)@ == old(self)@.with_cell(row as int, column as int, alive),
            final(self)@.same_shape(old(self)@),
            forall|r: int, c: int|
                old(self)@.contains(r, c) ==> #[trigger] final(self)@.alive(r, c) == (if r == row
                    && c == column {
                    alive
                } else {
                    old(self)@.alive(r, c)
                }),
    {
        let idx = self.get_index(row, column);
        bitset_set(&mut self.cells, idx, alive);
        proof {
            lemma_with_cell(old(self)@, row as int, column as int, alive);
        }
    }

    /// Flips the cell `(row, column)` and leaves every other cell as it was.
    pub fn toggle_cell(&mut self, row: u32, column: u32)
        requires
            old(self).wf(),
            old(self)@.contains(row as int, column as int),
        ensures
            final(self).wf(),
            final(self)@ == old(self)@.toggled(row as int, column as int),
            final(self)@.same_shape(old(self)@),
            forall|r: int, c: int|
                old(self)@.contains(r, c) ==> #[trigger] final(self)@.alive(r, c) == (if r == row
                    && c == column {
                    !old(self)@.alive(r, c)
                } else {
                    old(self)@.alive(r, c)
                }),
    {
        let idx = self.get_index(row, column);
        let alive = bitset_get(&self.cells, idx);
        bitset_set(&mut self.cells, idx, !alive);
        proof {
            lemma_with_cell(old(self)@, row as int, column as int, !alive);
        }
    }

    /// One for a live cell at `(row, column)`, zero for a dead one.
    fn census_at(&self, row: u32, column: u32) -> (n: u8)
        requires
            self.wf(),
            self@.contains(row as int, column as int),
        ensures
            n == census(self@.alive(row as int, column as int)),
    {
        if self.is_cell_alive(row, column) {
            1
        } else {
            0
        }
    }

    /// The number of live cells among the eight neighbours of
    /// `(row, column)` on the torus. The cell itself is no neighbour: the
    /// eight lookups are those one step away in at least one direction.
    pub fn live_neighbor_count(&self, row: u32, column: u32) -> (count: u8)
        requires
            self.wf(),
            self@.contains(row as int, column as int),
        ensures
            count == self@.live_neighbors(row as int, column as int),
            count <= 8,
    {
        let up = step_backward(row, 1, self.height);
        let down = step_forward(row, 1, self.height);
        let left = step_backward(column, 1, self.width);
        let right = step_forward(column, 1, self.width);
        proof {
            lemma_small_mod(row as nat, self.height as nat);
            lemma_small_mod(column as nat, self.width as nat);
        }
        let above = self.census_at(up, left) + self.census_at(up, column) + self.census_at(
            up,
            right,
        );
        let beside = self.census_at(row, left) + self.census_at(row, right);
        let below = self.census_at(down, left) + self.census_at(down, column) + self.census_at(
            down,
            right,
        );
        above + beside + below
    }

    /// The rule of the game for one cell with `live_neighbors` live cells
    /// round it.
    pub fn next_cell_state(alive: bool, live_neighbors: u8) -> (next: bool)
        ensures
            next == next_state(alive, live_neighbors as int),
    {
        if alive && live_neighbors < 2 {
            // too few neighbours: the cell dies
            false
        } else if alive && (live_neighbors == 2 || live_neighbors == 3) {
            // the cell lives on
            true
        } else if alive && live_neighbors > 3 {
            // too many neighbours: the cell dies
            false
        } else if !alive && live_neighbors == 3 {
            // a cell is born
            true
        } else {
            alive
        }
    }

    /// Moves the universe on by one generation. Every cell follows the
    /// rule of the game from the cells as they were before the call: the
    /// next generation is built aside and replaces the old one at the end.
    pub fn tick(&mut self)
        requires
            old(self).wf(),
        ensures
            final(self).wf(),
            old(self)@.steps_to(final(self)@),
    {
        let mut next = bitset_clone(&self.cells);
        let ghost now = self@;

        let mut row: u32 = 0;
        while row < self.height
            invariant
                row <= self.height,
                self.wf(),
                self@ == now,
                bits_of(next).len() == now.cells.len(),
                forall|r: int, c: int|
                    0 <= r < row && 0 <= c < now.width ==> bits_of(next)[#[trigger] now.index(r, c)]
                        == now.next_alive(r, c),
            decreases self.height - row,
        {
            let mut col: u32 = 0;
            while col < self.width
                invariant
                    col <= self.width,
                    row < self.height,
                    self.wf(),
                    self@ == now,
                    bits_of(next).len() == now.cells.len(),
                    forall|r: int, c: int|
                        0 <= r < row && 0 <= c < now.width ==> bits_of(next)[#[trigger] now.index(
                            r,
                            c,
                        )] == now.next_alive(r, c),
                    forall|c: int|
                        0 <= c < col ==> bits_of(next)[#[trigger] now.index(row as int, c)]
                            == now.next_alive(row as int, c),
                decreases self.width - col,
            {
                let idx = self.get_index(row, col);
                let cell = bitset_get(&self.cells, idx);
                let live_neighbors = self.live_neighbor_count(row, col);
                let next_cell = Self::next_cell_state(cell, live_neighbors);
                let ghost filled = bits_of(next);
                bitset_set(&mut next, idx, next_cell);
                proof {
                    assert forall|r: int, c: int| 0 <= r < row && 0 <= c < now.width implies bits_of(
                        next,
                    )[#[trigger] now.index(r, c)] == now.next_alive(r, c) by {
                        lemma_index_in_range(now, r, c);
                        if now.index(r, c) == idx {
                            lemma_index_injective(now, r, c, row as int, col as int);
                        }
                    }
                    assert forall|c: int| 0 <= c < col + 1 implies bits_of(next)[#[trigger] now.index(
                        row as int,
                        c,
                    )] == now.next_alive(row as int, c) by {
                        lemma_index_in_range(now, row as int, c);
                        if now.index(row as int, c) == idx {
                            lemma_index_injective(now, row as int, c, row as int, col as int);
                        }
                    }
                }
                col += 1;
            }
            row += 1;
        }
        self.cells = next;
    }

    /// Makes every cell dead. The shape stays.
    pub fn clear(&mut self)
        requires
            old(self).wf(),
        ensures
            final(self).wf(),
            final(self)@ == Grid::blank(old(self)@.width, old(self)@.height),
            forall|r: int, c: int| old(self)@.contains(r, c) ==> !#[trigger] final(self)@.alive(r, c),
    {
        let len = bitset_len(&self.cells);
        self.cells = bitset_with_capacity(len);
        proof {
            assert forall|r: int, c: int| self@.contains(r, c) implies !#[trigger] self@.alive(
                r,
                c,
            ) by {
                lemma_index_in_range(self@, r, c);
            }
        }
    }

    /// Gives every cell the state that `states` holds for it, row after
    /// row: the cell `(row, column)` takes `states[row * width + column]`.
    pub fn fill_from(&mut self, states: &[bool])
        requires
            old(self).wf(),
            states@.len() == old(self)@.cells.len(),
        ensures
            final(self).wf(),
            final(self)@ == (Grid { cells: states@, ..old(self)@ }),
    {
        let len = bitset_len(&self.cells);
        let mut cells = bitset_with_capacity(len);
        let mut i: usize = 0;
        while i < len
            invariant
                i <= len,
                len == states@.len(),
                bits_of(cells).len() == len,
                forall|j: int| 0 <= j < i ==> bits_of(cells)[j] == states@[j],
            decreases len - i,
        {
            bitset_set(&mut cells, i, states[i]);
            i += 1;
        }
        assert(bits_of(cells) =~= states@);
        self.cells = cells;
    }

    /// Gives every cell a state drawn at random: alive with a chance of
    /// one in two, each cell on its own. Whatever is drawn, the shape
    /// stays; a universe without cells is left as it is.
    pub fn randomize(&mut self)
        requires
            old(self).wf(),
        ensures
            final(self).wf(),
            final(self)@.same_shape(old(self)@),
            old(self)@.width == 0 || old(self)@.height == 0 ==> final(self)@ == old(self)@,
    {
        let len = bitset_len(&self.cells);
        let mut rng = thread_rng();
        let mut states: Vec<bool> = Vec::with_capacity(len);
        let mut i: usize = 0;
        while i < len
            invariant
                i <= len,
                states@.len() == i,
            decreases len - i,
        {
            states.push(gen_ratio(&mut rng, 1, 2));
            i += 1;
        }
        self.fill_from(states.as_slice());
        proof {
            let w = self@.width;
            let h = self@.height;
            if w == 0 || h == 0 {
                assert(w * h == 0) by (nonlinear_arith)
                    requires
                        w == 0 || h == 0,
                ;
                assert(self@.cells =~= old(self)@.cells);
            }
        }
    }

    /// A universe of the given shape whose cells are drawn at random.
    pub fn new_random(width: u32, height: u32) -> (universe: Universe)
        requires
            width * height <= u32::MAX,
        ensures
            universe.wf(),
            universe@.width == width,
            universe@.height == height,
    {
        let mut universe = Self::new_empty(width, height);
        universe.randomize();
        universe
    }

    /// Sets the width and makes every cell dead. The cells that were
    /// alive are not carried over.
    pub fn set_width(&mut self, width: u32)
        requires
            old(self).wf(),
            width * old(self)@.height <= u32::MAX,
        ensures
            final(self).wf(),
            final(self)@ == Grid::blank(width as nat, old(self)@.height),
    {
        self.width = width;
        let size = width as usize * self.height as usize;
        self.cells = bitset_with_capacity(size);
    }

    /// Sets the height and makes every cell dead. The cells that were
    /// alive are not carried over.
    pub fn set_height(&mut self, height: u32)
        requires
            old(self).wf(),
            old(self)@.width * height <= u32::MAX,
        ensures
            final(self).wf(),
            final(self)@ == Grid::blank(old(self)@.width, height as nat),
    {
        self.height = height;
        let size = self.width as usize * height as usize;
        self.cells = bitset_with_capacity(size);
    }

    /// The bit set that holds the cells.
    pub fn get_cells(&self) -> (cells: &FixedBitSet)
        ensures
            bits_of(*cells) == self@.cells,
    {
        &self.cells
    }

    /// The words that hold the cells, for a host that reads them in place.
    /// The cell `(row, column)` is bit `i % usize::BITS` of word
    /// `i / usize::BITS`, where `i` is `row * width + column`, and there are
    /// just enough words for all cells.
    pub fn cells(&self) -> (words: &[usize])
        requires
            self.wf(),
        ensures
            (words@.len() - 1) * usize::BITS < self@.cells.len() <= words@.len() * usize::BITS,
            forall|row: int, col: int|
                self@.contains(row, col) ==> #[trigger] self@.alive(row, col) == word_bit(
                    words@[self@.index(row, col) / (usize::BITS as int)],
                    self@.index(row, col) % (usize::BITS as int),
                ),
    {
        let words = bitset_as_slice(&self.cells);
        proof {
            assert forall|row: int, col: int| self@.contains(row, col) implies #[trigger] self@.alive(
                row,
                col,
            ) == word_bit(
                words@[self@.index(row, col) / (usize::BITS as int)],
                self@.index(row, col) % (usize::BITS as int),
            ) by {
                lemma_index_in_range(self@, row, col);
            }
        }
        words
    }

    /// Makes every cell that `cells` lists alive and leaves every other
    /// cell as it was. The coordinates are not wrapped.
    pub fn set_cells(&mut self, cells: &[(u32, u32)])
        requires
            old(self).wf(),
            old(self)@.contains_all(cells@),
        ensures
            final(self).wf(),
            final(self)@.same_shape(old(self)@),
            forall|r: int, c: int|
                old(self)@.contains(r, c) ==> #[trigger] final(self)@.alive(r, c) == (old(
                    self,
                )@.alive(r, c) || cells@.contains((r as u32, c as u32))),
    {
        let ghost before = self@;
        let mut i: usize = 0;
        while i < cells.len()
            invariant
                i <= cells@.len(),
                self.wf(),
                self@.same_shape(before),
                before.contains_all(cells@),
                forall|r: int, c: int|
                    before.contains(r, c) ==> #[trigger] self@.alive(r, c) == (before.alive(r, c)
                        || cells@.take(i as int).contains((r as u32, c as u32))),
            decreases cells@.len() - i,
        {
            let (row, col) = cells[i];
            assert(before.contains(cells@[i as int].0 as int, cells@[i as int].1 as int));
            self.set_cell(row, col, true);
            proof {
                let done = cells@.take(i as int);
                let more = cells@.take(i as int + 1);
                assert(more =~= done.push((row, col)));
                assert forall|r: int, c: int| before.contains(r, c) implies #[trigger] self@.alive(
                    r,
                    c,
                ) == (before.alive(r, c) || more.contains((r as u32, c as u32))) by {
                    let cell = (r as u32, c as u32);
                    if done.contains(cell) {
                        let j = choose|j: int| 0 <= j < done.len() && done[j] == cell;
                        assert(more[j] == cell);
                    }
                    if more.contains(cell) {
                        let j = choose|j: int| 0 <= j < more.len() && more[j] == cell;
                        if j < i {
                            assert(done[j] == cell);
                        }
                    }
                    if r == row && c == col {
                        assert(more[i as int] == cell);
                    }
                }
            }
            i += 1;
        }
        assert(cells@.take(i as int) =~= cells@);
    }

    /// A universe of the given shape in which exactly the cells that
    /// `alive_cells` lists are alive. The coordinates are not wrapped.
    pub fn new_with_pattern(width: u32, height: u32, alive_cells: Vec<(u32, u32)>) -> (universe:
        Universe)
        requires
            width * height <= u32::MAX,
            Grid::blank(width as nat, height as nat).contains_all(alive_cells@),
        ensures
            universe.wf(),
            universe@.width == width,
            universe@.height == height,
            forall|r: int, c: int|
                universe@.contains(r, c) ==> #[trigger] universe@.alive(r, c)
                    == alive_cells@.contains((r as u32, c as u32)),
    {
        let mut universe = Self::new_empty(width, height);
        proof {
            assert forall|r: int, c: int| universe@.contains(r, c) implies !#[trigger] universe@.alive(
                r,
                c,
            ) by {
                lemma_index_in_range(universe@, r, c);
            }
        }
        universe.set_cells(alive_cells.as_slice());
        universe
    }

    /// The universe as text: for each row from the first down, one glyph
    /// per cell from the first column on, then a line break.
    pub fn render(&self) -> (text: String)
        requires
            self.wf(),
        ensures
            text@ == self@.rendering(),
    {
        let mut text = String::new();
        let mut row: u32 = 0;
        while row < self.height
            invariant
                row <= self.height,
                self.wf(),
                text@ == self@.lines(row as nat),
            decreases self.height - row,
        {
            let ghost above = text@;
            let mut col: u32 = 0;
            while col < self.width
                invariant
                    col <= self.width,
                    row < self.height,
                    self.wf(),
                    text@ == above + Seq::new(
                        col as nat,
                        |c: int| glyph(self@.alive(row as int, c)),
                    ),
                decreases self.width - col,
            {
                let ghost so_far = text@;
                proof {
                    reveal_strlit("\u{25FC}");
                    reveal_strlit("\u{25FB}");
                }
                if self.is_cell_alive(row, col) {
                    text.append("\u{25FC}");
                } else {
                    text.append("\u{25FB}");
                }
                assert(text@ =~= above + Seq::new(
                    (col + 1) as nat,
                    |c: int| glyph(self@.alive(row as int, c)),
                ));
                col += 1;
            }
            proof {
                reveal_strlit("\n");
            }
            text.append("\n");
            assert(text@ =~= self@.lines(row as nat) + self@.line(row as int));
            row += 1;
        }
        text
    }
}

} // verus!
