//! The universe itself: a grid of cells held in a packed bit set.

use crate::bitset::{bit_seq, packed_in};
use crate::grid::{
    bar, glider, lemma_index_in_range, lemma_with_alive_none, lemma_with_alive_push, next_state,
    seed_alive, Grid, SEED_HEIGHT, SEED_WIDTH,
};
use fixedbitset::FixedBitSet;
use vstd::prelude::*;

verus! {

/// A toroidal board of cells. One bit per cell, row after row.
pub struct Universe {
    width: u32,
    height: u32,
    cells: FixedBitSet,
}

impl View for Universe {
    type V = Grid;

    closed spec fn view(&self) -> Grid {
        Grid {
            width: self.width as nat,
            height: self.height as nat,
            cells: bit_seq(&self.cells),
        }
    }
}

impl Universe {
    /// What holds of every universe that this module hands out: there is one
    /// state for each cell, the dimensions are those of a `u32`, and the number
    /// of cells is one that a `usize` can hold.
    pub open spec fn wf(&self) -> bool {
        &&& self@.wf()
        &&& self@.width <= u32::MAX
        &&& self@.height <= u32::MAX
        &&& self@.width * self@.height <= usize::MAX
    }

    /// The default universe: 64 columns by 64 rows, with five cells alive.
    pub fn new() -> (universe: Universe)
        ensures
            universe.wf(),
            universe@ == Grid::seed(),
    {
        let width = SEED_WIDTH;
        let height = SEED_HEIGHT;

        let size = width * height;
        let mut cells = FixedBitSet::with_capacity(size as usize);

        for i in 0..size
            invariant
                size == width * height,
                height == SEED_HEIGHT,
                bit_seq(&cells).len() == size,
                forall|k: int| 0 <= k < i ==> bit_seq(&cells)[k] == seed_alive(k, height as int),
        {
            cells.set(
                i as usize,
                i == 3
                    || i == 1 + height
                    || i == 3 + height
                    || i == 2 + height * 2
                    || i == 3 + height * 2,
            );
        }

        Universe { width, height, cells }
    }

    /// The number of columns.
    pub fn width(&self) -> (w: u32)
        ensures
            w == self@.width,
    {
        self.width
    }

    /// The number of rows.
    pub fn height(&self) -> (h: u32)
        ensures
            h == self@.height,
    {
        self.height
    }

    /// The position of the cell `(row, column)` in the bit set.
    pub fn get_index(&self, row: u32, column: u32) -> (idx: usize)
        requires
            self.wf(),
            self@.in_range(row as int, column as int),
        ensures
            idx == self@.index(row as int, column as int),
            idx < self@.cells.len(),
    {
        proof {
            lemma_index_in_range(self@, row as int, column as int);
        }
        row as usize * self.width as usize + column as usize
    }

    /// Whether the cell `(row, column)` is alive.
    pub fn is_alive(&self, row: u32, column: u32) -> (alive: bool)
        requires
            self.wf(),
            self@.in_range(row as int, column as int),
        ensures
            alive == self@.alive(row as int, column as int),
    {
        let idx = self.get_index(row, column);
        self.cells.contains(idx)
    }

    /// The number of live cells among the eight neighbours of `(row, column)`,
    /// the board being a torus: the row above the first is the last, and the
    /// column to the left of the first is the last.
    pub fn live_neighbor_count(&self, row: u32, column: u32) -> (count: u8)
        requires
            self.wf(),
            self@.in_range(row as int, column as int),
        ensures
            count == self@.neighbor_count(row as int, column as int),
            count <= 8,
    {
        let row_offsets: [u32; 3] = [self.height - 1, 0, 1];
        let col_offsets: [u32; 3] = [self.width - 1, 0, 1];
        let mut count: u8 = 0;
        for i in 0..3usize
            invariant
                self.wf(),
                self@.in_range(row as int, column as int),
                forall|k: int| 0 <= k < 3 ==> row_offsets[k] == self@.row_offset(k),
                forall|k: int| 0 <= k < 3 ==> col_offsets[k] == self@.col_offset(k),
                count == self@.neighbors_among(row as int, column as int, (3 * i) as nat),
                count + (if i >= 2 { 1int } else { 0int }) <= 3 * i,
        {
            for j in 0..3usize
                invariant
                    i < 3,
                    self.wf(),
                    self@.in_range(row as int, column as int),
                    forall|k: int| 0 <= k < 3 ==> row_offsets[k] == self@.row_offset(k),
                    forall|k: int| 0 <= k < 3 ==> col_offsets[k] == self@.col_offset(k),
                    count == self@.neighbors_among(row as int, column as int, (3 * i + j) as nat),
                    count + (if 3 * i + j > 4 { 1int } else { 0int }) <= 3 * i + j,
            {
                let delta_row = row_offsets[i];
                let delta_col = col_offsets[j];
                if delta_row != 0 || delta_col != 0 {
                    let neighbor_row = ((row as u64 + delta_row as u64) % (self.height as u64)) as u32;
                    let neighbor_col = ((column as u64 + delta_col as u64) % (self.width as u64)) as u32;
                    if self.is_alive(neighbor_row, neighbor_col) {
                        count += 1;
                    }
                }
            }
        }
        count
    }

    /// Inverts the state of the cell `(row, column)`.
    pub fn toggle_cell(&mut self, row: u32, column: u32)
        requires
            old(self).wf(),
            old(self)@.in_range(row as int, column as int),
        ensures
            final(self).wf(),
            final(self)@ == old(self)@.toggled(row as int, column as int),
    {
        let idx = self.get_index(row, column);
        self.cells.toggle(idx);
    }

    /// Makes the five cells of a glider alive: the anchor `(row, column)`, the
    /// two cells diagonally above it, the cell to its right and the cell below
    /// it.
    ///
    /// Nothing wraps around here. The anchor must leave room for the pattern:
    /// it lies neither in the first or last row nor in the first or last
    /// column.
    pub fn spawn_glider(&mut self, row: u32, column: u32)
        requires
            old(self).wf(),
            1 <= row,
            row + 1 < old(self)@.height,
            1 <= column,
            column + 1 < old(self)@.width,
        ensures
            final(self).wf(),
            final(self)@ == old(self)@.with_alive(glider(row, column)),
    {
        let cells: [(u32, u32); 5] = [
            (row, column),
            (row - 1, column - 1),
            (row - 1, column + 1),
            (row, column + 1),
            (row + 1, column),
        ];
        assert(cells@ =~= glider(row, column));
        self.set_cells(cells.as_slice());
    }

    /// Makes three cells alive: `(row, column)` and the two cells below it.
    /// This vertical bar is all that is spawned, not the full oscillator the
    /// name suggests. The three cells must lie on the board.
    pub fn spawn_pulsar(&mut self, row: u32, column: u32)
        requires
            old(self).wf(),
            row + 2 < old(self)@.height,
            column < old(self)@.width,
        ensures
            final(self).wf(),
            final(self)@ == old(self)@.with_alive(bar(row, column)),
    {
        let cells: [(u32, u32); 3] = [(row, column), (row + 1, column), (row + 2, column)];
        assert(cells@ =~= bar(row, column));
        self.set_cells(cells.as_slice());
    }

    /// Makes every cell dead.
    pub fn kill_all(&mut self)
        requires
            old(self).wf(),
        ensures
            final(self).wf(),
            final(self)@ == Grid::dead(old(self)@.width, old(self)@.height),
    {
        self.cells.clear();
    }

    /// Gives every cell the state that `states` holds for it, row after row.
    pub fn reset(&mut self, states: &[bool])
        requires
            old(self).wf(),
            states@.len() == old(self)@.width * old(self)@.height,
        ensures
            final(self).wf(),
            final(self)@ == old(self)@.with_cells(states@),
    {
        let height = self.height;
        let width = self.width;
        assert(0 * width == 0) by (nonlinear_arith);
        for i in 0..height
            invariant
                self.wf(),
                self@ == old(self)@.with_cells(self@.cells),
                height == self@.height,
                width == self@.width,
                self@.cells.len() == states@.len(),
                forall|k: int| 0 <= k < i * width ==> self@.cells[k] == states@[k],
        {
            for j in 0..width
                invariant
                    self.wf(),
                    self@ == old(self)@.with_cells(self@.cells),
                    height == self@.height,
                    width == self@.width,
                    self@.cells.len() == states@.len(),
                    i < height,
                    forall|k: int| 0 <= k < i * width + j ==> self@.cells[k] == states@[k],
            {
                let idx = self.get_index(i, j);
                self.cells.set(idx, states[idx]);
            }
            assert(i * width + width == (i + 1) * width) by (nonlinear_arith);
        }
        proof {
            assert(height * width == width * height) by (nonlinear_arith);
            assert(self@.cells =~= states@);
        }
    }

    /// Gives the universe the dimensions `width` by `height` and makes every
    /// cell dead.
    fn reset_cells(&mut self, width: u32, height: u32)
        requires
            width * height <= usize::MAX,
        ensures
            final(self).wf(),
            final(self)@ == Grid::dead(width as nat, height as nat),
    {
        let size = width as usize * height as usize;
        self.width = width;
        self.height = height;
        self.cells = FixedBitSet::with_capacity(size);
    }

    /// Sets the number of columns. Every cell is dead afterwards.
    pub fn set_width(&mut self, width: u32)
        requires
            old(self).wf(),
            width * old(self)@.height <= usize::MAX,
        ensures
            final(self).wf(),
            final(self)@ == Grid::dead(width as nat, old(self)@.height),
    {
        self.reset_cells(width, self.height);
    }

    /// Sets the number of rows. Every cell is dead afterwards.
    pub fn set_height(&mut self, height: u32)
        requires
            old(self).wf(),
            old(self)@.width * height <= usize::MAX,
        ensures
            final(self).wf(),
            final(self)@ == Grid::dead(old(self)@.width, height as nat),
    {
        self.reset_cells(self.width, height);
    }

    /// The cells as the bit set keeps them: 32 to a block, row after row, the
    /// cell at position `i` in bit `i % 32` of block `i / 32`.
    pub fn get_cells(&self) -> (blocks: &[u32])
        ensures
            packed_in(self@.cells, blocks@),
    {
        self.cells.as_slice()
    }

    /// The board as text: one line for each row, a glyph for each cell, and a
    /// line break between one line and the next. The text does not end with
    /// a line break.
    pub fn render(&self) -> (text: String)
        requires
            self.wf(),
        ensures
            text@ == self@.render_text(),
    {
        let mut text = String::new();
        for row in 0..self.height
            invariant
                self.wf(),
                text@ == self@.rows_text(row as nat),
        {
            if row > 0 {
                proof {
                    reveal_strlit("\n");
                }
                text.append("\n");
            }
            assert(text@ =~= self@.line_start(row as nat) + self@.row_glyphs(row as int, 0));
            for col in 0..self.width
                invariant
                    self.wf(),
                    row < self@.height,
                    text@ == self@.line_start(row as nat) + self@.row_glyphs(
                        row as int,
                        col as nat,
                    ),
            {
                proof {
                    reveal_strlit("\u{25FB}");
                    reveal_strlit("\u{25FC}");
                }
                let symbol = if self.is_alive(row, col) {
                    "\u{25FC}"
                } else {
                    "\u{25FB}"
                };
                text.append(symbol);
                assert(text@ =~= self@.line_start(row as nat) + self@.row_glyphs(
                    row as int,
                    (col + 1) as nat,
                ));
            }
            assert(text@ =~= self@.rows_text((row + 1) as nat));
        }
        text
    }

    /// Advances the universe by one generation. Every cell gets its new state
    /// from the board as it was before the call.
    pub fn tick(&mut self)
        requires
            old(self).wf(),
        ensures
            final(self).wf(),
            final(self)@ == old(self)@.step(),
    {
        let mut next = self.cells.clone();

        assert(0 * self@.width == 0) by (nonlinear_arith);
        for row in 0..self.height
            invariant
                *self == *old(self),
                self.wf(),
                bit_seq(&next).len() == self@.cells.len(),
                forall|i: int|
                    0 <= i < row * self@.width ==> bit_seq(&next)[i] == self@.step().cells[i],
        {
            for col in 0..self.width
                invariant
                    *self == *old(self),
                    self.wf(),
                    row < self@.height,
                    bit_seq(&next).len() == self@.cells.len(),
                    forall|i: int|
                        0 <= i < row * self@.width + col ==> bit_seq(&next)[i]
                            == self@.step().cells[i],
            {
                let idx = self.get_index(row, col);
                let cell = self.cells.contains(idx);
                let live_neighbors = self.live_neighbor_count(row, col);

                proof {
                    lemma_index_in_range(self@, row as int, col as int);
                }
                next.set(
                    idx,
                    match (cell, live_neighbors) {
                        (true, x) if x < 2 => false,
                        (true, 2) | (true, 3) => true,
                        (true, x) if x > 3 => false,
                        (false, 3) => true,
                        (otherwise, _) => otherwise,
                    },
                );
            }
            assert(row * self@.width + self@.width == (row + 1) * self@.width) by (nonlinear_arith);
        }

        proof {
            assert(self@.height * self@.width == self@.width * self@.height) by (nonlinear_arith);
            assert(bit_seq(&next) =~= self@.step().cells);
        }
        self.cells = next;
    }

    /// Makes every cell alive that `cells` names, as `(row, column)`, and
    /// leaves the others as they are.
    pub fn set_cells(&mut self, cells: &[(u32, u32)])
        requires
            old(self).wf(),
            forall|k: int|
                0 <= k < cells@.len() ==> old(self)@.in_range(
                    (#[trigger] cells@[k]).0 as int,
                    cells@[k].1 as int,
                ),
        ensures
            final(self).wf(),
            final(self)@ == old(self)@.with_alive(cells@),
    {
        proof {
            lemma_with_alive_none(self@);
        }
        for k in 0..cells.len()
            invariant
                old(self).wf(),
                self.wf(),
                forall|k: int|
                    0 <= k < cells@.len() ==> old(self)@.in_range(
                        (#[trigger] cells@[k]).0 as int,
                        cells@[k].1 as int,
                    ),
                self@ == old(self)@.with_alive(cells@.take(k as int)),
        {
            let (row, col) = cells[k];
            let idx = self.get_index(row, col);
            self.cells.set(idx, true);
            proof {
                lemma_with_alive_push(old(self)@, cells@.take(k as int), cells@[k as int]);
                assert(cells@.take(k as int).push(cells@[k as int]) =~= cells@.take(k + 1));
            }
        }
        assert(cells@.take(cells@.len() as int) =~= cells@);
    }
}

} // verus!
