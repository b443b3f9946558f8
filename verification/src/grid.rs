//! The mathematical model of a universe: its dimensions and the state of every
//! cell, with the rules of the game stated over them.

use vstd::arithmetic::div_mod::{
    lemma_fundamental_div_mod, lemma_fundamental_div_mod_converse, lemma_mod_bound,
};
use vstd::prelude::*;

verus! {

/// The number of columns of the default universe.
pub const SEED_WIDTH: u32 = 64;

/// The number of rows of the default universe.
pub const SEED_HEIGHT: u32 = 64;

/// The glyph that stands for a dead cell in a rendering.
pub const DEAD_GLYPH: char = '\u{25FB}';

/// The glyph that stands for a live cell in a rendering.
pub const ALIVE_GLYPH: char = '\u{25FC}';

/// The rule of the game: a live cell stays alive with two or three live
/// neighbours and dies with fewer or more; a dead cell comes alive with exactly
/// three and stays dead otherwise.
pub open spec fn next_state(alive: bool, live_neighbors: int) -> bool {
    if alive {
        live_neighbors == 2 || live_neighbors == 3
    } else {
        live_neighbors == 3
    }
}

/// Whether `coords` names the cell `(row, col)`.
pub open spec fn listed(coords: Seq<(u32, u32)>, row: int, col: int) -> bool {
    exists|k: int| 0 <= k < coords.len() && (#[trigger] coords[k]).0 == row && coords[k].1 == col
}

/// The five cells of a glider anchored at `(row, col)`: the anchor, the two
/// cells diagonally above it, the cell to its right and the cell below it.
pub open spec fn glider(row: u32, col: u32) -> Seq<(u32, u32)> {
    seq![
        (row, col),
        ((row - 1) as u32, (col - 1) as u32),
        ((row - 1) as u32, (col + 1) as u32),
        (row, (col + 1) as u32),
        ((row + 1) as u32, col),
    ]
}

/// The three cells of a vertical bar that starts at `(row, col)` and runs
/// downwards.
pub open spec fn bar(row: u32, col: u32) -> Seq<(u32, u32)> {
    seq![(row, col), ((row + 1) as u32, col), ((row + 2) as u32, col)]
}

/// Whether the default universe, `height` rows high, starts with the cell at
/// position `i` alive.
pub open spec fn seed_alive(i: int, height: int) -> bool {
    i == 3 || i == 1 + height || i == 3 + height || i == 2 + height * 2 || i == 3 + height * 2
}

/// A rectangular board of cells. The cell in row `row` and column `col` is the
/// element `row * width + col` of `cells`: the rows follow one another, each
/// from its first column to its last.
#[verifier::ext_equal]
pub struct Grid {
    pub width: nat,
    pub height: nat,
    pub cells: Seq<bool>,
}

impl Grid {
    /// There is exactly one state for each cell.
    pub open spec fn wf(self) -> bool {
        self.cells.len() == self.width * self.height
    }

    /// Whether `(row, col)` names a cell of the board.
    pub open spec fn in_range(self, row: int, col: int) -> bool {
        0 <= row < self.height && 0 <= col < self.width
    }

    /// The position of the cell `(row, col)` in `cells`.
    pub open spec fn index(self, row: int, col: int) -> int {
        row * self.width + col
    }

    /// The row of the cell at position `i` of `cells`.
    pub open spec fn row_of(self, i: int) -> int {
        i / (self.width as int)
    }

    /// The column of the cell at position `i` of `cells`.
    pub open spec fn col_of(self, i: int) -> int {
        i % (self.width as int)
    }

    /// Whether the cell `(row, col)` is alive.
    pub open spec fn alive(self, row: int, col: int) -> bool {
        self.cells[self.index(row, col)]
    }

    /// The `k`-th of the three row offsets under which neighbours are looked up.
    /// `height - 1` leads to the row above once the sum is reduced modulo the
    /// height, `0` to the same row, `1` to the row below.
    pub open spec fn row_offset(self, k: int) -> int {
        if k == 0 {
            self.height - 1
        } else if k == 1 {
            0
        } else {
            1
        }
    }

    /// The `k`-th of the three column offsets: `width - 1`, `0`, `1`.
    pub open spec fn col_offset(self, k: int) -> int {
        if k == 0 {
            self.width - 1
        } else if k == 1 {
            0
        } else {
            1
        }
    }

    /// What the `k`-th of the nine pairs of offsets adds to the neighbour count
    /// of `(row, col)`. The pairs are taken row offset by row offset. A pair
    /// whose two offsets are both zero is skipped; every other pair adds one
    /// if the cell it leads to, with both coordinates reduced modulo the
    /// dimensions, is alive.
    ///
    /// On a board at least two rows high and two columns wide exactly one pair
    /// is skipped, the cell itself. On a board of one row `height - 1` is zero
    /// as well, so the pair that would lead to the row above in the same column
    /// is skipped too; likewise on a board of one column.
    pub open spec fn neighbor_at(self, row: int, col: int, k: int) -> int {
        let dr = self.row_offset(k / 3);
        let dc = self.col_offset(k % 3);
        if (dr != 0 || dc != 0) && self.alive(
            (row + dr) % (self.height as int),
            (col + dc) % (self.width as int),
        ) {
            1
        } else {
            0
        }
    }

    /// What the first `n` pairs of offsets add up to.
    pub open spec fn neighbors_among(self, row: int, col: int, n: nat) -> int
        decreases n,
    {
        if n == 0 {
            0
        } else {
            self.neighbors_among(row, col, (n - 1) as nat) + self.neighbor_at(row, col, n - 1)
        }
    }

    /// The number of live neighbours of `(row, col)` on the torus: what all
    /// nine pairs of offsets add up to.
    pub open spec fn neighbor_count(self, row: int, col: int) -> int {
        self.neighbors_among(row, col, 9)
    }

    /// The board one generation later: the same dimensions, and every cell in
    /// the state that the rule gives it from its own state and the number of
    /// its live neighbours on this board.
    pub open spec fn step(self) -> Grid {
        Grid {
            width: self.width,
            height: self.height,
            cells: Seq::new(
                self.cells.len(),
                |i: int|
                    next_state(
                        self.cells[i],
                        self.neighbor_count(self.row_of(i), self.col_of(i)),
                    ),
            ),
        }
    }

    /// The board with the state of the cell `(row, col)` inverted.
    pub open spec fn toggled(self, row: int, col: int) -> Grid {
        let i = self.index(row, col);
        Grid { width: self.width, height: self.height, cells: self.cells.update(i, !self.cells[i]) }
    }

    /// The board with every cell that `coords` names alive, and every other
    /// cell as it is. It does not matter how often, or where in `coords`, a
    /// cell is named.
    pub open spec fn with_alive(self, coords: Seq<(u32, u32)>) -> Grid {
        Grid {
            width: self.width,
            height: self.height,
            cells: Seq::new(
                self.cells.len(),
                |i: int| self.cells[i] || listed(coords, self.row_of(i), self.col_of(i)),
            ),
        }
    }

    /// The board of the same dimensions whose cells have the given states.
    pub open spec fn with_cells(self, cells: Seq<bool>) -> Grid {
        Grid { width: self.width, height: self.height, cells }
    }

    /// The first `n` glyphs of the line for row `row`, one for each cell from
    /// the first column on.
    pub open spec fn row_glyphs(self, row: int, n: nat) -> Seq<char> {
        Seq::new(n, |col: int| if self.alive(row, col) { ALIVE_GLYPH } else { DEAD_GLYPH })
    }

    /// The first `n` lines of the rendering, each a row's glyphs, with a line
    /// break between one line and the next. No line break follows the last
    /// line.
    pub open spec fn rows_text(self, n: nat) -> Seq<char>
        decreases n,
    {
        if n == 0 {
            Seq::empty()
        } else if n == 1 {
            self.row_glyphs(0, self.width)
        } else {
            self.rows_text((n - 1) as nat).push('\n') + self.row_glyphs(n - 1, self.width)
        }
    }

    /// The rendering of the board: one line for each row, from the first row
    /// on, with line breaks between the lines and none at the end.
    pub open spec fn render_text(self) -> Seq<char> {
        self.rows_text(self.height)
    }

    /// Where the line for row `row` starts in the rendering: at the very
    /// start for the first row, and after the earlier lines and a line break
    /// for every other.
    pub open spec fn line_start(self, row: nat) -> Seq<char> {
        if row == 0 {
            Seq::empty()
        } else {
            self.rows_text(row).push('\n')
        }
    }

    /// The board that the default universe starts with.
    pub open spec fn seed() -> Grid {
        Grid {
            width: SEED_WIDTH as nat,
            height: SEED_HEIGHT as nat,
            cells: Seq::new(
                (SEED_WIDTH * SEED_HEIGHT) as nat,
                |i: int| seed_alive(i, SEED_HEIGHT as int),
            ),
        }
    }

    /// The board of the given dimensions on which every cell is dead.
    pub open spec fn dead(width: nat, height: nat) -> Grid {
        Grid { width, height, cells: Seq::new(width * height, |i: int| false) }
    }
}

/// For an in-range cell, `index` stays below the number of cells, and `row_of`
/// and `col_of` recover the coordinates from it.
pub proof fn lemma_index_in_range(g: Grid, row: int, col: int)
    requires
        g.in_range(row, col),
    ensures
        0 <= g.index(row, col) < g.width * g.height,
        g.row_of(g.index(row, col)) == row,
        g.col_of(g.index(row, col)) == col,
{
    let w = g.width as int;
    let h = g.height as int;
    assert(0 <= row * w + col < w * h) by (nonlinear_arith)
        requires
            0 <= row < h,
            0 <= col < w,
    ;
    lemma_fundamental_div_mod_converse(row * w + col, w, row, col);
}

/// Every position of `cells` belongs to exactly one in-range cell, whose
/// coordinates are `row_of` and `col_of` of the position.
pub proof fn lemma_position_in_range(g: Grid, i: int)
    requires
        0 <= i < g.width * g.height,
    ensures
        g.in_range(g.row_of(i), g.col_of(i)),
        g.index(g.row_of(i), g.col_of(i)) == i,
{
    let w = g.width as int;
    let h = g.height as int;
    assert(w > 0) by (nonlinear_arith)
        requires
            0 <= i < w * h,
            0 <= w,
            0 <= h,
    ;
    lemma_fundamental_div_mod(i, w);
    lemma_mod_bound(i, w);
    let q = i / w;
    let r = i % w;
    assert(0 <= q < h) by (nonlinear_arith)
        requires
            i == w * q + r,
            0 <= r < w,
            0 <= i < w * h,
    ;
    assert(q * w == w * q) by (nonlinear_arith);
}

/// Naming one more cell, an in-range one, makes that cell alive and changes
/// no other.
pub proof fn lemma_with_alive_push(g: Grid, coords: Seq<(u32, u32)>, cell: (u32, u32))
    requires
        g.wf(),
        g.in_range(cell.0 as int, cell.1 as int),
    ensures
        g.with_alive(coords.push(cell)).cells == g.with_alive(coords).cells.update(
            g.index(cell.0 as int, cell.1 as int),
            true,
        ),
{
    let more = coords.push(cell);
    let idx = g.index(cell.0 as int, cell.1 as int);
    lemma_index_in_range(g, cell.0 as int, cell.1 as int);
    assert forall|i: int| 0 <= i < g.cells.len() implies g.with_alive(more).cells[i]
        == g.with_alive(coords).cells.update(idx, true)[i] by {
        let row = g.row_of(i);
        let col = g.col_of(i);
        lemma_position_in_range(g, i);
        if listed(coords, row, col) {
            let k = choose|k: int|
                0 <= k < coords.len() && (#[trigger] coords[k]).0 == row && coords[k].1 == col;
            assert(more[k] == coords[k]);
        }
        if i == idx {
            assert(more[coords.len() as int] == cell);
        }
        if listed(more, row, col) {
            let k = choose|k: int|
                0 <= k < more.len() && (#[trigger] more[k]).0 == row && more[k].1 == col;
            if k < coords.len() {
                assert(coords[k] == more[k]);
            } else {
                assert(more[k] == cell);
            }
        }
    }
    assert(g.with_alive(more).cells =~= g.with_alive(coords).cells.update(idx, true));
}

/// Naming no cell changes nothing.
pub proof fn lemma_with_alive_none(g: Grid)
    ensures
        g.with_alive(Seq::empty()) == g,
{
    assert(g.with_alive(Seq::empty()).cells =~= g.cells);
}

} // verus!
