//! What holds of the game on every board, proved from the model in `grid`.

use crate::grid::{
    lemma_index_in_range, lemma_position_in_range, next_state, Grid, ALIVE_GLYPH, DEAD_GLYPH,
};
use vstd::arithmetic::div_mod::{
    lemma_fundamental_div_mod, lemma_fundamental_div_mod_converse, lemma_mod_bound,
};
use vstd::prelude::*;

verus! {

/// Whether `(row, col)` is one of the eight cells around the cell `(0, 0)` on
/// the torus: those in the last row, the first row and the row after the first,
/// each in the last column, the first column and the column after the first,
/// but for `(0, 0)` itself. On a board of one row the row after the first is
/// the first again, and likewise for columns, so the eight need not differ.
pub open spec fn around_origin(g: Grid, row: int, col: int) -> bool {
    let last_row = g.height - 1;
    let last_col = g.width - 1;
    let next_row = 1int % (g.height as int);
    let next_col = 1int % (g.width as int);
    ||| row == last_row && col == last_col
    ||| row == last_row && col == 0
    ||| row == last_row && col == next_col
    ||| row == 0 && col == last_col
    ||| row == 0 && col == next_col
    ||| row == next_row && col == last_col
    ||| row == next_row && col == 0
    ||| row == next_row && col == next_col
}

/// Whether the cell `(0, 0)` is alive on `g` and no other cell is.
pub open spec fn only_origin_alive(g: Grid) -> bool {
    g.cells == Seq::new(g.cells.len(), |i: int| i == 0)
}

/// A coordinate below `n`, moved by an offset of at most `n` and reduced
/// modulo `n`, is the sum, less `n` where the sum reaches `n`.
proof fn lemma_wrap(x: int, d: int, n: int)
    requires
        0 <= x < n,
        0 <= d <= n,
    ensures
        (x + d) % n == if x + d < n {
            x + d
        } else {
            x + d - n
        },
        0 <= (x + d) % n < n,
{
    if x + d < n {
        lemma_fundamental_div_mod_converse(x + d, n, 0, x + d);
    } else {
        lemma_fundamental_div_mod_converse(x + d, n, 1, x + d - n);
    }
}

/// The cell that each pair of offsets leads to from an in-range cell is in
/// range.
proof fn lemma_neighbors_in_range(g: Grid, row: int, col: int)
    requires
        g.in_range(row, col),
    ensures
        forall|a: int, b: int|
            0 <= a < 3 && 0 <= b < 3 ==> g.in_range(
                #[trigger] ((row + g.row_offset(a)) % (g.height as int)),
                #[trigger] ((col + g.col_offset(b)) % (g.width as int)),
            ),
{
    assert forall|a: int, b: int| 0 <= a < 3 && 0 <= b < 3 implies g.in_range(
        #[trigger] ((row + g.row_offset(a)) % (g.height as int)),
        #[trigger] ((col + g.col_offset(b)) % (g.width as int)),
    ) by {
        lemma_wrap(row, g.row_offset(a), g.height as int);
        lemma_wrap(col, g.col_offset(b), g.width as int);
    }
}

/// Inverting the state of a cell twice leaves the board as it was.
pub proof fn lemma_toggle_twice(g: Grid, row: int, col: int)
    requires
        g.wf(),
        g.in_range(row, col),
    ensures
        g.toggled(row, col).toggled(row, col) == g,
{
    lemma_index_in_range(g, row, col);
    assert(g.toggled(row, col).toggled(row, col).cells =~= g.cells);
}

/// Inverting the state of a cell changes that cell and no other.
pub proof fn lemma_toggle_one_cell(g: Grid, row: int, col: int, r: int, c: int)
    requires
        g.wf(),
        g.in_range(row, col),
        g.in_range(r, c),
    ensures
        g.toggled(row, col).wf(),
        g.toggled(row, col).alive(r, c) == if r == row && c == col {
            !g.alive(r, c)
        } else {
            g.alive(r, c)
        },
{
    lemma_index_in_range(g, row, col);
    lemma_index_in_range(g, r, c);
}

/// On the dead board of any dimensions there is one state for each cell, and
/// every cell is dead.
pub proof fn lemma_dead_board(width: nat, height: nat)
    ensures
        Grid::dead(width, height).wf(),
        Grid::dead(width, height).width == width,
        Grid::dead(width, height).height == height,
        forall|row: int, col: int|
            Grid::dead(width, height).in_range(row, col) ==> !#[trigger] Grid::dead(
                width,
                height,
            ).alive(row, col),
{
    let g = Grid::dead(width, height);
    assert forall|row: int, col: int| g.in_range(row, col) implies !#[trigger] g.alive(
        row,
        col,
    ) by {
        lemma_index_in_range(g, row, col);
    }
}

/// No cell has more than eight live neighbours.
pub proof fn lemma_neighbor_count_bounds(g: Grid, row: int, col: int)
    ensures
        0 <= g.neighbor_count(row, col) <= 8,
{
    reveal_with_fuel(Grid::neighbors_among, 10);
    assert(g.neighbor_at(row, col, 4) == 0);
}

/// On a board without a live cell, no cell has a live neighbour.
pub proof fn lemma_dead_board_has_no_neighbors(width: nat, height: nat, row: int, col: int)
    requires
        Grid::dead(width, height).in_range(row, col),
    ensures
        Grid::dead(width, height).neighbor_count(row, col) == 0,
{
    let g = Grid::dead(width, height);
    reveal_with_fuel(Grid::neighbors_among, 10);
    lemma_dead_board(width, height);
    lemma_neighbors_in_range(g, row, col);
    assert forall|k: int| 0 <= k < 9 implies g.neighbor_at(row, col, k) == 0 by {
        let r = (row + g.row_offset(k / 3)) % (g.height as int);
        let c = (col + g.col_offset(k % 3)) % (g.width as int);
        assert(g.in_range(r, c));
        assert(!g.alive(r, c));
    }
}

/// The glyph that stands for a cell in the given state.
pub open spec fn glyph_of(alive: bool) -> char {
    if alive {
        ALIVE_GLYPH
    } else {
        DEAD_GLYPH
    }
}

/// The character at position `i` of a rendering. Counting a line as its
/// `width` glyphs and the line break after it, position `i` belongs to line
/// `i / (width + 1)`; it holds the line break where `i % (width + 1)` is
/// `width`, and else the glyph of the cell in that row and in column
/// `i % (width + 1)`.
pub open spec fn char_at(g: Grid, i: int) -> char {
    let m = g.width as int + 1;
    if i % m == g.width as int {
        '\n'
    } else {
        glyph_of(g.alive(i / m, i % m))
    }
}

/// The layout of the first `n` lines of a rendering, `n` being at least one:
/// `n` lines of `width` glyphs with `n - 1` line breaks between them, every
/// character the one that `char_at` gives for its position.
pub proof fn lemma_rows_layout(g: Grid, n: nat)
    requires
        1 <= n,
    ensures
        g.rows_text(n).len() == n * (g.width + 1) - 1,
        forall|i: int|
            0 <= i < g.rows_text(n).len() ==> #[trigger] g.rows_text(n)[i] == char_at(g, i),
    decreases n,
{
    let w = g.width as int;
    let m = w + 1;
    if n == 1 {
        assert(1 * m - 1 == w) by (nonlinear_arith)
            requires
                m == w + 1,
        ;
        assert forall|i: int| 0 <= i < g.rows_text(n).len() implies #[trigger] g.rows_text(n)[i]
            == char_at(g, i) by {
            assert(g.rows_text(n) == g.row_glyphs(0, g.width));
            assert(0 * m + i == i) by (nonlinear_arith);
            lemma_fundamental_div_mod_converse(i, m, 0, i);
        }
    } else {
        let k = (n - 1) as nat;
        lemma_rows_layout(g, k);
        let before = g.rows_text(k).push('\n');
        let line = g.row_glyphs(n - 1, g.width);
        assert(k * m - 1 + 1 + w == n * m - 1) by (nonlinear_arith)
            requires
                k == n - 1,
                m == w + 1,
        ;
        assert forall|i: int| 0 <= i < g.rows_text(n).len() implies #[trigger] g.rows_text(n)[i]
            == char_at(g, i) by {
            if i < before.len() - 1 {
                assert(g.rows_text(n)[i] == g.rows_text(k)[i]);
            } else if i == before.len() - 1 {
                assert(g.rows_text(n)[i] == '\n');
                assert(i == (k - 1) * m + w) by (nonlinear_arith)
                    requires
                        i == k * m - 1,
                        m == w + 1,
                ;
                lemma_fundamental_div_mod_converse(i, m, k - 1, w);
            } else {
                let j = i - before.len();
                assert(g.rows_text(n)[i] == line[j]);
                assert(i == k * m + j);
                lemma_fundamental_div_mod_converse(i, m, k as int, j);
            }
        }
    }
}

/// The rendering of a board with at least one row and one column starts and
/// ends with a glyph: line breaks stand between the lines only, at the
/// positions that `lemma_rows_layout` gives, `height - 1` of them.
pub proof fn lemma_render_has_no_outer_breaks(g: Grid)
    requires
        g.height >= 1,
        g.width >= 1,
    ensures
        g.render_text().len() == g.height * (g.width + 1) - 1,
        g.render_text().len() >= 1,
        g.render_text().first() != '\n',
        g.render_text().last() != '\n',
{
    let w = g.width as int;
    let h = g.height as int;
    let m = w + 1;
    lemma_rows_layout(g, g.height);
    let len = g.render_text().len() as int;
    assert(len - 1 == (h - 1) * m + (w - 1) && len >= w) by (nonlinear_arith)
        requires
            len == h * m - 1,
            m == w + 1,
            h >= 1,
            w >= 1,
    ;
    assert(0 * m + 0 == 0) by (nonlinear_arith);
    lemma_fundamental_div_mod_converse(0, m, 0, 0);
    lemma_fundamental_div_mod_converse(len - 1, m, h - 1, w - 1);
    assert(g.render_text()[0] == glyph_of(g.alive(0, 0)));
    assert(g.render_text()[len - 1] == glyph_of(g.alive(h - 1, w - 1)));
}

/// The rendering of a board without a live cell shows no live glyph: it
/// holds dead glyphs and line breaks only.
pub proof fn lemma_dead_board_renders_dead(width: nat, height: nat)
    ensures
        forall|i: int|
            0 <= i < Grid::dead(width, height).render_text().len() ==> {
                let glyph = #[trigger] Grid::dead(width, height).render_text()[i];
                glyph == DEAD_GLYPH || glyph == '\n'
            },
        !Grid::dead(width, height).render_text().contains(ALIVE_GLYPH),
{
    let g = Grid::dead(width, height);
    let m = width as int + 1;
    if height >= 1 {
        lemma_rows_layout(g, height);
        lemma_dead_board(width, height);
        let len = g.render_text().len() as int;
        assert forall|i: int| 0 <= i < len implies {
            let glyph = #[trigger] g.render_text()[i];
            glyph == DEAD_GLYPH || glyph == '\n'
        } by {
            if i % m != width {
                lemma_fundamental_div_mod(i, m);
                lemma_mod_bound(i, m);
                let q = i / m;
                let r = i % m;
                assert(0 <= q < height) by (nonlinear_arith)
                    requires
                        i == m * q + r,
                        0 <= r < m,
                        0 <= i < height * m - 1,
                        m >= 1,
                ;
                assert(g.in_range(q, r));
                assert(!g.alive(q, r));
            }
        }
    }
}

/// Two boards of the same dimensions on which the same cells are alive are
/// the same board, and so is what a generation makes of them.
pub proof fn lemma_step_by_content(a: Grid, b: Grid)
    requires
        a.wf(),
        b.wf(),
        a.width == b.width,
        a.height == b.height,
        forall|row: int, col: int| a.in_range(row, col) ==> a.alive(row, col) == b.alive(row, col),
    ensures
        a == b,
        a.step() == b.step(),
{
    assert forall|i: int| 0 <= i < a.cells.len() implies a.cells[i] == b.cells[i] by {
        lemma_position_in_range(a, i);
        assert(a.alive(a.row_of(i), a.col_of(i)) == b.alive(a.row_of(i), a.col_of(i)));
    }
    assert(a.cells =~= b.cells);
}

/// A generation keeps the dimensions of the board, and gives each cell the
/// state that the rule makes of its state and the number of its live
/// neighbours before.
pub proof fn lemma_step_cell(g: Grid, row: int, col: int)
    requires
        g.wf(),
        g.in_range(row, col),
    ensures
        g.step().wf(),
        g.step().width == g.width,
        g.step().height == g.height,
        g.step().alive(row, col) == next_state(
            g.alive(row, col),
            g.neighbor_count(row, col),
        ),
{
    lemma_index_in_range(g, row, col);
}

/// With `(0, 0)` the only live cell, a cell has a live neighbour exactly if it
/// is one of the eight cells around `(0, 0)` on the torus. On a board of at
/// least three rows and three columns those eight differ from one another, and
/// each of them has exactly one live neighbour.
pub proof fn lemma_origin_reaches_its_neighbors(g: Grid, row: int, col: int)
    requires
        g.wf(),
        only_origin_alive(g),
        g.in_range(row, col),
    ensures
        g.neighbor_count(row, col) > 0 <==> around_origin(g, row, col),
        g.height >= 3 && g.width >= 3 ==> g.neighbor_count(row, col) == if around_origin(
            g,
            row,
            col,
        ) {
            1int
        } else {
            0int
        },
{
    let n = g.height as int;
    let m = g.width as int;
    reveal_with_fuel(Grid::neighbors_among, 10);
    lemma_neighbors_in_range(g, row, col);
    lemma_wrap(0, 1, n);
    lemma_wrap(0, 1, m);
    assert forall|a: int| 0 <= a < 3 implies ((row + #[trigger] g.row_offset(a)) % n == 0 <==> row
        == if a == 0 {
        1int % n
    } else if a == 1 {
        0
    } else {
        n - 1
    }) by {
        lemma_wrap(row, g.row_offset(a), n);
    }
    assert forall|b: int| 0 <= b < 3 implies ((col + #[trigger] g.col_offset(b)) % m == 0 <==> col
        == if b == 0 {
        1int % m
    } else if b == 1 {
        0
    } else {
        m - 1
    }) by {
        lemma_wrap(col, g.col_offset(b), m);
    }
    assert forall|k: int| 0 <= k < 9 implies #[trigger] g.neighbor_at(row, col, k) == if (
    g.row_offset(k / 3) != 0 || g.col_offset(k % 3) != 0) && (row + g.row_offset(k / 3)) % n == 0
        && (col + g.col_offset(k % 3)) % m == 0 {
        1int
    } else {
        0int
    } by {
        let r = (row + g.row_offset(k / 3)) % n;
        let c = (col + g.col_offset(k % 3)) % m;
        assert(g.in_range(r, c));
        lemma_only_origin(g, r, c);
    }
}

/// With `(0, 0)` the only live cell, an in-range cell is alive exactly if both
/// its coordinates are zero.
proof fn lemma_only_origin(g: Grid, row: int, col: int)
    requires
        g.wf(),
        only_origin_alive(g),
        g.in_range(row, col),
    ensures
        g.alive(row, col) <==> row == 0 && col == 0,
{
    lemma_index_in_range(g, row, col);
    let m = g.width as int;
    assert(row * m + col == 0 <==> row == 0 && col == 0) by (nonlinear_arith)
        requires
            0 <= row,
            0 <= col < m,
    ;
}

} // verus!
