//! What holds of every universe, proved over the model.

use vstd::prelude::*;
use crate::cell::Cell;
use crate::grid::{cells_of_text, glyph, Grid, ALIVE_GLYPH, DEAD_GLYPH, ROW_END};

verus! {

/// A generation has the shape of the one before it: the same dimensions, and
/// one cell for every coordinate.
pub proof fn lemma_step_keeps_shape(grid: Grid)
    requires
        grid.wf(),
    ensures
        grid.step().wf(),
        grid.step().width == grid.width,
        grid.step().height == grid.height,
        grid.step().cells.len() == grid.width * grid.height,
{
}

/// However many generations pass, the grid keeps its dimensions and holds
/// one cell for every coordinate.
pub proof fn lemma_steps_keep_shape(grid: Grid, n: nat)
    requires
        grid.wf(),
    ensures
        grid.steps(n).wf(),
        grid.steps(n).width == grid.width,
        grid.steps(n).height == grid.height,
        grid.steps(n).cells.len() == grid.width * grid.height,
    decreases n,
{
    if n > 0 {
        lemma_steps_keep_shape(grid, (n - 1) as nat);
        lemma_step_keeps_shape(grid.steps((n - 1) as nat));
    }
}

/// In the next generation the cell at `(row, col)` is what the transition
/// rule makes of the cell that was there and of the number of its live
/// neighbours.
pub proof fn lemma_step_at(grid: Grid, row: int, col: int)
    requires
        grid.wf(),
        grid.in_bounds(row, col),
    ensures
        grid.step().cell(row, col) == grid.cell(row, col).successor(
            grid.live_neighbours(row, col),
        ),
{
    grid.lemma_index_in_buffer(row, col);
    grid.lemma_coordinate_of_index(row, col);
}

/// No cell has more than eight live neighbours.
pub proof fn lemma_live_neighbours_at_most_eight(grid: Grid, row: int, col: int)
    ensures
        grid.live_neighbours(row, col) <= 8,
{
}

/// The next generation depends on nothing but the dimensions and the cell at
/// each coordinate: two grids that agree on these have the same successor.
pub proof fn lemma_step_is_deterministic(a: Grid, b: Grid)
    requires
        a.wf(),
        b.wf(),
        a.width == b.width,
        forall|row: int, col: int|
            a.in_bounds(row, col) ==> #[trigger] a.cell(row, col) == b.cell(row, col),
    ensures
        a.step() == b.step(),
{
    a.lemma_equal_by_coordinates(b);
}

/// The grid is a torus: the cell at the origin is a neighbour of the cell in
/// the last row and last column. On a grid of three rows or more where the
/// origin is the only live cell, it is that cell's only live neighbour.
pub proof fn lemma_far_corner_sees_origin(grid: Grid)
    requires
        grid.wf(),
        grid.cell(0, 0) == Cell::Alive,
    ensures
        grid.live_neighbours(grid.height - 1, grid.width - 1) >= 1,
        grid.height >= 3 && (forall|k: int| 0 < k < grid.cells.len() ==> grid.cells[k] == Cell::Dead)
            ==> grid.live_neighbours(grid.height - 1, grid.width - 1) == 1,
{
    let h = grid.height as int;
    let w = grid.width as int;
    let row = h - 1;
    let col = w - 1;
    assert((row + 1) % h == 0) by {
        vstd::arithmetic::div_mod::lemma_mod_self_0(h);
    }
    assert((col + 1) % w == 0) by {
        vstd::arithmetic::div_mod::lemma_mod_self_0(w);
    }
    assert(grid.wrapped(row, col, 1, 1) == grid.cell(0, 0));
    assert(grid.seen(row, col, 1, 1) == 1);
    if h >= 3 && (forall|k: int| 0 < k < grid.cells.len() ==> grid.cells[k] == Cell::Dead) {
        lemma_lone_origin_seen(grid, row, col, h - 1, w - 1);
        lemma_lone_origin_seen(grid, row, col, h - 1, 0);
        lemma_lone_origin_seen(grid, row, col, h - 1, 1);
        lemma_lone_origin_seen(grid, row, col, 0, w - 1);
        lemma_lone_origin_seen(grid, row, col, 0, 1);
        lemma_lone_origin_seen(grid, row, col, 1, w - 1);
        lemma_lone_origin_seen(grid, row, col, 1, 0);
        assert((row + (h - 1)) % h == h - 2) by {
            vstd::arithmetic::div_mod::lemma_fundamental_div_mod_converse(
                row + (h - 1),
                h,
                1,
                h - 2,
            );
        }
        assert((row + 0) % h == h - 1) by {
            vstd::arithmetic::div_mod::lemma_small_mod(row as nat, h as nat);
        }
        assert((col + (w - 1)) % w == w - 2) by {
            vstd::arithmetic::div_mod::lemma_fundamental_div_mod_converse(
                col + (w - 1),
                w,
                1,
                w - 2,
            );
        }
        assert((col + 0) % w == w - 1) by {
            vstd::arithmetic::div_mod::lemma_small_mod(col as nat, w as nat);
        }
    }
}

/// On a grid whose only live cell is the origin, an offset that does not end
/// on the origin adds nothing to a live-neighbour count.
proof fn lemma_lone_origin_seen(grid: Grid, row: int, col: int, down: int, right: int)
    requires
        grid.wf(),
        grid.in_bounds(row, col),
        0 <= down,
        0 <= right,
        forall|k: int| 0 < k < grid.cells.len() ==> grid.cells[k] == Cell::Dead,
    ensures
        (row + down) % (grid.height as int) != 0 || (col + right) % (grid.width as int) != 0
            ==> grid.seen(row, col, down, right) == 0,
{
    let r = (row + down) % (grid.height as int);
    let c = (col + right) % (grid.width as int);
    grid.lemma_wrapped_in_bounds(row, col, down, right);
    grid.lemma_index_in_buffer(r, c);
    if r != 0 || c != 0 {
        assert(grid.index(r, c) > 0) by (nonlinear_arith)
            requires
                0 <= r,
                0 <= c,
                r != 0 || c != 0,
                grid.width > 0,
                grid.index(r, c) == r * grid.width + c,
        ;
    }
}

/// On a grid without a live cell, no cell has a live neighbour.
pub proof fn lemma_dead_grid_has_no_live_neighbours(grid: Grid, row: int, col: int)
    requires
        grid.wf(),
        grid.all_dead(),
        grid.in_bounds(row, col),
    ensures
        grid.live_neighbours(row, col) == 0,
{
    let up = grid.height - 1;
    let left = grid.width - 1;
    lemma_dead_grid_seen(grid, row, col, up, left);
    lemma_dead_grid_seen(grid, row, col, up, 0);
    lemma_dead_grid_seen(grid, row, col, up, 1);
    lemma_dead_grid_seen(grid, row, col, 0, left);
    lemma_dead_grid_seen(grid, row, col, 0, 0);
    lemma_dead_grid_seen(grid, row, col, 0, 1);
    lemma_dead_grid_seen(grid, row, col, 1, left);
    lemma_dead_grid_seen(grid, row, col, 1, 0);
    lemma_dead_grid_seen(grid, row, col, 1, 1);
}

/// On a grid without a live cell, no offset adds to a live-neighbour count.
proof fn lemma_dead_grid_seen(grid: Grid, row: int, col: int, down: int, right: int)
    requires
        grid.wf(),
        grid.all_dead(),
        grid.in_bounds(row, col),
        0 <= down,
        0 <= right,
    ensures
        grid.seen(row, col, down, right) == 0,
{
    grid.lemma_wrapped_in_bounds(row, col, down, right);
    grid.lemma_index_in_buffer(
        (row + down) % (grid.height as int),
        (col + right) % (grid.width as int),
    );
}

/// Nothing is born on an empty grid: a grid without a live cell is its own
/// next generation.
pub proof fn lemma_dead_grid_is_still(grid: Grid)
    requires
        grid.wf(),
        grid.all_dead(),
    ensures
        grid.step() == grid,
{
    assert forall|k: int| 0 <= k < grid.cells.len() implies grid.next_at(k) == grid.cells[k] by {
        grid.lemma_index_has_coordinate(k);
        lemma_dead_grid_has_no_live_neighbours(
            grid,
            k / (grid.width as int),
            k % (grid.width as int),
        );
    }
    assert(grid.step().cells =~= grid.cells);
}

/// A grid without a live cell stays as it is, however many generations pass.
pub proof fn lemma_dead_grid_stays_dead(grid: Grid, n: nat)
    requires
        grid.wf(),
        grid.all_dead(),
    ensures
        grid.steps(n) == grid,
        grid.steps(n).all_dead(),
    decreases n,
{
    if n > 0 {
        lemma_dead_grid_stays_dead(grid, (n - 1) as nat);
        lemma_dead_grid_is_still(grid);
    }
}

/// The text of the first `n` rows has `width + 1` characters per row.
proof fn lemma_rows_text_len(grid: Grid, n: nat)
    ensures
        grid.rows_text(n).len() == n * (grid.width + 1),
    decreases n,
{
    if n == 0 {
        assert(0 * (grid.width + 1) == 0) by (nonlinear_arith);
    } else {
        lemma_rows_text_len(grid, (n - 1) as nat);
        assert(n * (grid.width + 1) == (n - 1) * (grid.width + 1) + (grid.width + 1))
            by (nonlinear_arith);
    }
}

/// In the text of the first `n` rows, every row before the `n`-th has its
/// glyphs and its row end where `text_index` says.
proof fn lemma_rows_text_at(grid: Grid, n: nat, row: int, col: int)
    requires
        0 <= row < n,
        0 <= col <= grid.width,
    ensures
        0 <= grid.text_index(row, col) < grid.rows_text(n).len(),
        grid.rows_text(n)[grid.text_index(row, col)] == (if col < grid.width {
            glyph(grid.cell(row, col))
        } else {
            ROW_END
        }),
    decreases n,
{
    let m = (n - 1) as nat;
    let line = grid.width + 1;
    lemma_rows_text_len(grid, m);
    lemma_rows_text_len(grid, n);
    assert(n * line == m * line + line) by (nonlinear_arith)
        requires
            n == m + 1,
    ;
    if row < m {
        lemma_rows_text_at(grid, m, row, col);
    } else {
        assert(row * line >= 0) by (nonlinear_arith)
            requires
                row >= 0,
                line > 0,
        ;
        assert(grid.row_text(row)[col] == (if col < grid.width {
            glyph(grid.cell(row, col))
        } else {
            ROW_END
        }));
    }
}

/// The text of a grid has one line per row: `width` glyphs, each standing
/// for the cell of its column, and then a row end.
pub proof fn lemma_text_layout(grid: Grid, row: int, col: int)
    requires
        grid.wf(),
        grid.in_bounds(row, col),
    ensures
        grid.text().len() == grid.height * (grid.width + 1),
        0 <= grid.text_index(row, col) < grid.text_index(row, grid.width as int)
            < grid.text().len(),
        grid.text()[grid.text_index(row, col)] == glyph(grid.cell(row, col)),
        grid.text()[grid.text_index(row, grid.width as int)] == ROW_END,
{
    lemma_rows_text_len(grid, grid.height);
    lemma_rows_text_at(grid, grid.height, row, col);
    lemma_rows_text_at(grid, grid.height, row, grid.width as int);
}

/// The cells of two texts written one after the other are the cells of the
/// first followed by the cells of the second.
pub proof fn lemma_cells_of_text_concat(a: Seq<char>, b: Seq<char>)
    ensures
        cells_of_text(a + b) == cells_of_text(a) + cells_of_text(b),
    decreases b.len(),
{
    if b.len() == 0 {
        assert(a + b =~= a);
        assert(cells_of_text(a) + cells_of_text(b) =~= cells_of_text(a));
    } else {
        assert((a + b).drop_last() =~= a + b.drop_last());
        assert((a + b).last() == b.last());
        lemma_cells_of_text_concat(a, b.drop_last());
        let before = cells_of_text(a) + cells_of_text(b.drop_last());
        if b.last() == ALIVE_GLYPH {
            assert(before.push(Cell::Alive) =~= cells_of_text(a) + cells_of_text(
                b.drop_last(),
            ).push(Cell::Alive));
        } else if b.last() == DEAD_GLYPH {
            assert(before.push(Cell::Dead) =~= cells_of_text(a) + cells_of_text(
                b.drop_last(),
            ).push(Cell::Dead));
        }
    }
}

/// The first `n` glyphs of a row stand for the first `n` cells of that row.
proof fn lemma_cells_of_row_glyphs(grid: Grid, row: int, n: nat)
    requires
        grid.wf(),
        0 <= row < grid.height,
        n <= grid.width,
    ensures
        cells_of_text(grid.row_glyphs(row, n)) == grid.cells.subrange(
            grid.index(row, 0),
            grid.index(row, n as int),
        ),
    decreases n,
{
    let glyphs = grid.row_glyphs(row, n);
    if n == 0 {
        assert(grid.cells.subrange(grid.index(row, 0), grid.index(row, 0)) =~= Seq::<
            Cell,
        >::empty()) by {
            grid.lemma_index_in_buffer(row, 0);
        }
    } else {
        let m = (n - 1) as nat;
        lemma_cells_of_row_glyphs(grid, row, m);
        grid.lemma_index_in_buffer(row, 0);
        grid.lemma_index_in_buffer(row, m as int);
        assert(glyphs.drop_last() =~= grid.row_glyphs(row, m));
        assert(glyphs.last() == glyph(grid.cell(row, m as int)));
        assert(grid.cells.subrange(grid.index(row, 0), grid.index(row, n as int))
            =~= grid.cells.subrange(grid.index(row, 0), grid.index(row, m as int)).push(
            grid.cell(row, m as int),
        ));
    }
}

/// The text of the first `n` rows stands for the cells of those rows.
proof fn lemma_cells_of_rows_text(grid: Grid, n: nat)
    requires
        grid.wf(),
        n <= grid.height,
    ensures
        cells_of_text(grid.rows_text(n)) == grid.cells.subrange(0, grid.index(n as int, 0)),
    decreases n,
{
    if n == 0 {
        assert(grid.index(0, 0) == 0) by (nonlinear_arith)
            requires
                grid.index(0, 0) == 0 * grid.width + 0,
        ;
        assert(grid.cells.subrange(0, 0) =~= Seq::<Cell>::empty());
    } else {
        let m = (n - 1) as nat;
        let row = m as int;
        lemma_cells_of_rows_text(grid, m);
        lemma_cells_of_row_glyphs(grid, row, grid.width);
        lemma_cells_of_text_concat(grid.rows_text(m), grid.row_text(row));
        let glyphs = grid.row_glyphs(row, grid.width);
        assert(grid.row_text(row).drop_last() =~= glyphs);
        assert(cells_of_text(grid.row_text(row)) == cells_of_text(glyphs));
        assert(grid.index(row, grid.width as int) == grid.index(n as int, 0)) by (nonlinear_arith)
            requires
                n == row + 1,
                grid.index(row, grid.width as int) == row * grid.width + grid.width,
                grid.index(n as int, 0) == n * grid.width + 0,
        ;
        grid.lemma_index_in_buffer(row, 0);
        assert(grid.index(n as int, 0) <= grid.cells.len()) by {
            grid.lemma_index_in_buffer(row, grid.width - 1);
        }
        assert(grid.cells.subrange(0, grid.index(n as int, 0)) =~= grid.cells.subrange(
            0,
            grid.index(row, 0),
        ) + grid.cells.subrange(grid.index(row, 0), grid.index(n as int, 0)));
    }
}

/// Reading the text of a grid back, glyph by glyph, gives the cells that the
/// text was written from.
pub proof fn lemma_text_round_trip(grid: Grid)
    requires
        grid.wf(),
    ensures
        cells_of_text(grid.text()) == grid.cells,
{
    lemma_cells_of_rows_text(grid, grid.height);
    assert(grid.index(grid.height as int, 0) == grid.cells.len()) by (nonlinear_arith)
        requires
            grid.index(grid.height as int, 0) == grid.height * grid.width + 0,
            grid.cells.len() == grid.width * grid.height,
    ;
    assert(grid.cells.subrange(0, grid.cells.len() as int) =~= grid.cells);
}

} // verus!
