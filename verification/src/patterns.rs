//! Two classic patterns and what a generation makes of them.

use vstd::prelude::*;
use crate::cell::Cell;
use crate::grid::{after, before, Grid};
use crate::laws::lemma_step_at;

verus! {

/// Whether the live cells of `grid` are exactly the two-by-two block whose
/// top left corner is `(top, left)`.
pub open spec fn is_block(grid: Grid, top: int, left: int) -> bool {
    forall|row: int, col: int|
        grid.in_bounds(row, col) ==> (#[trigger] grid.cell(row, col) == Cell::Alive <==> (row
            == top || row == after(top, grid.height as int)) && (col == left || col == after(
            left,
            grid.width as int,
        )))
}

/// Whether the live cells of `grid` are exactly the three cells of row `row`
/// that are centred on `(row, col)`.
pub open spec fn is_row_of_three(grid: Grid, row: int, col: int) -> bool {
    forall|r: int, c: int|
        grid.in_bounds(r, c) ==> (#[trigger] grid.cell(r, c) == Cell::Alive <==> r == row && (c
            == before(col, grid.width as int) || c == col || c == after(
            col,
            grid.width as int,
        )))
}

/// Whether the live cells of `grid` are exactly the three cells of column
/// `col` that are centred on `(row, col)`.
pub open spec fn is_column_of_three(grid: Grid, row: int, col: int) -> bool {
    forall|r: int, c: int|
        grid.in_bounds(r, c) ==> (#[trigger] grid.cell(r, c) == Cell::Alive <==> c == col && (r
            == before(row, grid.height as int) || r == row || r == after(
            row,
            grid.height as int,
        )))
}

/// A two-by-two block of live cells on an otherwise empty grid of three rows
/// or more is a still life: the next generation is the same grid. (On two
/// rows the block fills the grid and dies of overcrowding.)
pub proof fn lemma_block_is_still(grid: Grid, top: int, left: int)
    requires
        grid.wf(),
        grid.height >= 3,
        grid.in_bounds(top, left),
        is_block(grid, top, left),
    ensures
        grid.step() == grid,
{
    assert forall|row: int, col: int| grid.in_bounds(row, col) implies #[trigger] grid.step().cell(
        row,
        col,
    ) == grid.cell(row, col) by {
        lemma_step_at(grid, row, col);
        grid.lemma_live_neighbours_are_ring_sum(row, col);
    }
    grid.step().lemma_equal_by_coordinates(grid);
}

/// A row of three live cells on an otherwise empty grid of four rows or more
/// becomes, in the next generation, the column of three live cells with the
/// same centre. (On three rows the row of three goes round the torus and
/// fills the grid instead.)
pub proof fn lemma_row_of_three_turns(grid: Grid, row: int, col: int)
    requires
        grid.wf(),
        grid.height >= 4,
        grid.in_bounds(row, col),
        is_row_of_three(grid, row, col),
    ensures
        is_column_of_three(grid.step(), row, col),
{
    assert forall|r: int, c: int| grid.in_bounds(r, c) implies (#[trigger] grid.step().cell(r, c)
        == Cell::Alive <==> c == col && (r == before(row, grid.height as int) || r == row || r
        == after(row, grid.height as int))) by {
        lemma_step_at(grid, r, c);
        grid.lemma_live_neighbours_are_ring_sum(r, c);
    }
}

/// A column of three live cells on an otherwise empty grid of four rows or
/// more becomes, in the next generation, the row of three live cells with the
/// same centre.
pub proof fn lemma_column_of_three_turns(grid: Grid, row: int, col: int)
    requires
        grid.wf(),
        grid.height >= 4,
        grid.in_bounds(row, col),
        is_column_of_three(grid, row, col),
    ensures
        is_row_of_three(grid.step(), row, col),
{
    assert forall|r: int, c: int| grid.in_bounds(r, c) implies (#[trigger] grid.step().cell(r, c)
        == Cell::Alive <==> r == row && (c == before(col, grid.width as int) || c == col || c
        == after(col, grid.width as int))) by {
        lemma_step_at(grid, r, c);
        grid.lemma_live_neighbours_are_ring_sum(r, c);
    }
}

/// A row of three live cells on an otherwise empty grid of four rows or more
/// oscillates with period two: after two generations the grid is what it was.
pub proof fn lemma_blinker_has_period_two(grid: Grid, row: int, col: int)
    requires
        grid.wf(),
        grid.height >= 4,
        grid.in_bounds(row, col),
        is_row_of_three(grid, row, col),
    ensures
        is_column_of_three(grid.steps(1), row, col),
        grid.steps(2) == grid,
{
    reveal_with_fuel(Grid::steps, 3);
    let once = grid.step();
    let twice = once.step();
    assert(grid.steps(1) == once);
    assert(grid.steps(2) == twice);
    lemma_row_of_three_turns(grid, row, col);
    lemma_column_of_three_turns(once, row, col);
    twice.lemma_equal_by_coordinates(grid);
}

} // verus!
