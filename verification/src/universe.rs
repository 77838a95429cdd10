//! The executable universe.

use vstd::prelude::*;
use crate::cell::Cell;
use crate::grid::{glyph, Grid, ROW_END};
use crate::laws::lemma_step_at;

verus! {

/// The number of columns of every universe.
pub const WIDTH: u32 = 64;

/// The number of rows of every universe.
pub const HEIGHT: u32 = 64;

/// The cells that a sequence of coin flips gives: a live cell for every flip
/// that came up `true`, a dead one for every other.
pub open spec fn cells_of_flips(flips: Seq<bool>) -> Seq<Cell> {
    Seq::new(
        flips.len(),
        |k: int|
            if flips[k] {
                Cell::Alive
            } else {
                Cell::Dead
            },
    )
}

/// The grid that [`Universe::new`] builds from a sequence of coin flips.
pub open spec fn grid_of_flips(flips: Seq<bool>) -> Grid {
    Grid { width: WIDTH as nat, height: HEIGHT as nat, cells: cells_of_flips(flips) }
}

/// A square whose area fits in a `u32` has a side that fits in a `u16`.
proof fn lemma_square_side_is_small(side: int)
    requires
        0 <= side,
        side * side <= u32::MAX,
    ensures
        side <= 0xffff,
{
    assert(side <= 0xffff) by (nonlinear_arith)
        requires
            0 <= side,
            side * side <= 0xffff_ffff,
    ;
}

/// A square torus of cells that evolves by the rules of the Game of Life.
///
/// The cells live in one flat buffer, row after row. The dimensions are fixed
/// when the universe is made; [`Universe::tick`] replaces the buffer with the
/// next generation.
pub struct Universe {
    width: u32,
    height: u32,
    cells: Vec<Cell>,
}

impl View for Universe {
    type V = Grid;

    closed spec fn view(&self) -> Grid {
        Grid { width: self.width as nat, height: self.height as nat, cells: self.cells@ }
    }
}

impl Universe {
    /// What holds of every universe: its grid is well formed, and every
    /// buffer position fits in a `u32`.
    #[verifier::type_invariant]
    spec fn inv(&self) -> bool {
        &&& self@.wf()
        &&& self.width * self.height <= u32::MAX
    }

    /// Makes a universe of `WIDTH` columns and `HEIGHT` rows from one coin
    /// flip per cell, in row-major order.
    pub fn new(flips: &[bool]) -> (universe: Universe)
        requires
            flips@.len() == WIDTH * HEIGHT,
        ensures
            universe@ == grid_of_flips(flips@),
            universe@.wf(),
    {
        let mut cells: Vec<Cell> = Vec::new();
        let count: usize = flips.len();
        for i in 0..count
            invariant
                count == flips@.len(),
                cells@.len() == i,
                forall|k: int| 0 <= k < i ==> cells@[k] == cells_of_flips(flips@)[k],
        {
            let cell = if flips[i] {
                Cell::Alive
            } else {
                Cell::Dead
            };
            cells.push(cell);
        }
        assert(cells@ =~= cells_of_flips(flips@));
        Universe { width: WIDTH, height: HEIGHT, cells }
    }

    /// The number of columns.
    pub fn width(&self) -> (width: u32)
        ensures
            width == self@.width,
            self@.wf(),
    {
        proof {
            use_type_invariant(self);
        }
        self.width
    }

    /// The number of rows.
    pub fn height(&self) -> (height: u32)
        ensures
            height == self@.height,
            self@.wf(),
    {
        proof {
            use_type_invariant(self);
        }
        self.height
    }

    /// The cells of the current generation, row after row.
    ///
    /// The borrow ends before the next call of [`Universe::tick`], so a
    /// caller never reads a buffer that has been replaced.
    pub fn cells(&self) -> (cells: &[Cell])
        ensures
            cells@ == self@.cells,
            cells@.len() == self@.width * self@.height,
            self@.wf(),
    {
        proof {
            use_type_invariant(self);
        }
        self.cells.as_slice()
    }

    /// The position of the cell at `(row, col)` in the buffer that
    /// [`Universe::cells`] hands out.
    pub fn get_index(&self, row: u32, col: u32) -> (index: usize)
        requires
            self@.in_bounds(row as int, col as int),
        ensures
            index == self@.index(row as int, col as int),
            index < self@.cells.len(),
    {
        proof {
            use_type_invariant(self);
            self@.lemma_index_in_buffer(row as int, col as int);
        }
        (row * self.width + col) as usize
    }

    /// The number of live cells among the eight neighbours of `(row, col)`,
    /// where the grid wraps around at every edge.
    pub fn live_nn_count(&self, row: u32, col: u32) -> (alive: u8)
        requires
            self@.in_bounds(row as int, col as int),
        ensures
            alive == self@.live_neighbours(row as int, col as int),
            alive <= 8,
    {
        proof {
            use_type_invariant(self);
            lemma_square_side_is_small(self.width as int);
        }
        let downs: [u32; 3] = [self.height - 1, 0, 1];
        let rights: [u32; 3] = [self.width - 1, 0, 1];
        let ghost grid = self@;
        let mut alive: u8 = 0;
        for a in 0..3usize
            invariant
                grid == self@,
                grid.wf(),
                grid.in_bounds(row as int, col as int),
                self.width <= 0xffff,
                downs@ == seq![(self.height - 1) as u32, 0u32, 1u32],
                rights@ == seq![(self.width - 1) as u32, 0u32, 1u32],
                alive == seen_in_rows(grid, row as int, col as int, a as int),
                alive <= 3 * a,
        {
            for b in 0..3usize
                invariant
                    grid == self@,
                    grid.wf(),
                    grid.in_bounds(row as int, col as int),
                    self.width <= 0xffff,
                    a < 3,
                    downs@ == seq![(self.height - 1) as u32, 0u32, 1u32],
                    rights@ == seq![(self.width - 1) as u32, 0u32, 1u32],
                    alive == seen_in_rows(grid, row as int, col as int, a as int) + seen_in_cols(
                        grid,
                        row as int,
                        col as int,
                        downs@[a as int] as int,
                        b as int,
                    ),
                    alive <= 3 * a + b,
            {
                let down = downs[a];
                let right = rights[b];
                if !(down == 0 && right == 0) {
                    let nn_row = (row + down) % self.height;
                    let nn_col = (col + right) % self.width;
                    let idx = self.get_index(nn_row, nn_col);
                    alive += self.cells[idx].value();
                }
            }
        }
        alive
    }

    /// Advances the universe by one generation.
    ///
    /// Every cell of the new generation is computed from the cells of the
    /// old one; the buffer is replaced only when all of them are known.
    pub fn tick(&mut self)
        ensures
            final(self)@ == old(self)@.step(),
            final(self)@.wf(),
            forall|row: int, col: int|
                old(self)@.in_bounds(row, col) ==> #[trigger] final(self)@.cell(row, col) == old(
                    self,
                )@.cell(row, col).successor(old(self)@.live_neighbours(row, col)),
    {
        proof {
            use_type_invariant(&*self);
        }
        let ghost grid = self@;
        let mut next_cells = self.cells.clone();
        assert(0 * grid.width == 0) by (nonlinear_arith);
        for row in 0..self.height
            invariant
                grid == self@,
                grid.wf(),
                next_cells@.len() == grid.cells.len(),
                forall|k: int| 0 <= k < row * grid.width ==> next_cells@[k] == grid.next_at(k),
        {
            for col in 0..self.width
                invariant
                    grid == self@,
                    grid.wf(),
                    row < self.height,
                    next_cells@.len() == grid.cells.len(),
                    forall|k: int|
                        0 <= k < row * grid.width + col ==> next_cells@[k] == grid.next_at(k),
            {
                let idx = self.get_index(row, col);
                let cell = self.cells[idx];
                let live_count = self.live_nn_count(row, col);
                proof {
                    grid.lemma_coordinate_of_index(row as int, col as int);
                }
                next_cells[idx] = cell.next_state(live_count);
            }
            assert((row + 1) * grid.width == row * grid.width + grid.width) by (nonlinear_arith);
        }
        assert(next_cells@ =~= grid.step().cells);
        self.cells = next_cells;
        assert forall|row: int, col: int| grid.in_bounds(row, col) implies #[trigger] self@.cell(
            row,
            col,
        ) == grid.cell(row, col).successor(grid.live_neighbours(row, col)) by {
            lemma_step_at(grid, row, col);
        }
    }

    /// The universe as text: one line per row, one glyph per cell, a
    /// newline after every row.
    pub fn render(&self) -> (text: String)
        ensures
            text@ == self@.text(),
    {
        proof {
            use_type_invariant(self);
        }
        let ghost grid = self@;
        let mut text = String::new();
        for row in 0..self.height
            invariant
                grid == self@,
                grid.wf(),
                text@ == grid.rows_text(row as nat),
        {
            for col in 0..self.width
                invariant
                    grid == self@,
                    grid.wf(),
                    row < self.height,
                    text@ == grid.rows_text(row as nat) + grid.row_glyphs(row as int, col as nat),
            {
                let idx = self.get_index(row, col);
                let symbol = match self.cells[idx] {
                    Cell::Alive => "\u{25FC}",
                    Cell::Dead => "\u{25FB}",
                };
                proof {
                    reveal_strlit("\u{25FC}");
                    reveal_strlit("\u{25FB}");
                }
                assert(symbol@ =~= seq![glyph(grid.cell(row as int, col as int))]);
                text.append(symbol);
                assert(grid.row_glyphs(row as int, (col + 1) as nat) =~= grid.row_glyphs(
                    row as int,
                    col as nat,
                ) + symbol@);
            }
            proof {
                reveal_strlit("\n");
            }
            assert("\n"@ =~= seq![ROW_END]);
            text.append("\n");
            assert(text@ =~= grid.rows_text(row as nat) + grid.row_text(row as int));
        }
        text
    }
}

/// The sum of `seen` over the first `b` of the column offsets
/// `width - 1`, `0`, `1`, at the row offset `down`.
spec fn seen_in_cols(grid: Grid, row: int, col: int, down: int, b: int) -> nat {
    (if b > 0 {
        grid.seen(row, col, down, grid.width - 1)
    } else {
        0
    }) + (if b > 1 {
        grid.seen(row, col, down, 0)
    } else {
        0
    }) + (if b > 2 {
        grid.seen(row, col, down, 1)
    } else {
        0
    })
}

/// The sum of `seen_in_row` over the first `a` of the row offsets
/// `height - 1`, `0`, `1`.
spec fn seen_in_rows(grid: Grid, row: int, col: int, a: int) -> nat {
    (if a > 0 {
        grid.seen_in_row(row, col, grid.height - 1)
    } else {
        0
    }) + (if a > 1 {
        grid.seen_in_row(row, col, 0)
    } else {
        0
    }) + (if a > 2 {
        grid.seen_in_row(row, col, 1)
    } else {
        0
    })
}

} // verus!
