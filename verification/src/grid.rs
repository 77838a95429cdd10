//! The mathematical model of a universe.
//!
//! A [`Grid`] is what a universe is once machine integers and buffers are
//! forgotten: two dimensions and a sequence of cells in row-major order.
//! The contracts of the executable code are written over it.

use vstd::prelude::*;
use crate::cell::Cell;

verus! {

/// The glyph that stands for a live cell in a rendering.
pub const ALIVE_GLYPH: char = '\u{25FC}';

/// The glyph that stands for a dead cell in a rendering.
pub const DEAD_GLYPH: char = '\u{25FB}';

/// The character that ends every rendered row.
pub const ROW_END: char = '\n';

/// The glyph that stands for `cell` in a rendering.
pub open spec fn glyph(cell: Cell) -> char {
    match cell {
        Cell::Alive => ALIVE_GLYPH,
        Cell::Dead => DEAD_GLYPH,
    }
}

/// The cells that a text stands for: every live glyph is a live cell, every
/// dead glyph a dead cell, in the order in which they occur. All other
/// characters, row ends among them, stand for nothing.
pub open spec fn cells_of_text(text: Seq<char>) -> Seq<Cell>
    decreases text.len(),
{
    if text.len() == 0 {
        Seq::empty()
    } else {
        let before = cells_of_text(text.drop_last());
        if text.last() == ALIVE_GLYPH {
            before.push(Cell::Alive)
        } else if text.last() == DEAD_GLYPH {
            before.push(Cell::Dead)
        } else {
            before
        }
    }
}

/// The place before `x` on a ring of `n` places: the last place comes
/// before the first.
pub open spec fn before(x: int, n: int) -> int {
    if x == 0 {
        n - 1
    } else {
        x - 1
    }
}

/// The place after `x` on a ring of `n` places: the first place comes after
/// the last.
pub open spec fn after(x: int, n: int) -> int {
    if x == n - 1 {
        0
    } else {
        x + 1
    }
}

/// Adding `n - 1`, `0` or `1` to a place on a ring of `n` places and reducing
/// modulo `n` gives the place before it, the place itself, or the place
/// after it.
pub proof fn lemma_ring_moves(x: int, n: int)
    requires
        0 <= x < n,
    ensures
        (x + (n - 1)) % n == before(x, n),
        (x + 0) % n == x,
        (x + 1) % n == after(x, n),
{
    vstd::arithmetic::div_mod::lemma_small_mod(x as nat, n as nat);
    if x == 0 {
        vstd::arithmetic::div_mod::lemma_small_mod((n - 1) as nat, n as nat);
    } else {
        vstd::arithmetic::div_mod::lemma_fundamental_div_mod_converse(x + (n - 1), n, 1, x - 1);
    }
    if x == n - 1 {
        vstd::arithmetic::div_mod::lemma_mod_self_0(n);
    } else {
        vstd::arithmetic::div_mod::lemma_small_mod((x + 1) as nat, n as nat);
    }
}

/// A universe as a mathematical value.
pub struct Grid {
    /// The number of columns.
    pub width: nat,
    /// The number of rows.
    pub height: nat,
    /// The cells, row after row.
    pub cells: Seq<Cell>,
}

impl Grid {
    /// A grid is well formed when it is square, has at least one cell, and
    /// holds exactly one cell per coordinate.
    ///
    /// Rectangular grids are left out on purpose: stepping addresses cells by
    /// row and column, and only on a square can the two axes never be confused.
    pub open spec fn wf(self) -> bool {
        &&& 0 < self.width
        &&& self.width == self.height
        &&& self.cells.len() == self.width * self.height
    }

    /// Whether `(row, col)` names a cell of the grid.
    pub open spec fn in_bounds(self, row: int, col: int) -> bool {
        0 <= row < self.height && 0 <= col < self.width
    }

    /// The position of `(row, col)` in the flat buffer.
    pub open spec fn index(self, row: int, col: int) -> int {
        row * self.width + col
    }

    /// The cell at `(row, col)`.
    pub open spec fn cell(self, row: int, col: int) -> Cell {
        self.cells[self.index(row, col)]
    }

    /// The cell that lies `down` rows below and `right` columns to the right
    /// of `(row, col)`, where the last row is followed by the first and the
    /// last column by the first.
    pub open spec fn wrapped(self, row: int, col: int, down: int, right: int) -> Cell {
        self.cell((row + down) % (self.height as int), (col + right) % (self.width as int))
    }

    /// What the offset `(down, right)` adds to the live-neighbour count of
    /// `(row, col)`: the value of the cell found there, and nothing for the
    /// offset `(0, 0)`, which is the cell itself.
    pub open spec fn seen(self, row: int, col: int, down: int, right: int) -> nat {
        if down == 0 && right == 0 {
            0
        } else {
            self.wrapped(row, col, down, right).value() as nat
        }
    }

    /// What the three offsets `(down, width - 1)`, `(down, 0)` and `(down, 1)`
    /// add to the live-neighbour count of `(row, col)`.
    pub open spec fn seen_in_row(self, row: int, col: int, down: int) -> nat {
        self.seen(row, col, down, self.width - 1) + self.seen(row, col, down, 0) + self.seen(
            row,
            col,
            down,
            1,
        )
    }

    /// The number of live neighbours of `(row, col)`: the sum of `seen` over
    /// the nine offsets drawn from `{height - 1, 0, 1}` and `{width - 1, 0, 1}`.
    /// Moving by `height - 1` rows on the torus is moving one row up.
    pub open spec fn live_neighbours(self, row: int, col: int) -> nat {
        self.seen_in_row(row, col, self.height - 1) + self.seen_in_row(row, col, 0)
            + self.seen_in_row(row, col, 1)
    }

    /// The cell that the next generation holds at buffer position `k`.
    pub open spec fn next_at(self, k: int) -> Cell {
        self.cells[k].successor(
            self.live_neighbours(k / (self.width as int), k % (self.width as int)),
        )
    }

    /// The next generation: every cell rewritten at once from the cells of
    /// this one.
    pub open spec fn step(self) -> Grid {
        Grid {
            width: self.width,
            height: self.height,
            cells: Seq::new(self.cells.len(), |k: int| self.next_at(k)),
        }
    }

    /// The grid after `n` generations.
    pub open spec fn steps(self, n: nat) -> Grid
        decreases n,
    {
        if n == 0 {
            self
        } else {
            self.steps((n - 1) as nat).step()
        }
    }

    /// The value of the cell at `(row, col)`: one when alive, nothing when
    /// dead.
    pub open spec fn value_at(self, row: int, col: int) -> nat {
        self.cell(row, col).value() as nat
    }

    /// The sum of the values of the eight cells around `(row, col)`, where
    /// the last row lies above the first and the last column to the left of
    /// the first.
    pub open spec fn ring_sum(self, row: int, col: int) -> nat {
        let up = before(row, self.height as int);
        let down = after(row, self.height as int);
        let left = before(col, self.width as int);
        let right = after(col, self.width as int);
        self.value_at(up, left) + self.value_at(up, col) + self.value_at(up, right)
            + self.value_at(row, left) + self.value_at(row, right) + self.value_at(down, left)
            + self.value_at(down, col) + self.value_at(down, right)
    }

    /// Whether no cell of the grid is alive.
    pub open spec fn all_dead(self) -> bool {
        forall|k: int| 0 <= k < self.cells.len() ==> self.cells[k] == Cell::Dead
    }

    /// The first `n` glyphs of row `row`.
    pub open spec fn row_glyphs(self, row: int, n: nat) -> Seq<char> {
        Seq::new(n, |col: int| glyph(self.cell(row, col)))
    }

    /// The text of row `row`: one glyph per column, then a row end.
    pub open spec fn row_text(self, row: int) -> Seq<char> {
        self.row_glyphs(row, self.width).push(ROW_END)
    }

    /// The text of the first `n` rows.
    pub open spec fn rows_text(self, n: nat) -> Seq<char>
        decreases n,
    {
        if n == 0 {
            Seq::empty()
        } else {
            self.rows_text((n - 1) as nat) + self.row_text(n - 1)
        }
    }

    /// The text of the whole grid: its rows from first to last.
    pub open spec fn text(self) -> Seq<char> {
        self.rows_text(self.height)
    }

    /// Where the text holds the glyph of `(row, col)`; with the width for
    /// `col`, where it holds the end of row `row`.
    pub open spec fn text_index(self, row: int, col: int) -> int {
        row * (self.width + 1) + col
    }

    /// Every coordinate of a well-formed grid has a place in the buffer.
    pub proof fn lemma_index_in_buffer(self, row: int, col: int)
        requires
            self.wf(),
            self.in_bounds(row, col),
        ensures
            0 <= self.index(row, col) < self.cells.len(),
    {
        let w = self.width as int;
        let h = self.height as int;
        assert(row * w >= 0) by (nonlinear_arith)
            requires
                row >= 0,
                w > 0,
        ;
        assert((row + 1) * w <= h * w) by (nonlinear_arith)
            requires
                row + 1 <= h,
                w > 0,
        ;
        assert((row + 1) * w == row * w + w) by (nonlinear_arith);
        assert(h * w == w * h) by (nonlinear_arith);
    }

    /// A coordinate is found again from its place in the buffer: the row is
    /// the quotient by the width, the column the remainder.
    pub proof fn lemma_coordinate_of_index(self, row: int, col: int)
        requires
            self.wf(),
            self.in_bounds(row, col),
        ensures
            self.index(row, col) / (self.width as int) == row,
            self.index(row, col) % (self.width as int) == col,
    {
        vstd::arithmetic::div_mod::lemma_fundamental_div_mod_converse(
            self.index(row, col),
            self.width as int,
            row,
            col,
        );
    }

    /// Every place in the buffer of a well-formed grid belongs to a
    /// coordinate of the grid.
    pub proof fn lemma_index_has_coordinate(self, k: int)
        requires
            self.wf(),
            0 <= k < self.cells.len(),
        ensures
            self.in_bounds(k / (self.width as int), k % (self.width as int)),
            self.index(k / (self.width as int), k % (self.width as int)) == k,
    {
        let w = self.width as int;
        let h = self.height as int;
        vstd::arithmetic::div_mod::lemma_fundamental_div_mod(k, w);
        vstd::arithmetic::div_mod::lemma_mod_pos_bound(k, w);
        vstd::arithmetic::div_mod::lemma_div_pos_is_pos(k, w);
        vstd::arithmetic::div_mod::lemma_multiply_divide_lt(k, w, h);
        assert(w * (k / w) == (k / w) * w) by (nonlinear_arith);
    }

    /// On a grid of two rows or more, the live neighbours of a cell are the
    /// eight cells around it on the torus.
    pub proof fn lemma_live_neighbours_are_ring_sum(self, row: int, col: int)
        requires
            self.wf(),
            self.height >= 2,
            self.in_bounds(row, col),
        ensures
            self.live_neighbours(row, col) == self.ring_sum(row, col),
    {
        lemma_ring_moves(row, self.height as int);
        lemma_ring_moves(col, self.width as int);
    }

    /// Two well-formed grids of the same size that hold the same cell at
    /// every coordinate are the same grid.
    pub proof fn lemma_equal_by_coordinates(self, other: Grid)
        requires
            self.wf(),
            other.wf(),
            self.width == other.width,
            forall|row: int, col: int|
                self.in_bounds(row, col) ==> #[trigger] self.cell(row, col) == other.cell(
                    row,
                    col,
                ),
        ensures
            self == other,
    {
        assert forall|k: int| 0 <= k < self.cells.len() implies self.cells[k]
            == other.cells[k] by {
            self.lemma_index_has_coordinate(k);
            let w = self.width as int;
            assert(self.cell(k / w, k % w) == other.cell(k / w, k % w));
        }
        assert(self.cells =~= other.cells);
    }

    /// Moving from a cell of the grid by offsets that are not negative ends
    /// on a cell of the grid.
    pub proof fn lemma_wrapped_in_bounds(self, row: int, col: int, down: int, right: int)
        requires
            self.wf(),
            self.in_bounds(row, col),
            0 <= down,
            0 <= right,
        ensures
            self.in_bounds(
                (row + down) % (self.height as int),
                (col + right) % (self.width as int),
            ),
    {
        vstd::arithmetic::div_mod::lemma_mod_pos_bound(row + down, self.height as int);
        vstd::arithmetic::div_mod::lemma_mod_pos_bound(col + right, self.width as int);
    }
}

} // verus!
