//! The state of a single cell and the rule that rewrites it.

use vstd::prelude::*;

verus! {

/// One cell of the automaton.
#[derive(Clone, Copy, Debug, PartialEq, Eq, Structural)]
pub enum Cell {
    Dead,
    Alive,
}

impl Cell {
    /// What a cell adds to the live-neighbour count of the cells around it:
    /// one when alive, nothing when dead.
    pub open spec fn spec_value(self) -> u8 {
        match self {
            Cell::Dead => 0,
            Cell::Alive => 1,
        }
    }

    /// The cell as a number, `0` for dead and `1` for alive.
    #[verifier::when_used_as_spec(spec_value)]
    pub fn value(self) -> (n: u8)
        ensures
            n == self.spec_value(),
    {
        match self {
            Cell::Dead => 0,
            Cell::Alive => 1,
        }
    }

    /// The state that a cell takes in the next generation when `live` of
    /// its neighbours are alive: a live cell survives with two or three live
    /// neighbours, a dead cell comes alive with exactly three.
    pub open spec fn successor(self, live: nat) -> Cell {
        match self {
            Cell::Alive => if live == 2 || live == 3 {
                Cell::Alive
            } else {
                Cell::Dead
            },
            Cell::Dead => if live == 3 {
                Cell::Alive
            } else {
                Cell::Dead
            },
        }
    }

    /// Applies the transition rule to one cell with `live` live neighbours.
    pub fn next_state(self, live: u8) -> (next: Cell)
        ensures
            next == self.successor(live as nat),
    {
        match (self, live) {
            (Cell::Alive, x) if x < 2 => Cell::Dead,
            (Cell::Alive, 2) | (Cell::Alive, 3) => Cell::Alive,
            (Cell::Alive, x) if x > 3 => Cell::Dead,
            (Cell::Dead, 3) => Cell::Alive,
            (current, _) => current,
        }
    }
}

} // verus!
