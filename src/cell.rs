use vstd::prelude::*;

verus! {

/// One cell of the automaton: alive or dead.
#[derive(Copy, Clone, PartialEq, Eq, Debug, Structural)]
pub enum Cell {
    Live,
    Dead,
}

/// The other state: dead for a live cell, alive for a dead one.
pub open spec fn flipped(c: Cell) -> Cell {
    match c {
        Cell::Live => Cell::Dead,
        Cell::Dead => Cell::Live,
    }
}

impl Cell {
    /// Flips the cell between alive and dead.
    pub fn toggle(&mut self)
        ensures
            *final(self) == flipped(*old(self)),
    {
        if *self == Cell::Live {
            *self = Cell::Dead;
        } else {
            *self = Cell::Live;
        }
    }

    /// Whether the cell is alive.
    pub fn is_live(&self) -> (r: bool)
        ensures
            r == (*self == Cell::Live),
    {
        *self == Cell::Live
    }
}

} // verus!
