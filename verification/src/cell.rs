use vstd::prelude::*;

verus! {

/// The state of one square of the grid.
#[derive(Clone, Copy, Debug, PartialEq, Eq, Structural)]
pub enum Cell {
    /// Revealed and free of mines; holds the number of mined neighbours.
    Open(usize),
    /// Marked by the player; holds whether a mine lies underneath.
    Flagged(bool),
    /// Untouched; holds whether a mine lies underneath.
    Closed(bool),
    /// A mine laid bare by a detonation.
    RevealedMine,
}

impl Cell {
    /// Whether a mine sits on this cell, whatever its tag.
    pub open spec fn hides_mine(self) -> bool {
        match self {
            Cell::Open(_) => false,
            Cell::RevealedMine => true,
            Cell::Flagged(mine) => mine,
            Cell::Closed(mine) => mine,
        }
    }

    /// The cell after the player toggles its flag.
    pub open spec fn toggled(self) -> Cell {
        match self {
            Cell::Closed(mine) => Cell::Flagged(mine),
            Cell::Flagged(mine) => Cell::Closed(mine),
            Cell::Open(count) => Cell::Open(count),
            Cell::RevealedMine => Cell::RevealedMine,
        }
    }

    /// The cell after a detonation somewhere on the board.
    pub open spec fn revealed(self) -> Cell {
        match self {
            Cell::Closed(true) => Cell::RevealedMine,
            Cell::Flagged(true) => Cell::RevealedMine,
            other => other,
        }
    }

    /// The number a presentation layer reads for this cell: 0 closed,
    /// 10 flagged, 20 plus the neighbour count when open, 30 revealed mine.
    pub open spec fn spec_code(self) -> int {
        match self {
            Cell::Closed(_) => 0,
            Cell::Flagged(_) => 10,
            Cell::Open(count) => 20 + count,
            Cell::RevealedMine => 30,
        }
    }

    /// An open cell never counts more than its eight neighbours.
    pub open spec fn wf(self) -> bool {
        self matches Cell::Open(count) ==> count <= 8
    }

    /// Whether a mine sits on this cell.
    pub fn has_mine(&self) -> (mine: bool)
        ensures
            mine == self.hides_mine(),
    {
        match *self {
            Cell::Open(_) => false,
            Cell::RevealedMine => true,
            Cell::Flagged(mine) => mine,
            Cell::Closed(mine) => mine,
        }
    }

    /// The numeric encoding of this cell.
    pub fn code(&self) -> (code: usize)
        requires
            self.spec_code() <= usize::MAX,
        ensures
            code == self.spec_code(),
    {
        match *self {
            Cell::Closed(_) => 0,
            Cell::Flagged(_) => 10,
            Cell::Open(count) => 20 + count,
            Cell::RevealedMine => 30,
        }
    }
}

} // verus!
