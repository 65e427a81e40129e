//! The three kinds of cell, their characters, and small collections of them.

use vstd::prelude::*;
use vstd::std_specs::convert::FromSpecImpl;
use vstd::std_specs::convert::TryFromSpecImpl;
use crate::error::Error;

verus! {

/// What one position of the grid holds.
#[derive(Clone, Copy, Debug, PartialEq, Eq, Hash, Structural)]
pub enum Cell {
    Free,
    Trash,
    Buoy,
}

impl Cell {
    /// The character written for this cell.
    pub open spec fn symbol(self) -> char {
        match self {
            Cell::Free => '.',
            Cell::Trash => 'X',
            Cell::Buoy => 'O',
        }
    }

    /// The cell that `c` is read as, if any. Letters count in either case.
    pub open spec fn of_symbol(c: char) -> Option<Cell> {
        if c == '.' {
            Some(Cell::Free)
        } else if c == 'X' || c == 'x' {
            Some(Cell::Trash)
        } else if c == 'O' || c == 'o' {
            Some(Cell::Buoy)
        } else {
            None
        }
    }

    /// Reading the character written for a cell gives the cell back, and a
    /// character is read as at most the cell whose character it is, up to
    /// the case of the letter.
    pub proof fn lemma_symbol_round_trip(cell: Cell, c: char)
        ensures
            Cell::of_symbol(cell.symbol()) == Some(cell),
            Cell::of_symbol(c) == Some(cell) ==> c == cell.symbol() || (cell == Cell::Trash && c
                == 'x') || (cell == Cell::Buoy && c == 'o'),
    {
    }
}

impl TryFrom<char> for Cell {
    type Error = Error;

    /// Reads a character as a cell; a character that stands for none is
    /// handed back in the error.
    fn try_from(c: char) -> (r: Result<Cell, Error>) {
        if c == '.' {
            Ok(Cell::Free)
        } else if c == 'X' || c == 'x' {
            Ok(Cell::Trash)
        } else if c == 'O' || c == 'o' {
            Ok(Cell::Buoy)
        } else {
            Err(Error::InvalidCell(c))
        }
    }
}

impl TryFromSpecImpl<char> for Cell {
    open spec fn obeys_try_from_spec() -> bool {
        true
    }

    open spec fn try_from_spec(c: char) -> Result<Cell, Error> {
        match Cell::of_symbol(c) {
            Some(cell) => Ok(cell),
            None => Err(Error::InvalidCell(c)),
        }
    }
}

impl From<Cell> for char {
    /// The character written for `cell`.
    fn from(cell: Cell) -> (c: char) {
        match cell {
            Cell::Free => '.',
            Cell::Trash => 'X',
            Cell::Buoy => 'O',
        }
    }
}

impl FromSpecImpl<Cell> for char {
    open spec fn obeys_from_spec() -> bool {
        true
    }

    open spec fn from_spec(cell: Cell) -> char {
        cell.symbol()
    }
}

} // verus!
