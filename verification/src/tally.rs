//! The set of cell kinds seen and the number of visits to each kind.
//!
//! There are only three kinds, so both are kept in fixed slots, one per
//! kind.

use vstd::prelude::*;
use crate::cell::Cell;

verus! {

/// The number that `counts` holds for `cell`; a kind without an entry
/// counts as zero.
pub open spec fn count_of(counts: Map<Cell, nat>, cell: Cell) -> nat {
    if counts.dom().contains(cell) {
        counts[cell]
    } else {
        0
    }
}

/// The sum of all the numbers in `counts`.
pub open spec fn total_of(counts: Map<Cell, nat>) -> nat {
    count_of(counts, Cell::Free) + count_of(counts, Cell::Trash) + count_of(counts, Cell::Buoy)
}

/// Every set of cell kinds is finite and has at most three members.
pub proof fn lemma_at_most_three_kinds(kinds: Set<Cell>)
    ensures
        kinds.finite(),
        kinds.len() <= 3,
{
    let all = Set::<Cell>::empty().insert(Cell::Free).insert(Cell::Trash).insert(Cell::Buoy);
    assert forall|c: Cell| kinds.contains(c) implies all.contains(c) by {
        match c {
            Cell::Free => {},
            Cell::Trash => {},
            Cell::Buoy => {},
        }
    }
    assert(kinds.subset_of(all));
    vstd::set_lib::lemma_len_subset(kinds, all);
}

/// A set of cell kinds.
#[derive(Clone, Copy, Debug, PartialEq, Eq)]
pub struct CellSet {
    free: bool,
    trash: bool,
    buoy: bool,
}

impl View for CellSet {
    type V = Set<Cell>;

    closed spec fn view(&self) -> Set<Cell> {
        let none = Set::<Cell>::empty();
        let free = if self.free {
            none.insert(Cell::Free)
        } else {
            none
        };
        let trash = if self.trash {
            free.insert(Cell::Trash)
        } else {
            free
        };
        if self.buoy {
            trash.insert(Cell::Buoy)
        } else {
            trash
        }
    }
}

impl CellSet {
    /// The empty set.
    pub fn new() -> (s: CellSet)
        ensures
            s@ == Set::<Cell>::empty(),
    {
        CellSet { free: false, trash: false, buoy: false }
    }

    /// Whether `cell` is a member.
    pub fn contains(&self, cell: &Cell) -> (found: bool)
        ensures
            found == self@.contains(*cell),
    {
        match *cell {
            Cell::Free => self.free,
            Cell::Trash => self.trash,
            Cell::Buoy => self.buoy,
        }
    }

    /// Adds `cell`, and tells whether it was new to the set.
    pub fn insert(&mut self, cell: Cell) -> (added: bool)
        ensures
            final(self)@ == old(self)@.insert(cell),
            added == !old(self)@.contains(cell),
    {
        let added = !self.contains(&cell);
        match cell {
            Cell::Free => {
                self.free = true;
            },
            Cell::Trash => {
                self.trash = true;
            },
            Cell::Buoy => {
                self.buoy = true;
            },
        }
        assert(self@ =~= old(self)@.insert(cell));
        added
    }

    /// The number of members, which is three at most.
    pub fn len(&self) -> (n: usize)
        ensures
            n == self@.len(),
            n <= 3,
    {
        let mut n: usize = 0;
        if self.free {
            n += 1;
        }
        if self.trash {
            n += 1;
        }
        if self.buoy {
            n += 1;
        }
        n
    }

    /// Whether the set has no member.
    pub fn is_empty(&self) -> (empty: bool)
        ensures
            empty == (self@ == Set::<Cell>::empty()),
    {
        let empty = !self.free && !self.trash && !self.buoy;
        proof {
            if !empty {
                let witness = if self.free {
                    Cell::Free
                } else if self.trash {
                    Cell::Trash
                } else {
                    Cell::Buoy
                };
                assert(self@.contains(witness));
            } else {
                assert(self@ =~= Set::<Cell>::empty());
            }
        }
        empty
    }
}

/// For each cell kind that was counted at least once, how often.
#[derive(Clone, Copy, Debug, PartialEq, Eq)]
pub struct CellCounts {
    free: usize,
    trash: usize,
    buoy: usize,
}

impl View for CellCounts {
    type V = Map<Cell, nat>;

    closed spec fn view(&self) -> Map<Cell, nat> {
        let none = Map::<Cell, nat>::empty();
        let free = if self.free > 0 {
            none.insert(Cell::Free, self.free as nat)
        } else {
            none
        };
        let trash = if self.trash > 0 {
            free.insert(Cell::Trash, self.trash as nat)
        } else {
            free
        };
        if self.buoy > 0 {
            trash.insert(Cell::Buoy, self.buoy as nat)
        } else {
            trash
        }
    }
}

impl CellCounts {
    /// Nothing counted yet.
    pub fn new() -> (c: CellCounts)
        ensures
            c@ == Map::<Cell, nat>::empty(),
    {
        CellCounts { free: 0, trash: 0, buoy: 0 }
    }

    /// Every kind with an entry was counted at least once, and no count
    /// is beyond what a `usize` holds.
    pub proof fn lemma_entries(&self, cell: Cell)
        ensures
            count_of(self@, cell) <= usize::MAX,
            self@.dom().contains(cell) ==> self@[cell] > 0,
            self@.dom().finite(),
    {
        match cell {
            Cell::Free => {},
            Cell::Trash => {},
            Cell::Buoy => {},
        }
    }

    /// The count of `cell`, or `None` if it was never counted.
    pub fn get(&self, cell: &Cell) -> (n: Option<usize>)
        ensures
            n is Some <==> self@.dom().contains(*cell),
            n matches Some(k) ==> k == self@[*cell] && k > 0,
    {
        let k = match *cell {
            Cell::Free => self.free,
            Cell::Trash => self.trash,
            Cell::Buoy => self.buoy,
        };
        if k > 0 {
            Some(k)
        } else {
            None
        }
    }

    /// Counts `cell` once more.
    pub fn increment(&mut self, cell: Cell)
        requires
            count_of(old(self)@, cell) < usize::MAX,
        ensures
            final(self)@ == old(self)@.insert(cell, count_of(old(self)@, cell) + 1),
    {
        match cell {
            Cell::Free => {
                self.free = self.free + 1;
            },
            Cell::Trash => {
                self.trash = self.trash + 1;
            },
            Cell::Buoy => {
                self.buoy = self.buoy + 1;
            },
        }
        assert(self@ =~= old(self)@.insert(cell, count_of(old(self)@, cell) + 1));
    }
}

} // verus!
