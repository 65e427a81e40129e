//! The grid that the cursor walks: a rectangle of cells that wraps around
//! at its edges.

use vstd::prelude::*;
use crate::cell::Cell;
use crate::error::Error;

verus! {

/// Whether `rows` form a grid: at least one row, at least one column, and
/// all rows of one length.
pub open spec fn is_grid(rows: Seq<Seq<Cell>>) -> bool {
    &&& rows.len() > 0
    &&& rows[0].len() > 0
    &&& forall|y: int| 0 <= y < rows.len() ==> (#[trigger] rows[y]).len() == rows[0].len()
}

/// The number of columns.
pub open spec fn width_of(rows: Seq<Seq<Cell>>) -> nat {
    rows[0].len()
}

/// The number of rows.
pub open spec fn height_of(rows: Seq<Seq<Cell>>) -> nat {
    rows.len()
}

/// The cell in column `x` of row `y`.
pub open spec fn cell_at(rows: Seq<Seq<Cell>>, x: int, y: int) -> Cell {
    rows[y][x]
}

/// The grid after a visit to column `x` of row `y`: trash there is gone,
/// and nothing else has changed.
pub open spec fn cleaned(rows: Seq<Seq<Cell>>, x: int, y: int) -> Seq<Seq<Cell>> {
    if cell_at(rows, x, y) == Cell::Trash {
        rows.update(y, rows[y].update(x, Cell::Free))
    } else {
        rows
    }
}

/// The rows of cells that vectors hold.
pub open spec fn rows_of(rows: Seq<Vec<Cell>>) -> Seq<Seq<Cell>> {
    Seq::new(rows.len(), |y: int| rows[y]@)
}

/// Cleaning keeps a grid a grid of the same size; the cell visited is no
/// trash afterwards, and every other cell is as it was.
pub proof fn lemma_cleaned(rows: Seq<Seq<Cell>>, x: int, y: int)
    requires
        is_grid(rows),
        0 <= x < width_of(rows),
        0 <= y < height_of(rows),
    ensures
        is_grid(cleaned(rows, x, y)),
        width_of(cleaned(rows, x, y)) == width_of(rows),
        height_of(cleaned(rows, x, y)) == height_of(rows),
        cell_at(cleaned(rows, x, y), x, y) == (if cell_at(rows, x, y) == Cell::Trash {
            Cell::Free
        } else {
            cell_at(rows, x, y)
        }),
        forall|i: int, j: int|
            0 <= i < width_of(rows) && 0 <= j < height_of(rows) && (i != x || j != y)
                ==> cell_at(cleaned(rows, x, y), i, j) == cell_at(rows, i, j),
{
    let after = cleaned(rows, x, y);
    assert forall|j: int| 0 <= j < after.len() implies (#[trigger] after[j]).len()
        == after[0].len() by {
        assert(rows[j].len() == rows[0].len());
        assert(rows[y].len() == rows[0].len());
    }
    assert(rows[y].len() == rows[0].len());
}

/// Cleaning a cell a second time changes nothing.
pub proof fn lemma_cleaned_twice(rows: Seq<Seq<Cell>>, x: int, y: int)
    requires
        is_grid(rows),
        0 <= x < width_of(rows),
        0 <= y < height_of(rows),
    ensures
        cleaned(cleaned(rows, x, y), x, y) == cleaned(rows, x, y),
{
    lemma_cleaned(rows, x, y);
}

proof fn lemma_slot(width: int, height: int, x: int, y: int)
    requires
        0 <= x < width,
        0 <= y < height,
    ensures
        0 <= y * width + x < height * width,
{
    assert(y * width + x < height * width) by (nonlinear_arith)
        requires
            0 <= x < width,
            0 <= y < height,
    ;
    assert(0 <= y * width) by (nonlinear_arith)
        requires
            0 <= y,
            0 < width,
    ;
}

proof fn lemma_slots_differ(width: int, x: int, y: int, i: int, j: int)
    requires
        0 <= x < width,
        0 <= i < width,
        0 <= y,
        0 <= j,
        x != i || y != j,
    ensures
        y * width + x != j * width + i,
{
    if y < j {
        assert(y * width + x < j * width + i) by (nonlinear_arith)
            requires
                0 <= x < width,
                0 <= i,
                y < j,
        ;
    } else if j < y {
        assert(j * width + i < y * width + x) by (nonlinear_arith)
            requires
                0 <= i < width,
                0 <= x,
                j < y,
        ;
    }
}

/// A grid of cells, at least one cell wide and one cell high.
#[derive(Debug, PartialEq, Eq)]
pub struct Grid {
    width: usize,
    height: usize,
    cells: Vec<Cell>,
}

impl View for Grid {
    type V = Seq<Seq<Cell>>;

    /// The rows from top to bottom, each from left to right.
    closed spec fn view(&self) -> Seq<Seq<Cell>> {
        Seq::new(
            self.height as nat,
            |y: int| Seq::new(self.width as nat, |x: int| self.cells@[y * self.width + x]),
        )
    }
}

impl Clone for Grid {
    /// A grid with the same cells.
    fn clone(&self) -> (copy: Grid)
        ensures
            copy@ == self@,
    {
        proof {
            use_type_invariant(self);
        }
        let cells = self.cells.clone();
        assert(cells@ =~= self.cells@);
        Grid { width: self.width, height: self.height, cells }
    }
}

impl Grid {
    #[verifier::type_invariant]
    spec fn well_formed(self) -> bool {
        &&& self.width > 0
        &&& self.height > 0
        &&& self.cells@.len() == self.height * self.width
    }

    /// Builds the grid whose rows are `rows`, or fails with
    /// [`Error::InvalidGrid`] if they form none.
    pub fn from_rows(rows: &Vec<Vec<Cell>>) -> (r: Result<Grid, Error>)
        ensures
            r is Ok <==> is_grid(rows_of(rows@)),
            r matches Ok(grid) ==> grid@ == rows_of(rows@),
            r matches Err(e) ==> e == Error::InvalidGrid,
    {
        let height: usize = rows.len();
        if height == 0 {
            return Err(Error::InvalidGrid);
        }
        let width: usize = rows[0].len();
        if width == 0 {
            return Err(Error::InvalidGrid);
        }
        let mut cells: Vec<Cell> = Vec::new();
        let mut y: usize = 0;
        while y < height
            invariant
                y <= height,
                height == rows@.len(),
                width == rows@[0]@.len(),
                cells@.len() == y * width,
                forall|j: int| 0 <= j < y ==> (#[trigger] rows@[j])@.len() == width,
                forall|j: int, i: int|
                    0 <= j < y && 0 <= i < width ==> cells@[j * width + i] == (
                    #[trigger] rows@[j]@[i]),
            decreases height - y,
        {
            let row = &rows[y];
            if row.len() != width {
                assert(rows_of(rows@)[y as int].len() != rows_of(rows@)[0].len());
                return Err(Error::InvalidGrid);
            }
            let mut x: usize = 0;
            while x < width
                invariant
                    x <= width,
                    y < height,
                    height == rows@.len(),
                    row@ == rows@[y as int]@,
                    row@.len() == width,
                    cells@.len() == y * width + x,
                    forall|j: int, i: int|
                        0 <= j < y && 0 <= i < width ==> cells@[j * width + i] == (
                        #[trigger] rows@[j]@[i]),
                    forall|i: int| 0 <= i < x ==> cells@[y * width + i] == #[trigger] row@[i],
                decreases width - x,
            {
                let ghost before = cells@;
                cells.push(row[x]);
                proof {
                    assert forall|j: int, i: int| 0 <= j < y && 0 <= i < width implies cells@[j
                        * width + i] == (#[trigger] rows@[j]@[i]) by {
                        lemma_slot(width as int, y as int, i, j);
                        assert(before[j * width + i] == rows@[j]@[i]);
                    }
                }
                x += 1;
            }
            proof {
                assert((y + 1) * width == y * width + width) by (nonlinear_arith);
                assert forall|j: int, i: int| 0 <= j < y + 1 && 0 <= i < width implies cells@[j
                    * width + i] == (#[trigger] rows@[j]@[i]) by {
                    if j == y {
                        assert(cells@[y * width + i] == row@[i]);
                    }
                }
            }
            y += 1;
        }
        let grid = Grid { width, height, cells };
        proof {
            assert(is_grid(rows_of(rows@)));
            assert forall|j: int| 0 <= j < height implies #[trigger] grid@[j] == rows_of(
                rows@,
            )[j] by {
                assert forall|i: int| 0 <= i < width implies grid@[j][i] == rows@[j]@[i] by {}
                assert(grid@[j] =~= rows@[j]@);
            }
            assert(grid@ =~= rows_of(rows@));
        }
        Ok(grid)
    }

    /// The number of columns.
    pub fn width(&self) -> (w: usize)
        ensures
            w == width_of(self@),
            w > 0,
            is_grid(self@),
    {
        proof {
            use_type_invariant(self);
        }
        self.width
    }

    /// The number of rows.
    pub fn height(&self) -> (h: usize)
        ensures
            h == height_of(self@),
            h > 0,
            is_grid(self@),
    {
        proof {
            use_type_invariant(self);
        }
        self.height
    }

    /// The cell in column `pos.0` of row `pos.1`.
    pub fn get(&self, pos: (usize, usize)) -> (cell: Cell)
        requires
            pos.0 < width_of(self@),
            pos.1 < height_of(self@),
        ensures
            cell == cell_at(self@, pos.0 as int, pos.1 as int),
    {
        proof {
            use_type_invariant(self);
            lemma_slot(self.width as int, self.height as int, pos.0 as int, pos.1 as int);
            assert(self.cells.len() == self.cells@.len());
        }
        self.cells[pos.1 * self.width + pos.0]
    }

    /// Takes away trash in column `pos.0` of row `pos.1`; a cell that holds
    /// none stays as it is.
    pub fn clean(&mut self, pos: (usize, usize))
        requires
            pos.0 < width_of(old(self)@),
            pos.1 < height_of(old(self)@),
        ensures
            final(self)@ == cleaned(old(self)@, pos.0 as int, pos.1 as int),
            is_grid(final(self)@),
    {
        proof {
            use_type_invariant(&*self);
            lemma_slot(self.width as int, self.height as int, pos.0 as int, pos.1 as int);
            assert(self.cells.len() == self.cells@.len());
        }
        let slot: usize = pos.1 * self.width + pos.0;
        if self.cells[slot] == Cell::Trash {
            self.cells[slot] = Cell::Free;
            proof {
                let after = cleaned(old(self)@, pos.0 as int, pos.1 as int);
                assert forall|j: int| 0 <= j < self.height implies #[trigger] self@[j]
                    == after[j] by {
                    assert forall|i: int| 0 <= i < self.width implies self@[j][i]
                        == after[j][i] by {
                        lemma_slot(self.width as int, self.height as int, i, j);
                        if i != pos.0 || j != pos.1 {
                            lemma_slots_differ(
                                self.width as int,
                                pos.0 as int,
                                pos.1 as int,
                                i,
                                j,
                            );
                        }
                    }
                    assert(self@[j] =~= after[j]);
                }
                assert(self@ =~= after);
            }
        }
        proof {
            lemma_cleaned(old(self)@, pos.0 as int, pos.1 as int);
        }
    }
}

} // verus!
