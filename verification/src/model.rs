//! The walk as mathematics: what a traversal state is, what one step does
//! to it and to the grid, and what holds of every walk.

use vstd::prelude::*;
use crate::cell::Cell;
use crate::grid::{cell_at, cleaned, height_of, is_grid, lemma_cleaned, width_of};
use crate::tally::{count_of, lemma_at_most_three_kinds, total_of};

verus! {

/// A traversal state: where the cursor is and what it has visited so far.
#[verifier::ext_equal]
pub struct StateView {
    /// The cursor's column.
    pub x: nat,
    /// The cursor's row.
    pub y: nat,
    /// The number of visits counted.
    pub steps: nat,
    /// The kinds of cell visited.
    pub found: Set<Cell>,
    /// For each kind visited, the number of visits to it.
    pub counts: Map<Cell, nat>,
    /// The kind visited last, if there was a visit.
    pub last_visited: Option<Cell>,
}

impl StateView {
    /// The state before the first step: at the origin, with nothing
    /// visited.
    pub open spec fn fresh() -> StateView {
        StateView {
            x: 0,
            y: 0,
            steps: 0,
            found: Set::empty(),
            counts: Map::empty(),
            last_visited: None,
        }
    }

    /// The number of visits to cells of kind `cell`.
    pub open spec fn count(self, cell: Cell) -> nat {
        count_of(self.counts, cell)
    }

    /// What holds of every state that a walk reaches: the visits per kind
    /// add up to the visits counted, the kinds found are the kinds counted,
    /// a kind is counted only if it was visited, the kind visited last is
    /// known exactly when something was visited, the count of visits is
    /// never one, and before the first visit the cursor is at the origin.
    pub open spec fn wf(self) -> bool {
        &&& total_of(self.counts) == self.steps
        &&& self.found =~= self.counts.dom()
        &&& forall|cell: Cell| self.counts.dom().contains(cell) ==> self.counts[cell] > 0
        &&& self.last_visited is None <==> self.steps == 0
        &&& self.last_visited matches Some(cell) ==> self.found.contains(cell)
        &&& self.steps != 1
        &&& self.steps == 0 ==> self.x == 0 && self.y == 0
    }

    /// Whether the cursor stands on a cell of `grid`.
    pub open spec fn within(self, grid: Seq<Seq<Cell>>) -> bool {
        self.x < width_of(grid) && self.y < height_of(grid)
    }

    /// The state after one more visit, to a cell of kind `cell`.
    pub open spec fn visit(self, cell: Cell) -> StateView {
        StateView {
            steps: self.steps + 1,
            found: self.found.insert(cell),
            counts: self.counts.insert(cell, self.count(cell) + 1),
            last_visited: Some(cell),
            ..self
        }
    }
}

/// The coordinate reached from `pos` by `delta` on an axis of `size`
/// cells that wraps around.
pub open spec fn wrap(pos: nat, delta: nat, size: nat) -> nat {
    (pos + delta) % size
}

/// One step of the walk. The first step of a walk visits the cell under
/// the cursor before it moves; every step then moves the cursor by
/// `(dx, dy)`, wrapping around on both axes, and visits the cell it
/// arrives at. A visit takes away trash from the cell visited.
pub open spec fn step(state: StateView, grid: Seq<Seq<Cell>>, dx: nat, dy: nat) -> (
    StateView,
    Seq<Seq<Cell>>,
) {
    let (start, ground) = if state.steps == 0 {
        (
            state.visit(cell_at(grid, state.x as int, state.y as int)),
            cleaned(grid, state.x as int, state.y as int),
        )
    } else {
        (state, grid)
    };
    let x = wrap(start.x, dx, width_of(grid));
    let y = wrap(start.y, dy, height_of(grid));
    let arrived = start.visit(cell_at(ground, x as int, y as int));
    (StateView { x, y, ..arrived }, cleaned(ground, x as int, y as int))
}

/// A walk: from `state` on `grid`, one step for each slope in `slopes`,
/// in order.
pub open spec fn run(state: StateView, grid: Seq<Seq<Cell>>, slopes: Seq<(nat, nat)>) -> (
    StateView,
    Seq<Seq<Cell>>,
)
    decreases slopes.len(),
{
    if slopes.len() == 0 {
        (state, grid)
    } else {
        let before = run(state, grid, slopes.drop_last());
        step(before.0, before.1, slopes.last().0, slopes.last().1)
    }
}

/// A visit adds one to the visits counted and one to the count of the
/// kind visited, leaves the other counts alone, and keeps the sum of the
/// counts equal to the visits counted.
pub proof fn lemma_visit(state: StateView, cell: Cell)
    requires
        total_of(state.counts) == state.steps,
        state.found =~= state.counts.dom(),
        forall|c: Cell| state.counts.dom().contains(c) ==> state.counts[c] > 0,
    ensures
        state.visit(cell).steps == state.steps + 1,
        state.visit(cell).count(cell) == state.count(cell) + 1,
        forall|other: Cell| other != cell ==> state.visit(cell).count(other) == state.count(other),
        total_of(state.visit(cell).counts) == state.visit(cell).steps,
        state.visit(cell).found =~= state.visit(cell).counts.dom(),
        forall|c: Cell|
            state.visit(cell).counts.dom().contains(c) ==> state.visit(cell).counts[c] > 0,
        state.found.subset_of(state.visit(cell).found),
{
    let after = state.visit(cell);
    assert forall|other: Cell| other != cell implies after.count(other) == state.count(
        other,
    ) by {}
    match cell {
        Cell::Free => {
            assert(after.count(Cell::Trash) == state.count(Cell::Trash));
            assert(after.count(Cell::Buoy) == state.count(Cell::Buoy));
        },
        Cell::Trash => {
            assert(after.count(Cell::Free) == state.count(Cell::Free));
            assert(after.count(Cell::Buoy) == state.count(Cell::Buoy));
        },
        Cell::Buoy => {
            assert(after.count(Cell::Free) == state.count(Cell::Free));
            assert(after.count(Cell::Trash) == state.count(Cell::Trash));
        },
    }
}

/// The first step of a walk counts two visits, every later step one.
pub proof fn lemma_step_counts_visits(state: StateView, grid: Seq<Seq<Cell>>, dx: nat, dy: nat)
    ensures
        step(state, grid, dx, dy).0.steps == state.steps + (if state.steps == 0 {
            2nat
        } else {
            1nat
        }),
{
}

/// A step takes a state of a walk to a state of a walk, and a grid to a
/// grid of the same size, with the cursor on it.
pub proof fn lemma_step_keeps_invariant(state: StateView, grid: Seq<Seq<Cell>>, dx: nat, dy: nat)
    requires
        state.wf(),
        is_grid(grid),
    ensures
        step(state, grid, dx, dy).0.wf(),
        step(state, grid, dx, dy).0.within(step(state, grid, dx, dy).1),
        is_grid(step(state, grid, dx, dy).1),
        width_of(step(state, grid, dx, dy).1) == width_of(grid),
        height_of(step(state, grid, dx, dy).1) == height_of(grid),
{
    let x = wrap(state.x, dx, width_of(grid));
    let y = wrap(state.y, dy, height_of(grid));
    if state.steps == 0 {
        let origin = cell_at(grid, 0, 0);
        let ground = cleaned(grid, 0, 0);
        lemma_cleaned(grid, 0, 0);
        lemma_visit(state, origin);
        let start = state.visit(origin);
        lemma_visit(start, cell_at(ground, x as int, y as int));
        lemma_cleaned(ground, x as int, y as int);
    } else {
        lemma_visit(state, cell_at(grid, x as int, y as int));
        lemma_cleaned(grid, x as int, y as int);
    }
}

/// The state before the first step is a state of a walk.
pub proof fn lemma_fresh_is_wf()
    ensures
        StateView::fresh().wf(),
        total_of(StateView::fresh().counts) == 0,
        StateView::fresh().found.len() == 0,
{
}

/// The sum of the counts equals the visits counted, and the kinds found
/// are the kinds counted, after any sequence of steps from a state of
/// which this holds; the grid keeps its size.
pub proof fn lemma_run_keeps_invariant(
    state: StateView,
    grid: Seq<Seq<Cell>>,
    slopes: Seq<(nat, nat)>,
)
    requires
        state.wf(),
        is_grid(grid),
    ensures
        run(state, grid, slopes).0.wf(),
        total_of(run(state, grid, slopes).0.counts) == run(state, grid, slopes).0.steps,
        run(state, grid, slopes).0.found == run(state, grid, slopes).0.counts.dom(),
        is_grid(run(state, grid, slopes).1),
        width_of(run(state, grid, slopes).1) == width_of(grid),
        height_of(run(state, grid, slopes).1) == height_of(grid),
    decreases slopes.len(),
{
    if slopes.len() > 0 {
        lemma_run_keeps_invariant(state, grid, slopes.drop_last());
        let before = run(state, grid, slopes.drop_last());
        lemma_step_keeps_invariant(before.0, before.1, slopes.last().0, slopes.last().1);
    }
}

/// A walk of at least one step from the start has counted one visit more
/// than it has made steps, so the count of visits is never one.
pub proof fn lemma_steps_after_run(grid: Seq<Seq<Cell>>, slopes: Seq<(nat, nat)>)
    ensures
        run(StateView::fresh(), grid, slopes).0.steps == (if slopes.len() == 0 {
            0
        } else {
            slopes.len() + 1
        }),
        run(StateView::fresh(), grid, slopes).0.steps != 1,
    decreases slopes.len(),
{
    if slopes.len() > 0 {
        lemma_steps_after_run(grid, slopes.drop_last());
    }
}

/// A step loses no kind found, so the number of kinds found does not go
/// down; it is never more than three.
pub proof fn lemma_found_never_shrinks(state: StateView, grid: Seq<Seq<Cell>>, dx: nat, dy: nat)
    ensures
        state.found.subset_of(step(state, grid, dx, dy).0.found),
        state.found.len() <= step(state, grid, dx, dy).0.found.len() <= 3,
{
    let after = step(state, grid, dx, dy).0;
    lemma_at_most_three_kinds(state.found);
    lemma_at_most_three_kinds(after.found);
    vstd::set_lib::lemma_len_subset(state.found, after.found);
}

/// A step moves the cursor by the slope, wrapping around on each axis by
/// the size of the grid on that axis.
pub proof fn lemma_step_moves_cursor(state: StateView, grid: Seq<Seq<Cell>>, dx: nat, dy: nat)
    ensures
        step(state, grid, dx, dy).0.x == (state.x + dx) % width_of(grid),
        step(state, grid, dx, dy).0.y == (state.y + dy) % height_of(grid),
{
}

/// A step leaves no trash under the cursor, changes no cell but from trash
/// to free, and takes no visit back: the count of each kind stays or
/// grows, whatever was cleaned.
pub proof fn lemma_step_cleans(state: StateView, grid: Seq<Seq<Cell>>, dx: nat, dy: nat)
    requires
        state.wf(),
        is_grid(grid),
    ensures
        ({
            let after = step(state, grid, dx, dy);
            &&& cell_at(after.1, after.0.x as int, after.0.y as int) != Cell::Trash
            &&& forall|i: int, j: int|
                0 <= i < width_of(grid) && 0 <= j < height_of(grid) ==> #[trigger] cell_at(
                    after.1,
                    i,
                    j,
                ) == cell_at(grid, i, j) || (cell_at(grid, i, j) == Cell::Trash && cell_at(
                    after.1,
                    i,
                    j,
                ) == Cell::Free)
            &&& forall|cell: Cell| state.count(cell) <= #[trigger] after.0.count(cell)
        }),
{
    let x = wrap(state.x, dx, width_of(grid));
    let y = wrap(state.y, dy, height_of(grid));
    if state.steps == 0 {
        let origin = cell_at(grid, 0, 0);
        let ground = cleaned(grid, 0, 0);
        lemma_cleaned(grid, 0, 0);
        lemma_visit(state, origin);
        let start = state.visit(origin);
        lemma_visit(start, cell_at(ground, x as int, y as int));
        lemma_cleaned(ground, x as int, y as int);
    } else {
        lemma_visit(state, cell_at(grid, x as int, y as int));
        lemma_cleaned(grid, x as int, y as int);
    }
}

/// Where a step after the first arrives at trash, the trash is counted as
/// visited and the cell is free afterwards; where the first step starts
/// on trash, that trash is counted and gone as well.
pub proof fn lemma_trash_is_counted_then_gone(
    state: StateView,
    grid: Seq<Seq<Cell>>,
    dx: nat,
    dy: nat,
)
    requires
        state.wf(),
        is_grid(grid),
    ensures
        ({
            let after = step(state, grid, dx, dy);
            let x = wrap(state.x, dx, width_of(grid)) as int;
            let y = wrap(state.y, dy, height_of(grid)) as int;
            &&& state.steps > 0 && cell_at(grid, x, y) == Cell::Trash ==> {
                &&& after.0.count(Cell::Trash) == state.count(Cell::Trash) + 1
                &&& after.0.last_visited == Some(Cell::Trash)
                &&& cell_at(after.1, x, y) == Cell::Free
            }
            &&& state.steps == 0 && cell_at(grid, 0, 0) == Cell::Trash ==> {
                &&& after.0.count(Cell::Trash) >= 1
                &&& after.0.found.contains(Cell::Trash)
                &&& cell_at(after.1, 0, 0) == Cell::Free
            }
        }),
{
    let x = wrap(state.x, dx, width_of(grid));
    let y = wrap(state.y, dy, height_of(grid));
    if state.steps == 0 {
        let origin = cell_at(grid, 0, 0);
        let ground = cleaned(grid, 0, 0);
        lemma_cleaned(grid, 0, 0);
        lemma_visit(state, origin);
        let start = state.visit(origin);
        lemma_visit(start, cell_at(ground, x as int, y as int));
        lemma_cleaned(ground, x as int, y as int);
    } else {
        lemma_visit(state, cell_at(grid, x as int, y as int));
        lemma_cleaned(grid, x as int, y as int);
    }
}

/// Through any sequence of steps, a cell that holds no trash stays as it
/// is, no kind found is lost, and no count goes down.
pub proof fn lemma_run_never_litters(
    state: StateView,
    grid: Seq<Seq<Cell>>,
    slopes: Seq<(nat, nat)>,
)
    requires
        state.wf(),
        is_grid(grid),
    ensures
        forall|i: int, j: int|
            0 <= i < width_of(grid) && 0 <= j < height_of(grid) && cell_at(grid, i, j)
                != Cell::Trash ==> #[trigger] cell_at(run(state, grid, slopes).1, i, j)
                == cell_at(grid, i, j),
        state.found.subset_of(run(state, grid, slopes).0.found),
        state.found.len() <= run(state, grid, slopes).0.found.len() <= 3,
        forall|cell: Cell| state.count(cell) <= #[trigger] run(state, grid, slopes).0.count(cell),
    decreases slopes.len(),
{
    let end = run(state, grid, slopes);
    lemma_at_most_three_kinds(state.found);
    lemma_at_most_three_kinds(end.0.found);
    if slopes.len() > 0 {
        let before = run(state, grid, slopes.drop_last());
        lemma_run_never_litters(state, grid, slopes.drop_last());
        lemma_run_keeps_invariant(state, grid, slopes.drop_last());
        lemma_step_cleans(before.0, before.1, slopes.last().0, slopes.last().1);
        lemma_found_never_shrinks(before.0, before.1, slopes.last().0, slopes.last().1);
        assert forall|i: int, j: int|
            0 <= i < width_of(grid) && 0 <= j < height_of(grid) && cell_at(grid, i, j)
                != Cell::Trash implies #[trigger] cell_at(end.1, i, j) == cell_at(
            grid,
            i,
            j,
        ) by {
            assert(cell_at(before.1, i, j) == cell_at(grid, i, j));
        }
        assert forall|cell: Cell| state.count(cell) <= #[trigger] end.0.count(cell) by {
            assert(state.count(cell) <= before.0.count(cell));
        }
    }
    vstd::set_lib::lemma_len_subset(state.found, end.0.found);
}

/// Once a step has visited a cell, every later lookup there finds no
/// trash: the cell holds what the visit left, whatever steps follow.
pub proof fn lemma_visited_cell_stays_clean(
    state: StateView,
    grid: Seq<Seq<Cell>>,
    dx: nat,
    dy: nat,
    slopes: Seq<(nat, nat)>,
)
    requires
        state.wf(),
        is_grid(grid),
    ensures
        ({
            let visited = step(state, grid, dx, dy);
            let later = run(visited.0, visited.1, slopes);
            let x = visited.0.x as int;
            let y = visited.0.y as int;
            &&& cell_at(later.1, x, y) != Cell::Trash
            &&& cell_at(later.1, x, y) == cell_at(visited.1, x, y)
            &&& cell_at(grid, x, y) == Cell::Trash ==> cell_at(later.1, x, y) == Cell::Free
            &&& visited.0.count(Cell::Trash) <= later.0.count(Cell::Trash)
        }),
{
    let visited = step(state, grid, dx, dy);
    lemma_step_keeps_invariant(state, grid, dx, dy);
    lemma_step_cleans(state, grid, dx, dy);
    lemma_run_never_litters(visited.0, visited.1, slopes);
    let x = visited.0.x as int;
    let y = visited.0.y as int;
    assert(cell_at(visited.1, x, y) != Cell::Trash);
    assert(cell_at(visited.1, x, y) == cell_at(grid, x, y) || (cell_at(grid, x, y)
        == Cell::Trash && cell_at(visited.1, x, y) == Cell::Free));
}

} // verus!
