//! The cursor and its bookkeeping, the conditions that end a walk, and
//! the figures that a finished walk reports.

use vstd::prelude::*;
use vstd::arithmetic::div_mod::lemma_add_mod_noop;
use vstd::arithmetic::div_mod::lemma_mod_add_multiples_vanish;
use vstd::arithmetic::div_mod::lemma_mod_bound;
use vstd::arithmetic::div_mod::lemma_small_mod;
use vstd::string::StringExecFns;
use crate::cell::Cell;
use crate::error::{viewed, Error, ErrorView};
use crate::grid::{cell_at, cleaned, height_of, is_grid, lemma_cleaned, width_of, Grid};
use crate::model::{lemma_run_never_litters, lemma_steps_after_run, lemma_step_keeps_invariant};
use crate::model::{lemma_visit, run, step as step_of, wrap, StateView};
use crate::tally::{total_of, CellCounts, CellSet};
use crate::text::{chars_of, decimal, decimal_string, parse_usize, push_decimal, split};
use crate::text::{split_fields, trim, trimmed, usize_of};

verus! {

/// The coordinate reached from `pos` by `delta` on a wrapping axis of
/// `size` cells, computed without overflow.
pub fn wrapping_advance(pos: usize, delta: usize, size: usize) -> (next: usize)
    requires
        size > 0,
    ensures
        next == wrap(pos as nat, delta as nat, size as nat),
        next < size,
{
    let from: usize = pos % size;
    let by: usize = delta % size;
    proof {
        lemma_add_mod_noop(pos as int, delta as int, size as int);
        lemma_mod_bound(pos as int, size as int);
        lemma_mod_bound(delta as int, size as int);
    }
    if by >= size - from {
        proof {
            lemma_mod_add_multiples_vanish(from + by - size, size as int);
            lemma_small_mod((from + by - size) as nat, size as nat);
        }
        from - (size - by)
    } else {
        proof {
            lemma_small_mod((from + by) as nat, size as nat);
        }
        from + by
    }
}

/// The cursor of a walk and what the walk has visited.
#[derive(Debug)]
pub struct State {
    xpos: usize,
    ypos: usize,
    steps: usize,
    found_symbols: CellSet,
    symbol_counts: CellCounts,
    last_visited: Option<Cell>,
}

impl View for State {
    type V = StateView;

    closed spec fn view(&self) -> StateView {
        StateView {
            x: self.xpos as nat,
            y: self.ypos as nat,
            steps: self.steps as nat,
            found: self.found_symbols@,
            counts: self.symbol_counts@,
            last_visited: self.last_visited,
        }
    }
}

impl Clone for State {
    /// A state with the same cursor and the same record of visits.
    fn clone(&self) -> (copy: State)
        ensures
            copy@ == self@,
    {
        proof {
            use_type_invariant(self);
        }
        State {
            xpos: self.xpos,
            ypos: self.ypos,
            steps: self.steps,
            found_symbols: self.found_symbols,
            symbol_counts: self.symbol_counts,
            last_visited: self.last_visited,
        }
    }
}

/// The record of visits while a step is under way.
struct Visits {
    steps: usize,
    found: CellSet,
    counts: CellCounts,
    last: Option<Cell>,
}

impl Visits {
    spec fn on(self, x: nat, y: nat) -> StateView {
        StateView {
            x,
            y,
            steps: self.steps as nat,
            found: self.found@,
            counts: self.counts@,
            last_visited: self.last,
        }
    }

    spec fn consistent(self) -> bool {
        &&& total_of(self.counts@) == self.steps
        &&& self.found@ =~= self.counts@.dom()
        &&& forall|c: Cell| self.counts@.dom().contains(c) ==> self.counts@[c] > 0
    }

    /// Visits the cell at `pos`: records its kind and takes away trash.
    fn visit(
        &mut self,
        map: &mut Grid,
        pos: (usize, usize),
        Ghost(x): Ghost<nat>,
        Ghost(y): Ghost<nat>,
    )
        requires
            old(self).consistent(),
            old(self).steps < usize::MAX,
            pos.0 < width_of(old(map)@),
            pos.1 < height_of(old(map)@),
        ensures
            final(self).consistent(),
            final(self).on(x, y) == old(self).on(x, y).visit(
                cell_at(old(map)@, pos.0 as int, pos.1 as int),
            ),
            final(map)@ == cleaned(old(map)@, pos.0 as int, pos.1 as int),
            is_grid(final(map)@),
    {
        let cell = map.get(pos);
        proof {
            lemma_visit(self.on(x, y), cell);
            self.counts.lemma_entries(cell);
        }
        self.last = Some(cell);
        self.found.insert(cell);
        self.steps = self.steps + 1;
        self.counts.increment(cell);
        map.clean(pos);
    }
}

impl State {
    #[verifier::type_invariant]
    spec fn well_formed(self) -> bool {
        self@.wf()
    }

    /// The state before the first step: the cursor at the origin, and
    /// nothing visited.
    pub fn new() -> (state: State)
        ensures
            state@ == StateView::fresh(),
    {
        State {
            xpos: 0,
            ypos: 0,
            steps: 0,
            found_symbols: CellSet::new(),
            symbol_counts: CellCounts::new(),
            last_visited: None,
        }
    }

    /// Makes one step of the walk on `map` by `slope`, columns first.
    ///
    /// The first step of a walk counts the cell under the cursor as
    /// visited before it moves, so it counts two visits; every later step
    /// counts one. The visit counter must have room for the step.
    pub fn step(&mut self, map: &mut Grid, slope: (usize, usize))
        requires
            old(self)@.steps < usize::MAX,
        ensures
            final(self)@ == step_of(old(self)@, old(map)@, slope.0 as nat, slope.1 as nat).0,
            final(map)@ == step_of(old(self)@, old(map)@, slope.0 as nat, slope.1 as nat).1,
            final(self)@.steps == old(self)@.steps + (if old(self)@.steps == 0 {
                2nat
            } else {
                1nat
            }),
            final(self)@.x == (old(self)@.x + slope.0) % (width_of(old(map)@) as int),
            final(self)@.y == (old(self)@.y + slope.1) % (height_of(old(map)@) as int),
            final(self)@.wf(),
            final(self)@.within(final(map)@),
            is_grid(final(map)@),
            width_of(final(map)@) == width_of(old(map)@),
            height_of(final(map)@) == height_of(old(map)@),
    {
        proof {
            use_type_invariant(&*self);
        }
        let map_width: usize = map.width();
        let map_height: usize = map.height();
        proof {
            lemma_step_keeps_invariant(old(self)@, old(map)@, slope.0 as nat, slope.1 as nat);
        }
        let ghost x = self.xpos as nat;
        let ghost y = self.ypos as nat;
        let mut visits = Visits {
            steps: self.steps,
            found: self.found_symbols,
            counts: self.symbol_counts,
            last: self.last_visited,
        };
        if visits.steps == 0 {
            visits.visit(map, (self.xpos, self.ypos), Ghost(x), Ghost(y));
        }
        let new_xpos: usize = wrapping_advance(self.xpos, slope.0, map_width);
        let new_ypos: usize = wrapping_advance(self.ypos, slope.1, map_height);
        proof {
            lemma_cleaned(old(map)@, 0, 0);
        }
        visits.visit(map, (new_xpos, new_ypos), Ghost(x), Ghost(y));
        let next = State {
            xpos: new_xpos,
            ypos: new_ypos,
            steps: visits.steps,
            found_symbols: visits.found,
            symbol_counts: visits.counts,
            last_visited: visits.last,
        };
        *self = next;
    }

    /// The cursor's column.
    pub fn get_xpos(&self) -> (x: usize)
        ensures
            x == self@.x,
    {
        self.xpos
    }

    /// The cursor's row.
    pub fn get_ypos(&self) -> (y: usize)
        ensures
            y == self@.y,
    {
        self.ypos
    }

    /// The number of visits counted so far; it is never one.
    pub fn get_steps(&self) -> (steps: usize)
        ensures
            steps == self@.steps,
            self@.wf(),
    {
        proof {
            use_type_invariant(self);
        }
        self.steps
    }

    /// The kinds of cell visited so far: the kinds that have a count.
    pub fn get_found_symbols(&self) -> (found: &CellSet)
        ensures
            found@ == self@.found,
            found@ == self@.counts.dom(),
    {
        proof {
            use_type_invariant(self);
        }
        &self.found_symbols
    }

    /// The number of visits to each kind visited; the counts add up to
    /// the visits counted.
    pub fn get_symbol_counts(&self) -> (counts: &CellCounts)
        ensures
            counts@ == self@.counts,
            total_of(counts@) == self@.steps,
    {
        proof {
            use_type_invariant(self);
        }
        &self.symbol_counts
    }

    /// The kind of cell visited last, or `None` before the first step.
    pub fn get_last_visited(&self) -> (last: &Option<Cell>)
        ensures
            *last == self@.last_visited,
            *last is None <==> self@.steps == 0,
    {
        proof {
            use_type_invariant(self);
        }
        &self.last_visited
    }
}

/// The condition that ends a walk.
#[derive(Clone, Copy, Debug, PartialEq, Eq)]
pub enum Termination {
    /// The count of visits is exactly this number.
    Steps(usize),
    /// A cell of this kind has been visited.
    Symbol(Cell),
    /// The cursor is at this column and row.
    Position((usize, usize)),
}

impl Termination {
    /// The condition that `text` describes. The text is cut at its commas.
    /// One field is a count of visits; of two fields the second begins
    /// with the character of a cell kind; of three fields the second and
    /// the third are a column and a row, with or without blanks around
    /// them. What the first of several fields says is not looked at, nor
    /// what follows the cell's character. Any other text is malformed: the
    /// field that writes no number, or else the whole text, is the part
    /// reported.
    pub open spec fn of_text(text: Seq<char>) -> Result<Termination, ErrorView> {
        let fields = split(text, ',');
        if fields.len() == 1 {
            match usize_of(fields[0]) {
                Some(n) => Ok(Termination::Steps(n)),
                None => Err(ErrorView::MalformedSpec(fields[0])),
            }
        } else if fields.len() == 2 {
            if fields[1].len() == 0 {
                Err(ErrorView::MalformedSpec(text))
            } else {
                match Cell::of_symbol(fields[1][0]) {
                    Some(cell) => Ok(Termination::Symbol(cell)),
                    None => Err(ErrorView::InvalidCell(fields[1][0])),
                }
            }
        } else if fields.len() == 3 {
            match usize_of(trim(fields[1])) {
                None => Err(ErrorView::MalformedSpec(fields[1])),
                Some(x) => match usize_of(trim(fields[2])) {
                    None => Err(ErrorView::MalformedSpec(fields[2])),
                    Some(y) => Ok(Termination::Position((x, y))),
                },
            }
        } else {
            Err(ErrorView::MalformedSpec(text))
        }
    }

    /// Whether the condition holds of `state`. A count of visits must be
    /// met exactly; a kind counts once it was ever visited; a position
    /// counts only while the cursor is there.
    pub open spec fn holds(self, state: StateView) -> bool {
        match self {
            Termination::Steps(n) => state.steps == n,
            Termination::Symbol(cell) => state.found.contains(cell),
            Termination::Position((x, y)) => state.x == x && state.y == y,
        }
    }

    /// A count of visits ends a walk from the start after exactly one step
    /// fewer than the count, and a count of zero before the first step; a
    /// count of one ends no walk.
    pub proof fn lemma_steps_condition(n: usize, grid: Seq<Seq<Cell>>, slopes: Seq<(nat, nat)>)
        ensures
            Termination::Steps(n).holds(run(StateView::fresh(), grid, slopes).0) <==> n == (
            if slopes.len() == 0 {
                0
            } else {
                slopes.len() + 1
            }),
            !Termination::Steps(1).holds(run(StateView::fresh(), grid, slopes).0),
    {
        lemma_steps_after_run(grid, slopes);
    }

    /// Once a kind was visited, the condition on that kind holds after
    /// any further steps.
    pub proof fn lemma_symbol_condition_lasts(
        cell: Cell,
        state: StateView,
        grid: Seq<Seq<Cell>>,
        slopes: Seq<(nat, nat)>,
    )
        requires
            state.wf(),
            is_grid(grid),
            Termination::Symbol(cell).holds(state),
        ensures
            Termination::Symbol(cell).holds(run(state, grid, slopes).0),
    {
        lemma_run_never_litters(state, grid, slopes);
    }

    /// Reads a condition from its description.
    pub fn parse(text: &str) -> (r: Result<Termination, Error>)
        ensures
            viewed(r) == Termination::of_text(text@),
    {
        let fields = split_fields(text, ',');
        let ghost parts = split(text@, ',');
        if fields.len() == 1 {
            assert(fields@[0]@ == parts[0]);
            match parse_usize(fields[0]) {
                Some(n) => Ok(Termination::Steps(n)),
                None => Err(Error::MalformedSpec(fields[0].to_owned())),
            }
        } else if fields.len() == 2 {
            assert(fields@[1]@ == parts[1]);
            if fields[1].is_empty() {
                Err(Error::MalformedSpec(text.to_owned()))
            } else {
                match Cell::try_from(fields[1].get_char(0)) {
                    Ok(cell) => Ok(Termination::Symbol(cell)),
                    Err(e) => Err(e),
                }
            }
        } else if fields.len() == 3 {
            assert(fields@[1]@ == parts[1]);
            assert(fields@[2]@ == parts[2]);
            match parse_usize(trimmed(fields[1])) {
                None => Err(Error::MalformedSpec(fields[1].to_owned())),
                Some(x) => match parse_usize(trimmed(fields[2])) {
                    None => Err(Error::MalformedSpec(fields[2].to_owned())),
                    Some(y) => Ok(Termination::Position((x, y))),
                },
            }
        } else {
            Err(Error::MalformedSpec(text.to_owned()))
        }
    }
}

/// Whether `termination` holds of `state`. The grid has no say in any of
/// the conditions. A count of one visit is never met, since no state
/// counts exactly one.
pub fn terminal(termination: &Termination, _map: &Grid, state: &State) -> (done: bool)
    ensures
        done == termination.holds(state@),
        *termination == Termination::Steps(1) ==> !done,
{
    match termination {
        Termination::Steps(steps) => *steps == state.get_steps(),
        Termination::Symbol(symb) => state.get_found_symbols().contains(symb),
        Termination::Position((xpos, ypos)) => *xpos == state.get_xpos() && *ypos
            == state.get_ypos(),
    }
}

/// The figure that a finished walk reports.
#[derive(Clone, Copy, Debug, PartialEq, Eq)]
pub enum Output {
    /// The count of visits.
    Steps,
    /// The count of visits to cells of this kind.
    SymbolCount(Cell),
    /// What the cell under the cursor holds now.
    TerminalSymbol,
    /// The cursor's column and row.
    Position,
    /// The number of kinds visited.
    Distinct,
}

impl Output {
    /// The figure that `text` names, letters in either case: `c`, a comma
    /// and the character of a cell kind for the count of that kind, with
    /// anything after that character not looked at; `p` for the
    /// position, `n` for the count of visits, `s` for the cell under the
    /// cursor, `d` for the number of kinds. Any other text is malformed.
    pub open spec fn of_text(text: Seq<char>) -> Result<Output, ErrorView> {
        if text.len() >= 2 && (text[0] == 'c' || text[0] == 'C') && text[1] == ',' {
            if text.len() >= 3 {
                match Cell::of_symbol(text[2]) {
                    Some(cell) => Ok(Output::SymbolCount(cell)),
                    None => Err(ErrorView::InvalidCell(text[2])),
                }
            } else {
                Err(ErrorView::MalformedSpec(text))
            }
        } else if text.len() == 1 && (text[0] == 'p' || text[0] == 'P') {
            Ok(Output::Position)
        } else if text.len() == 1 && (text[0] == 'n' || text[0] == 'N') {
            Ok(Output::Steps)
        } else if text.len() == 1 && (text[0] == 's' || text[0] == 'S') {
            Ok(Output::TerminalSymbol)
        } else if text.len() == 1 && (text[0] == 'd' || text[0] == 'D') {
            Ok(Output::Distinct)
        } else {
            Err(ErrorView::MalformedSpec(text))
        }
    }

    /// The text of the figure for a walk that ended on `grid` in `state`.
    /// The cell under the cursor is read from the grid as it is at the
    /// end, so where the cursor stands on what was trash, the text shows a
    /// free cell.
    pub open spec fn render(self, grid: Seq<Seq<Cell>>, state: StateView) -> Seq<char> {
        match self {
            Output::Steps => decimal(state.steps),
            Output::SymbolCount(cell) => decimal(state.count(cell)),
            Output::TerminalSymbol => seq![cell_at(grid, state.x as int, state.y as int).symbol()],
            Output::Position => seq!['('] + decimal(state.x) + seq![','] + decimal(state.y)
                + seq![')'],
            Output::Distinct => decimal(state.found.len()),
        }
    }

    /// Reads the name of a figure.
    pub fn parse(text: &str) -> (r: Result<Output, Error>)
        ensures
            viewed(r) == Output::of_text(text@),
    {
        let chars = chars_of(text);
        let n: usize = chars.len();
        if n >= 2 && (chars[0] == 'c' || chars[0] == 'C') && chars[1] == ',' {
            if n >= 3 {
                match Cell::try_from(chars[2]) {
                    Ok(cell) => Ok(Output::SymbolCount(cell)),
                    Err(e) => Err(e),
                }
            } else {
                Err(Error::MalformedSpec(text.to_owned()))
            }
        } else if n == 1 && (chars[0] == 'p' || chars[0] == 'P') {
            Ok(Output::Position)
        } else if n == 1 && (chars[0] == 'n' || chars[0] == 'N') {
            Ok(Output::Steps)
        } else if n == 1 && (chars[0] == 's' || chars[0] == 'S') {
            Ok(Output::TerminalSymbol)
        } else if n == 1 && (chars[0] == 'd' || chars[0] == 'D') {
            Ok(Output::Distinct)
        } else {
            Err(Error::MalformedSpec(text.to_owned()))
        }
    }
}

/// The text of the character written for `cell`.
fn symbol_text(cell: Cell) -> (text: &'static str)
    ensures
        text@ == seq![cell.symbol()],
{
    proof {
        reveal_strlit(".");
        reveal_strlit("X");
        reveal_strlit("O");
    }
    let text = match cell {
        Cell::Free => ".",
        Cell::Trash => "X",
        Cell::Buoy => "O",
    };
    assert(text@ =~= seq![cell.symbol()]);
    text
}

/// The text of the figure `selected` for the walk that ended in `end`: the
/// grid and the state as the last step left them. For the cell under the
/// cursor, the cursor must stand on the grid.
pub fn output(selected: &Output, end: (Grid, State)) -> (text: String)
    requires
        *selected == Output::TerminalSymbol ==> end.1@.within(end.0@),
    ensures
        text@ == selected.render(end.0@, end.1@),
{
    let map_end = end.0;
    let state_end = end.1;
    match selected {
        Output::Steps => decimal_string(state_end.get_steps()),
        Output::SymbolCount(cell) => {
            match state_end.get_symbol_counts().get(cell) {
                Some(value) => decimal_string(value),
                None => decimal_string(0),
            }
        },
        Output::TerminalSymbol => {
            let current = map_end.get((state_end.get_xpos(), state_end.get_ypos()));
            symbol_text(current).to_owned()
        },
        Output::Position => {
            proof {
                reveal_strlit("(");
                reveal_strlit(",");
                reveal_strlit(")");
            }
            let mut text = "(".to_owned();
            push_decimal(&mut text, state_end.get_xpos());
            text.append(",");
            push_decimal(&mut text, state_end.get_ypos());
            text.append(")");
            assert(text@ =~= selected.render(map_end@, state_end@));
            text
        },
        Output::Distinct => decimal_string(state_end.get_found_symbols().len()),
    }
}

/// Makes one step of the walk of `state` on `map` by `slope`.
pub fn step(map: &mut Grid, state: &mut State, slope: (usize, usize))
    requires
        old(state)@.steps < usize::MAX,
    ensures
        final(state)@ == step_of(old(state)@, old(map)@, slope.0 as nat, slope.1 as nat).0,
        final(map)@ == step_of(old(state)@, old(map)@, slope.0 as nat, slope.1 as nat).1,
{
    state.step(map, slope);
}

} // verus!
