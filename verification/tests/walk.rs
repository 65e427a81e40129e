use gridwalk::cell::Cell;
use gridwalk::grid::Grid;
use gridwalk::navigation::{output, step, terminal, wrapping_advance, Output, State, Termination};

fn grid(rows: &[&str]) -> Grid {
    let cells: Vec<Vec<Cell>> = rows
        .iter()
        .map(|row| row.chars().map(|c| Cell::try_from(c).unwrap()).collect())
        .collect();
    Grid::from_rows(&cells).unwrap()
}

fn total(state: &State) -> usize {
    let counts = state.get_symbol_counts();
    [Cell::Free, Cell::Trash, Cell::Buoy]
        .iter()
        .map(|cell| counts.get(cell).unwrap_or(0))
        .sum()
}

#[test]
fn new_state_is_at_the_origin_with_nothing_visited() {
    let state = State::new();
    assert_eq!(state.get_xpos(), 0);
    assert_eq!(state.get_ypos(), 0);
    assert_eq!(state.get_steps(), 0);
    assert_eq!(state.get_found_symbols().len(), 0);
    assert!(state.get_found_symbols().is_empty());
    assert_eq!(state.get_symbol_counts().get(&Cell::Free), None);
    assert_eq!(state.get_symbol_counts().get(&Cell::Trash), None);
    assert_eq!(state.get_symbol_counts().get(&Cell::Buoy), None);
    assert_eq!(*state.get_last_visited(), None);
}

#[test]
fn first_step_counts_two_visits_and_later_steps_one() {
    let mut map = grid(&["..X", "O.."]);
    let mut state = State::new();
    state.step(&mut map, (1, 1));
    assert_eq!(state.get_steps(), 2);
    state.step(&mut map, (1, 1));
    assert_eq!(state.get_steps(), 3);
    state.step(&mut map, (2, 0));
    assert_eq!(state.get_steps(), 4);
    state.step(&mut map, (0, 0));
    assert_eq!(state.get_steps(), 5);
}

#[test]
fn first_step_with_zero_slope_visits_the_origin_twice() {
    let mut map = grid(&["X."]);
    let mut state = State::new();
    state.step(&mut map, (0, 0));
    assert_eq!(state.get_steps(), 2);
    assert_eq!((state.get_xpos(), state.get_ypos()), (0, 0));
    assert_eq!(state.get_symbol_counts().get(&Cell::Trash), Some(1));
    assert_eq!(state.get_symbol_counts().get(&Cell::Free), Some(1));
    assert_eq!(*state.get_last_visited(), Some(Cell::Free));
    assert_eq!(map.get((0, 0)), Cell::Free);
}

#[test]
fn counts_add_up_to_steps_and_found_kinds_are_the_counted_kinds() {
    let mut map = grid(&[".XO.", "X..O", "OX.X"]);
    let mut state = State::new();
    for round in 0..40usize {
        state.step(&mut map, (round % 3, 1 + round % 2));
        assert_eq!(total(&state), state.get_steps());
        for cell in [Cell::Free, Cell::Trash, Cell::Buoy] {
            assert_eq!(
                state.get_found_symbols().contains(&cell),
                state.get_symbol_counts().get(&cell).is_some()
            );
        }
    }
    assert_eq!(state.get_steps(), 41);
}

#[test]
fn found_kinds_never_exceed_three_and_never_shrink() {
    let mut map = grid(&[".XO", "O.X"]);
    let mut state = State::new();
    let mut before = state.get_found_symbols().len();
    for _ in 0..20 {
        state.step(&mut map, (1, 1));
        let now = state.get_found_symbols().len();
        assert!(now >= before);
        assert!(now <= 3);
        before = now;
    }
    assert_eq!(before, 3);
}

#[test]
fn position_wraps_on_each_axis_by_its_own_size() {
    let mut map = grid(&[".....", ".....", "....."]);
    let mut state = State::new();
    state.step(&mut map, (3, 2));
    assert_eq!((state.get_xpos(), state.get_ypos()), (3, 2));
    state.step(&mut map, (3, 2));
    assert_eq!((state.get_xpos(), state.get_ypos()), (1, 1));
    state.step(&mut map, (12, 7));
    assert_eq!((state.get_xpos(), state.get_ypos()), (3, 2));
    state.step(&mut map, (usize::MAX, usize::MAX));
    assert_eq!(
        (state.get_xpos(), state.get_ypos()),
        ((3 + usize::MAX % 5) % 5, (2 + usize::MAX % 3) % 3)
    );
}

#[test]
fn wrapping_advance_is_the_sum_modulo_the_size() {
    assert_eq!(wrapping_advance(0, 1, 3), 1);
    assert_eq!(wrapping_advance(2, 1, 3), 0);
    assert_eq!(wrapping_advance(2, 5, 3), 1);
    assert_eq!(wrapping_advance(7, 0, 3), 1);
    assert_eq!(wrapping_advance(0, 0, 1), 0);
    assert_eq!(wrapping_advance(usize::MAX, usize::MAX, usize::MAX), 0);
    assert_eq!(wrapping_advance(usize::MAX - 1, usize::MAX - 1, usize::MAX), usize::MAX - 2);
    assert_eq!(wrapping_advance(usize::MAX, 1, 10), (usize::MAX % 10 + 1) % 10);
}

#[test]
fn visited_trash_is_cleaned_and_stays_counted() {
    let mut map = grid(&[".X.", "..."]);
    let mut state = State::new();
    state.step(&mut map, (1, 0));
    assert_eq!(*state.get_last_visited(), Some(Cell::Trash));
    assert_eq!(map.get((1, 0)), Cell::Free);
    assert_eq!(state.get_symbol_counts().get(&Cell::Trash), Some(1));
    state.step(&mut map, (3, 0));
    assert_eq!((state.get_xpos(), state.get_ypos()), (1, 0));
    assert_eq!(*state.get_last_visited(), Some(Cell::Free));
    assert_eq!(map.get((1, 0)), Cell::Free);
    assert_eq!(state.get_symbol_counts().get(&Cell::Trash), Some(1));
    assert_eq!(state.get_symbol_counts().get(&Cell::Free), Some(2));
    assert!(state.get_found_symbols().contains(&Cell::Trash));
}

#[test]
fn trash_at_the_origin_is_cleaned_by_the_first_step() {
    let mut map = grid(&["XO"]);
    let mut state = State::new();
    state.step(&mut map, (1, 0));
    assert_eq!(map.get((0, 0)), Cell::Free);
    assert_eq!(map.get((1, 0)), Cell::Buoy);
    assert_eq!(state.get_symbol_counts().get(&Cell::Trash), Some(1));
    assert_eq!(state.get_symbol_counts().get(&Cell::Buoy), Some(1));
    assert_eq!(state.get_symbol_counts().get(&Cell::Free), None);
    assert_eq!(state.get_found_symbols().len(), 2);
}

#[test]
fn buoys_are_not_cleaned() {
    let mut map = grid(&["OO"]);
    let mut state = State::new();
    state.step(&mut map, (1, 0));
    state.step(&mut map, (1, 0));
    assert_eq!(map.get((0, 0)), Cell::Buoy);
    assert_eq!(map.get((1, 0)), Cell::Buoy);
    assert_eq!(state.get_symbol_counts().get(&Cell::Buoy), Some(3));
}

#[test]
fn steps_condition_holds_only_on_the_exact_count() {
    let mut map = grid(&["...."]);
    let mut state = State::new();
    assert!(terminal(&Termination::Steps(0), &map, &state));
    assert!(!terminal(&Termination::Steps(1), &map, &state));
    assert!(!terminal(&Termination::Steps(2), &map, &state));
    state.step(&mut map, (1, 0));
    assert!(!terminal(&Termination::Steps(0), &map, &state));
    assert!(!terminal(&Termination::Steps(1), &map, &state));
    assert!(terminal(&Termination::Steps(2), &map, &state));
    assert!(!terminal(&Termination::Steps(3), &map, &state));
    state.step(&mut map, (1, 0));
    assert!(!terminal(&Termination::Steps(2), &map, &state));
    assert!(terminal(&Termination::Steps(3), &map, &state));
}

#[test]
fn a_count_of_one_is_never_reached() {
    let mut map = grid(&[".X", "O."]);
    let mut state = State::new();
    let one = Termination::Steps(1);
    for _ in 0..25 {
        assert!(!terminal(&one, &map, &state));
        step(&mut map, &mut state, (1, 1));
    }
    assert!(!terminal(&one, &map, &state));
}

#[test]
fn symbol_condition_stays_true_once_met() {
    let mut map = grid(&[".O.."]);
    let mut state = State::new();
    let buoy = Termination::Symbol(Cell::Buoy);
    assert!(!terminal(&buoy, &map, &state));
    state.step(&mut map, (1, 0));
    assert!(terminal(&buoy, &map, &state));
    state.step(&mut map, (1, 0));
    assert!(terminal(&buoy, &map, &state));
    assert!(!terminal(&Termination::Symbol(Cell::Trash), &map, &state));
}

#[test]
fn position_condition_holds_only_while_the_cursor_is_there() {
    let mut map = grid(&["...", "..."]);
    let mut state = State::new();
    let target = Termination::Position((1, 1));
    assert!(terminal(&Termination::Position((0, 0)), &map, &state));
    assert!(!terminal(&target, &map, &state));
    state.step(&mut map, (1, 1));
    assert!(terminal(&target, &map, &state));
    state.step(&mut map, (1, 1));
    assert!(!terminal(&target, &map, &state));
    assert!(terminal(&Termination::Position((2, 0)), &map, &state));
}

#[test]
fn free_step_function_does_what_the_method_does() {
    let mut map_a = grid(&["..X", "O.."]);
    let mut map_b = map_a.clone();
    let mut a = State::new();
    let mut b = State::new();
    for _ in 0..7 {
        a.step(&mut map_a, (2, 1));
        step(&mut map_b, &mut b, (2, 1));
    }
    assert_eq!(map_a, map_b);
    assert_eq!(a.get_steps(), b.get_steps());
    assert_eq!((a.get_xpos(), a.get_ypos()), (b.get_xpos(), b.get_ypos()));
    assert_eq!(a.get_found_symbols(), b.get_found_symbols());
    assert_eq!(a.get_symbol_counts(), b.get_symbol_counts());
    assert_eq!(a.get_last_visited(), b.get_last_visited());
}

#[test]
fn end_to_end_walk_until_four_steps() {
    let mut map = grid(&["..X", "O.."]);
    let mut state = State::new();
    let termination = Termination::Steps(4);
    let mut calls = 0;
    while !terminal(&termination, &map, &state) {
        step(&mut map, &mut state, (1, 0));
        calls += 1;
        assert!(calls < 100);
    }
    assert_eq!(calls, 3);
    assert_eq!(state.get_steps(), 4);
    assert_eq!(map.get((2, 0)), Cell::Free);
    assert_eq!(output(&Output::Position, (map.clone(), state.clone())), "(0,0)");
    assert_eq!(output(&Output::Distinct, (map.clone(), state.clone())), "2");
    assert_eq!(output(&Output::SymbolCount(Cell::Trash), (map.clone(), state.clone())), "1");
    assert_eq!(output(&Output::SymbolCount(Cell::Free), (map.clone(), state.clone())), "3");
    assert_eq!(output(&Output::SymbolCount(Cell::Buoy), (map.clone(), state.clone())), "0");
    assert_eq!(output(&Output::Steps, (map.clone(), state.clone())), "4");
    assert_eq!(output(&Output::TerminalSymbol, (map, state)), ".");
}

#[test]
fn terminal_symbol_is_read_from_the_grid_after_cleaning() {
    let mut map = grid(&[".X", ".O"]);
    let mut state = State::new();
    state.step(&mut map, (1, 0));
    assert_eq!(*state.get_last_visited(), Some(Cell::Trash));
    assert_eq!(output(&Output::TerminalSymbol, (map.clone(), state.clone())), ".");
    state.step(&mut map, (0, 1));
    assert_eq!(output(&Output::TerminalSymbol, (map.clone(), state.clone())), "O");
    assert_eq!(output(&Output::Position, (map, state)), "(1,1)");
}

#[test]
fn output_of_a_fresh_state() {
    let map = grid(&["X"]);
    let state = State::new();
    assert_eq!(output(&Output::Steps, (map.clone(), state.clone())), "0");
    assert_eq!(output(&Output::Distinct, (map.clone(), state.clone())), "0");
    assert_eq!(output(&Output::Position, (map.clone(), state.clone())), "(0,0)");
    assert_eq!(output(&Output::SymbolCount(Cell::Trash), (map.clone(), state.clone())), "0");
    assert_eq!(output(&Output::TerminalSymbol, (map, state)), "X");
}

#[test]
fn output_writes_numbers_of_several_digits() {
    let row: String = ".".repeat(1234);
    let mut map = grid(&[row.as_str()]);
    let mut state = State::new();
    state.step(&mut map, (1200, 0));
    for _ in 0..118 {
        state.step(&mut map, (0, 0));
    }
    assert_eq!(output(&Output::Steps, (map.clone(), state.clone())), "120");
    assert_eq!(output(&Output::Position, (map.clone(), state.clone())), "(1200,0)");
    assert_eq!(output(&Output::SymbolCount(Cell::Free), (map, state)), "120");
}
