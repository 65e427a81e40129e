use gridwalk::cell::Cell;
use gridwalk::error::Error;
use gridwalk::navigation::{Output, Termination};

#[test]
fn cell_characters_are_read_in_either_case() {
    assert_eq!(Cell::try_from('.'), Ok(Cell::Free));
    assert_eq!(Cell::try_from('X'), Ok(Cell::Trash));
    assert_eq!(Cell::try_from('x'), Ok(Cell::Trash));
    assert_eq!(Cell::try_from('O'), Ok(Cell::Buoy));
    assert_eq!(Cell::try_from('o'), Ok(Cell::Buoy));
}

#[test]
fn other_characters_are_no_cells() {
    assert_eq!(Cell::try_from('#'), Err(Error::InvalidCell('#')));
    assert_eq!(Cell::try_from(' '), Err(Error::InvalidCell(' ')));
    assert_eq!(Cell::try_from('0'), Err(Error::InvalidCell('0')));
    assert_eq!(Cell::try_from(','), Err(Error::InvalidCell(',')));
    assert_eq!(Cell::try_from('\u{3a7}'), Err(Error::InvalidCell('\u{3a7}')));
}

#[test]
fn cells_are_written_in_canonical_case() {
    assert_eq!(char::from(Cell::Free), '.');
    assert_eq!(char::from(Cell::Trash), 'X');
    assert_eq!(char::from(Cell::Buoy), 'O');
}

#[test]
fn cell_to_character_and_back_is_the_identity() {
    for cell in [Cell::Free, Cell::Trash, Cell::Buoy] {
        assert_eq!(Cell::try_from(char::from(cell)), Ok(cell));
    }
}

#[test]
fn termination_fixtures() {
    assert_eq!(Termination::parse("3"), Ok(Termination::Steps(3)));
    assert_eq!(Termination::parse("S,X"), Ok(Termination::Symbol(Cell::Trash)));
    assert_eq!(Termination::parse("P,2,5"), Ok(Termination::Position((2, 5))));
}

#[test]
fn output_fixtures() {
    assert_eq!(Output::parse("C,x"), Ok(Output::SymbolCount(Cell::Trash)));
    assert_eq!(Output::parse("p"), Ok(Output::Position));
    assert_eq!(Output::parse("d"), Ok(Output::Distinct));
}

#[test]
fn termination_steps_forms() {
    assert_eq!(Termination::parse("0"), Ok(Termination::Steps(0)));
    assert_eq!(Termination::parse("007"), Ok(Termination::Steps(7)));
    assert_eq!(Termination::parse("+12"), Ok(Termination::Steps(12)));
    assert_eq!(
        Termination::parse(&usize::MAX.to_string()),
        Ok(Termination::Steps(usize::MAX))
    );
}

#[test]
fn termination_steps_must_be_a_number() {
    assert_eq!(Termination::parse(""), Err(Error::MalformedSpec(String::new())));
    assert_eq!(Termination::parse("abc"), Err(Error::MalformedSpec("abc".to_string())));
    assert_eq!(Termination::parse("-3"), Err(Error::MalformedSpec("-3".to_string())));
    assert_eq!(Termination::parse(" 3"), Err(Error::MalformedSpec(" 3".to_string())));
    assert_eq!(Termination::parse("3 "), Err(Error::MalformedSpec("3 ".to_string())));
    assert_eq!(Termination::parse("+"), Err(Error::MalformedSpec("+".to_string())));
    assert_eq!(Termination::parse("1_000"), Err(Error::MalformedSpec("1_000".to_string())));
    let too_large = format!("{}0", usize::MAX);
    assert_eq!(Termination::parse(&too_large), Err(Error::MalformedSpec(too_large.clone())));
    let just_too_large = "18446744073709551616";
    if usize::MAX as u128 == u64::MAX as u128 {
        assert_eq!(
            Termination::parse(just_too_large),
            Err(Error::MalformedSpec(just_too_large.to_string()))
        );
    }
}

#[test]
fn termination_symbol_forms() {
    assert_eq!(Termination::parse("S,."), Ok(Termination::Symbol(Cell::Free)));
    assert_eq!(Termination::parse("S,o"), Ok(Termination::Symbol(Cell::Buoy)));
    assert_eq!(Termination::parse("S,x"), Ok(Termination::Symbol(Cell::Trash)));
    assert_eq!(Termination::parse("s,O"), Ok(Termination::Symbol(Cell::Buoy)));
}

#[test]
fn termination_symbol_must_name_a_cell() {
    assert_eq!(Termination::parse("S,#"), Err(Error::InvalidCell('#')));
    assert_eq!(Termination::parse("S, X"), Err(Error::InvalidCell(' ')));
    assert_eq!(Termination::parse("S,"), Err(Error::MalformedSpec("S,".to_string())));
    assert_eq!(Termination::parse(","), Err(Error::MalformedSpec(",".to_string())));
}

#[test]
fn termination_position_forms() {
    assert_eq!(Termination::parse("P,0,0"), Ok(Termination::Position((0, 0))));
    assert_eq!(Termination::parse("P, 2 ,\t5\n"), Ok(Termination::Position((2, 5))));
    assert_eq!(Termination::parse("P,\u{a0}10\u{2003},+4"), Ok(Termination::Position((10, 4))));
}

#[test]
fn termination_position_must_hold_two_numbers() {
    assert_eq!(Termination::parse("P,x,5"), Err(Error::MalformedSpec("x".to_string())));
    assert_eq!(Termination::parse("P,2,y"), Err(Error::MalformedSpec("y".to_string())));
    assert_eq!(Termination::parse("P,,5"), Err(Error::MalformedSpec(String::new())));
    assert_eq!(Termination::parse("P, ,5"), Err(Error::MalformedSpec(" ".to_string())));
    assert_eq!(Termination::parse("P,2, 5 6"), Err(Error::MalformedSpec(" 5 6".to_string())));
    assert_eq!(Termination::parse("P,-2,5"), Err(Error::MalformedSpec("-2".to_string())));
}

#[test]
fn termination_with_too_many_fields_is_malformed() {
    assert_eq!(Termination::parse("P,1,2,3"), Err(Error::MalformedSpec("P,1,2,3".to_string())));
    assert_eq!(Termination::parse(",,,"), Err(Error::MalformedSpec(",,,".to_string())));
}

#[test]
fn output_codes_in_either_case() {
    assert_eq!(Output::parse("P"), Ok(Output::Position));
    assert_eq!(Output::parse("n"), Ok(Output::Steps));
    assert_eq!(Output::parse("N"), Ok(Output::Steps));
    assert_eq!(Output::parse("s"), Ok(Output::TerminalSymbol));
    assert_eq!(Output::parse("S"), Ok(Output::TerminalSymbol));
    assert_eq!(Output::parse("D"), Ok(Output::Distinct));
    assert_eq!(Output::parse("c,."), Ok(Output::SymbolCount(Cell::Free)));
    assert_eq!(Output::parse("c,O"), Ok(Output::SymbolCount(Cell::Buoy)));
    assert_eq!(Output::parse("C,X"), Ok(Output::SymbolCount(Cell::Trash)));
    assert_eq!(Output::parse("c,o"), Ok(Output::SymbolCount(Cell::Buoy)));
}

#[test]
fn unsupported_output_codes_are_malformed() {
    assert_eq!(Output::parse(""), Err(Error::MalformedSpec(String::new())));
    assert_eq!(Output::parse("q"), Err(Error::MalformedSpec("q".to_string())));
    assert_eq!(Output::parse("pp"), Err(Error::MalformedSpec("pp".to_string())));
    assert_eq!(Output::parse(" p"), Err(Error::MalformedSpec(" p".to_string())));
    assert_eq!(Output::parse("c"), Err(Error::MalformedSpec("c".to_string())));
    assert_eq!(Output::parse("c,"), Err(Error::MalformedSpec("c,".to_string())));
    assert_eq!(Output::parse("x,c"), Err(Error::MalformedSpec("x,c".to_string())));
}

#[test]
fn output_count_must_name_a_cell() {
    assert_eq!(Output::parse("c,#"), Err(Error::InvalidCell('#')));
    assert_eq!(Output::parse("C,1"), Err(Error::InvalidCell('1')));
}
