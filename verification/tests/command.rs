use sudoku_board::board::Coord;
use sudoku_board::command::{
    parse_input_coords, read_coord, write_coord, Action, CommandParseError,
};

#[test]
fn two_tokens_parse_as_a_read() {
    assert_eq!(parse_input_coords("1 2"), Ok(Action::Read(Coord(1, 2))));
    assert_eq!(parse_input_coords("9 9"), Ok(Action::Read(Coord(9, 9))));
}

#[test]
fn three_tokens_parse_as_a_write() {
    assert_eq!(parse_input_coords("1 3 4"), Ok(Action::Write(Coord(1, 3), 4)));
    assert_eq!(parse_input_coords("5 5 0"), Ok(Action::Write(Coord(5, 5), 0)));
}

#[test]
fn tokens_are_trimmed() {
    assert_eq!(parse_input_coords("1 2\n"), Ok(Action::Read(Coord(1, 2))));
    assert_eq!(parse_input_coords("\t1 2 3\r\n"), Ok(Action::Write(Coord(1, 2), 3)));
}

#[test]
fn wrong_token_counts_are_rejected() {
    assert_eq!(parse_input_coords(""), Err(CommandParseError::BadTokenCount));
    assert_eq!(parse_input_coords("1"), Err(CommandParseError::BadTokenCount));
    assert_eq!(parse_input_coords("1 2 3 4"), Err(CommandParseError::BadTokenCount));
}

#[test]
fn a_double_space_makes_an_empty_token() {
    assert_eq!(parse_input_coords("1  2"), Err(CommandParseError::BadNumber));
}

#[test]
fn non_numeric_tokens_are_rejected() {
    assert_eq!(parse_input_coords("a b"), Err(CommandParseError::BadNumber));
    assert_eq!(parse_input_coords("1 2 x"), Err(CommandParseError::BadNumber));
    assert_eq!(parse_input_coords("1,2 3"), Err(CommandParseError::BadNumber));
}

#[test]
fn values_up_to_255_are_accepted() {
    assert_eq!(parse_input_coords("255 1"), Ok(Action::Read(Coord(255, 1))));
    assert_eq!(parse_input_coords("1 1 255"), Ok(Action::Write(Coord(1, 1), 255)));
    assert_eq!(parse_input_coords("256 1"), Err(CommandParseError::BadNumber));
    assert_eq!(parse_input_coords("1 1 300"), Err(CommandParseError::BadNumber));
}

#[test]
fn leading_zeros_are_accepted() {
    assert_eq!(parse_input_coords("007 05"), Ok(Action::Read(Coord(7, 5))));
}

#[test]
fn read_coord_parses_row_and_column() {
    assert_eq!(read_coord("7", "9"), Ok(Action::Read(Coord(7, 9))));
    assert_eq!(read_coord("7", "q"), Err(CommandParseError::BadNumber));
    assert_eq!(read_coord("", "9"), Err(CommandParseError::BadNumber));
}

#[test]
fn write_coord_parses_row_column_and_value() {
    assert_eq!(write_coord("1", "2", "10"), Ok(Action::Write(Coord(1, 2), 10)));
    assert_eq!(write_coord("1", "2", ""), Err(CommandParseError::BadNumber));
    assert_eq!(write_coord("x", "2", "3"), Err(CommandParseError::BadNumber));
}
