use sudoku_board::board::{Board, CannotWritePrefilledTileError, Coord, PuzzleParseError, Tile};

const PUZZLE: &str =
    "53**7****\n6**195***\n*98****6*\n8***6***3\n4**8*3**1\n7***2***6\n*6****28*\n***419**5\n****8**79";

#[test]
fn index_maps_coordinates_row_major() {
    assert_eq!(Board::index(1, 1), 0);
    assert_eq!(Board::index(1, 3), 2);
    assert_eq!(Board::index(1, 9), 8);
    assert_eq!(Board::index(2, 1), 9);
    assert_eq!(Board::index(5, 5), 40);
    assert_eq!(Board::index(9, 9), 80);
}

#[test]
fn index_is_injective_over_all_coordinates() {
    let mut seen: Vec<u8> = Vec::new();
    for r in 1u8..=9 {
        for c in 1u8..=9 {
            let i: u8 = Board::index(r, c);
            assert!(i <= 80);
            assert!(!seen.contains(&i));
            seen.push(i);
        }
    }
    assert_eq!(seen.len(), 81);
}

#[test]
fn new_board_is_all_empty() {
    let b = Board::new();
    for r in 1u8..=9 {
        for c in 1u8..=9 {
            assert_eq!(*b.get(&Coord(r, c)), Tile::Empty);
        }
    }
}

#[test]
fn loading_marks_digits_prefilled_and_stars_empty() {
    let b = Board::from_text(PUZZLE).unwrap();
    assert_eq!(*b.get(&Coord(1, 1)), Tile::Prefilled(5));
    assert_eq!(*b.get(&Coord(1, 2)), Tile::Prefilled(3));
    assert_eq!(*b.get(&Coord(1, 3)), Tile::Empty);
    assert_eq!(*b.get(&Coord(2, 4)), Tile::Prefilled(1));
    assert_eq!(*b.get(&Coord(9, 9)), Tile::Prefilled(9));
    assert_eq!(*b.get(&Coord(9, 1)), Tile::Empty);
}

#[test]
fn loading_rejects_bad_characters() {
    let mut text = String::new();
    for _k in 0usize..80 {
        text.push('1');
    }
    text.push('x');
    assert!(matches!(Board::from_text(&text), Err(PuzzleParseError::BadCharacter)));
}

#[test]
fn bad_character_takes_precedence_over_wrong_length() {
    assert!(matches!(Board::from_text("x"), Err(PuzzleParseError::BadCharacter)));
}

#[test]
fn loading_rejects_wrong_cell_counts() {
    assert!(matches!(Board::from_text(""), Err(PuzzleParseError::WrongCellCount)));
    assert!(matches!(Board::from_text("123"), Err(PuzzleParseError::WrongCellCount)));
    let mut text = String::new();
    for _k in 0usize..82 {
        text.push('*');
    }
    assert!(matches!(Board::from_text(&text), Err(PuzzleParseError::WrongCellCount)));
}

#[test]
fn line_breaks_are_not_structural() {
    let with_breaks = Board::from_text(PUZZLE).unwrap();
    let flat: String = PUZZLE.chars().filter(|c| *c != '\n').collect();
    let without_breaks = Board::from_text(&flat).unwrap();
    for r in 1u8..=9 {
        for c in 1u8..=9 {
            assert_eq!(with_breaks.get(&Coord(r, c)), without_breaks.get(&Coord(r, c)));
        }
    }
}

#[test]
fn write_then_read_returns_new_value() {
    let mut b = Board::from_text(PUZZLE).unwrap();
    assert_eq!(b.write(&Coord(1, 3), 4), Ok(()));
    assert_eq!(*b.get(&Coord(1, 3)), Tile::Filled(4));
    assert_eq!(b.write(&Coord(1, 3), 8), Ok(()));
    assert_eq!(*b.get(&Coord(1, 3)), Tile::Filled(8));
    assert_eq!(*b.get(&Coord(1, 1)), Tile::Prefilled(5));
}

#[test]
fn write_to_prefilled_always_fails_and_changes_nothing() {
    let mut b = Board::from_text(PUZZLE).unwrap();
    for _attempt in 0usize..3 {
        assert_eq!(b.write(&Coord(1, 1), 9), Err(CannotWritePrefilledTileError));
        assert_eq!(*b.get(&Coord(1, 1)), Tile::Prefilled(5));
    }
}

#[test]
fn write_accepts_values_above_nine() {
    let mut b = Board::new();
    assert_eq!(b.write(&Coord(5, 5), 255), Ok(()));
    assert_eq!(*b.get(&Coord(5, 5)), Tile::Filled(255));
}

#[test]
fn example_scenario() {
    let mut b = Board::from_text(PUZZLE).unwrap();
    assert_eq!(*b.get(&Coord(1, 1)), Tile::Prefilled(5));
    assert_eq!(b.write(&Coord(1, 3), 4), Ok(()));
    assert_eq!(*b.get(&Coord(1, 3)), Tile::Filled(4));
    assert_eq!(b.write(&Coord(1, 1), 9), Err(CannotWritePrefilledTileError));
    assert_eq!(*b.get(&Coord(1, 1)), Tile::Prefilled(5));
}
