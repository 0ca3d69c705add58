use sudoku_board::board::{Board, Coord, Tile};

const PUZZLE: &str =
    "53**7****\n6**195***\n*98****6*\n8***6***3\n4**8*3**1\n7***2***6\n*6****28*\n***419**5\n****8**79";

const PUZZLE_RENDERED: &str = "  123 456 789\n  --- --- ---\n1|53.|.7.|...|\n2|6..|195|...|\n3|.98|...|.6.|\n  --- --- ---\n4|8..|.6.|..3|\n5|4..|8.3|..1|\n6|7..|.2.|..6|\n  --- --- ---\n7|.6.|...|28.|\n8|...|419|..5|\n9|...|.8.|.79|\n --- --- ---";

#[test]
fn rendering_shows_the_loaded_grid_in_order() {
    let b = Board::from_text(PUZZLE).unwrap();
    assert_eq!(b.render(), PUZZLE_RENDERED);
}

#[test]
fn rendering_is_deterministic() {
    let b = Board::from_text(PUZZLE).unwrap();
    let first = b.render();
    let second = b.render();
    assert_eq!(first, second);
}

#[test]
fn rendering_an_empty_board_shows_dots() {
    let b = Board::new();
    let expected = "  123 456 789\n  --- --- ---\n1|...|...|...|\n2|...|...|...|\n3|...|...|...|\n  --- --- ---\n4|...|...|...|\n5|...|...|...|\n6|...|...|...|\n  --- --- ---\n7|...|...|...|\n8|...|...|...|\n9|...|...|...|\n --- --- ---";
    assert_eq!(b.render(), expected);
}

#[test]
fn rendering_reflects_a_write() {
    let mut b = Board::from_text(PUZZLE).unwrap();
    b.write(&Coord(1, 3), 4).unwrap();
    let expected = PUZZLE_RENDERED.replacen("1|53.|", "1|534|", 1);
    assert_eq!(b.render(), expected);
}

#[test]
fn tile_text_shows_digit_or_dot() {
    assert_eq!(Tile::Prefilled(5).to_text(), "5");
    assert_eq!(Tile::Filled(0).to_text(), "0");
    assert_eq!(Tile::Filled(9).to_text(), "9");
    assert_eq!(Tile::Empty.to_text(), ".");
}

#[test]
fn tile_text_shows_values_above_nine_in_full() {
    assert_eq!(Tile::Filled(45).to_text(), "45");
    assert_eq!(Tile::Filled(100).to_text(), "100");
    assert_eq!(Tile::Filled(255).to_text(), "255");
}
