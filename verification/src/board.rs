//! The board data model: cells, coordinates, indexed reads and writes, and
//! construction from the puzzle file format.

use vstd::prelude::*;
use vstd::string::StrSliceExecFns;
use crate::digits::{char_to_digit, digit_value, is_digit_char};

verus! {

/// One of the 81 positions of the board.
///
/// `Prefilled` cells come from the puzzle file and are permanently immutable;
/// `Filled` cells were written by the user and may be overwritten again;
/// `Empty` cells hold no value yet.
#[derive(Clone, Copy, Debug, PartialEq, Eq, Structural)]
pub enum Tile {
    Prefilled(u8),
    Filled(u8),
    Empty,
}

/// A 1-indexed (row, column) pair; both components are valid in `1..=9`.
#[derive(Clone, Copy, Debug, PartialEq, Eq, Structural)]
pub struct Coord(pub u8, pub u8);

/// Error returned when a write addresses a cell that was part of the
/// original puzzle.
#[derive(Clone, Copy, Debug, PartialEq, Eq, Structural)]
pub struct CannotWritePrefilledTileError;

/// Whether a 1-indexed coordinate pair addresses a cell of the 9x9 grid.
pub open spec fn coord_valid(row: u8, col: u8) -> bool {
    1 <= row <= 9 && 1 <= col <= 9
}

/// The flat, 0-indexed, row-major position of a 1-indexed coordinate.
pub open spec fn index_spec(row: u8, col: u8) -> int {
    (row - 1) * 9 + (col - 1)
}

/// Whether a write to the cell at a coordinate succeeds: it does exactly
/// when the cell is not `Prefilled`.
pub open spec fn write_allowed(cells: Seq<Tile>, row: u8, col: u8) -> bool {
    !(cells[index_spec(row, col)] is Prefilled)
}

/// The cells after a write: the addressed cell becomes `Filled(val)` when
/// the write is allowed; otherwise nothing changes.
pub open spec fn write_cells(cells: Seq<Tile>, row: u8, col: u8, val: u8) -> Seq<Tile> {
    if write_allowed(cells, row, col) {
        cells.update(index_spec(row, col), Tile::Filled(val))
    } else {
        cells
    }
}

/// The board: exactly 81 tiles in row-major order.
pub struct Board {
    tiles: Vec<Tile>,
}

impl Board {
    /// The tiles of the board, as a mathematical sequence.
    pub closed spec fn cells(&self) -> Seq<Tile> {
        self.tiles@
    }

    /// Well-formedness: the board always holds exactly 81 cells.
    pub open spec fn wf(&self) -> bool {
        self.cells().len() == 81
    }

    /// An all-empty board.
    pub fn new() -> (b: Board)
        ensures
            b.wf(),
            forall|i: int| 0 <= i < 81 ==> b.cells()[i] == Tile::Empty,
    {
        let mut vec: Vec<Tile> = Vec::with_capacity(81);
        for _k in 0..81usize
            invariant
                vec@.len() == _k,
                forall|i: int| 0 <= i < _k ==> vec@[i] == Tile::Empty,
        {
            vec.push(Tile::Empty);
        }
        Board { tiles: vec }
    }

    /// The flat position of a 1-indexed coordinate.
    pub fn index(row: u8, col: u8) -> (i: u8)
        requires
            coord_valid(row, col),
        ensures
            i == index_spec(row, col),
            i < 81,
    {
        (row - 1) * 9 + (col - 1)
    }

    /// A read-only reference to the cell at a coordinate.
    pub fn get(&self, c: &Coord) -> (t: &Tile)
        requires
            self.wf(),
            coord_valid(c.0, c.1),
        ensures
            *t == self.cells()[index_spec(c.0, c.1)],
    {
        let row = c.0;
        let col = c.1;
        &self.tiles[Board::index(row, col) as usize]
    }

    /// Writes `val` into the cell at a coordinate.
    ///
    /// Fails, leaving the board unchanged, exactly when the addressed cell is
    /// `Prefilled`; otherwise the cell becomes `Filled(val)` and every other
    /// cell is unchanged.
    pub fn write(&mut self, c: &Coord, val: u8) -> (r: Result<
        (),
        CannotWritePrefilledTileError,
    >)
        requires
            old(self).wf(),
            coord_valid(c.0, c.1),
        ensures
            final(self).wf(),
            r is Ok <==> write_allowed(old(self).cells(), c.0, c.1),
            r is Err ==> r == Err::<(), CannotWritePrefilledTileError>(
                CannotWritePrefilledTileError,
            ),
            final(self).cells() == write_cells(old(self).cells(), c.0, c.1, val),
    {
        let row = c.0;
        let col = c.1;
        let index = Board::index(row, col) as usize;
        if let Tile::Prefilled(_) = self.tiles[index] {
            return Err(CannotWritePrefilledTileError);
        }
        self.tiles.set(index, Tile::Filled(val));
        Ok(())
    }
}

/// Error returned when the puzzle text cannot be parsed into a board.
#[derive(Clone, Copy, Debug, PartialEq, Eq, Structural)]
pub enum PuzzleParseError {
    /// A character other than a line break, a digit or `*` occurred.
    BadCharacter,
    /// The text does not hold exactly 81 grid characters.
    WrongCellCount,
}

/// Whether a character is a line break, skipped by the puzzle parser.
pub open spec fn is_line_break(c: char) -> bool {
    c == '\n' || c == '\r'
}

/// Whether a character may stand for a cell in the puzzle file.
pub open spec fn valid_grid_char(c: char) -> bool {
    c == '*' || is_digit_char(c)
}

/// The grid characters of the puzzle text: all characters in order, with
/// line breaks removed.
pub open spec fn grid_of(s: Seq<char>) -> Seq<char>
    decreases s.len(),
{
    if s.len() == 0 {
        Seq::empty()
    } else if is_line_break(s[0]) {
        grid_of(s.drop_first())
    } else {
        seq![s[0]] + grid_of(s.drop_first())
    }
}

/// The cell a grid character stands for: `*` is `Empty`, a digit is
/// `Prefilled` with its value.
pub open spec fn tile_of_char(c: char) -> Tile {
    if c == '*' {
        Tile::Empty
    } else {
        Tile::Prefilled(char_to_digit(c))
    }
}

/// The cells of a board loaded from 81 grid characters.
pub open spec fn cells_of(grid: Seq<char>) -> Seq<Tile> {
    Seq::new(81, |i: int| tile_of_char(grid[i]))
}

/// Extending the text by one character extends its grid characters by that
/// character, unless it is a line break, which leaves them unchanged.
proof fn lemma_grid_of_push(s: Seq<char>, c: char)
    ensures
        grid_of(s.push(c)) == if is_line_break(c) {
            grid_of(s)
        } else {
            grid_of(s).push(c)
        },
    decreases s.len(),
{
    if s.len() == 0 {
        assert(s.push(c).drop_first() =~= Seq::<char>::empty());
        if !is_line_break(c) {
            assert(seq![c] + grid_of(Seq::<char>::empty()) =~= grid_of(s).push(c));
        }
    } else {
        assert(s.push(c).drop_first() =~= s.drop_first().push(c));
        lemma_grid_of_push(s.drop_first(), c);
        if !is_line_break(s[0]) {
            if is_line_break(c) {
                assert(grid_of(s.push(c)) == seq![s[0]] + grid_of(s.drop_first()));
            } else {
                assert(seq![s[0]] + grid_of(s.drop_first()).push(c) =~= (seq![s[0]] + grid_of(
                    s.drop_first(),
                )).push(c));
            }
        }
    }
}

impl Board {
    /// Parses the puzzle file format: the characters of all lines
    /// concatenated, line breaks skipped, `*` for an empty cell and a digit
    /// for a pre-filled cell.  Fails on any other character, or when the
    /// text does not hold exactly 81 grid characters.
    pub fn from_text(content: &str) -> (r: Result<Board, PuzzleParseError>)
        ensures
            (r == Err::<Board, PuzzleParseError>(PuzzleParseError::BadCharacter) <==> exists|j: int|
                0 <= j < grid_of(content@).len() && !valid_grid_char(grid_of(content@)[j])),
            (r == Err::<Board, PuzzleParseError>(PuzzleParseError::WrongCellCount) <==> ((forall|
                j: int,
            |
                0 <= j < grid_of(content@).len() ==> valid_grid_char(grid_of(content@)[j]))
                && grid_of(content@).len() != 81)),
            r is Ok <==> ((forall|j: int|
                0 <= j < grid_of(content@).len() ==> valid_grid_char(grid_of(content@)[j]))
                && grid_of(content@).len() == 81),
            r is Ok ==> r->Ok_0.wf() && r->Ok_0.cells() == cells_of(grid_of(content@)),
    {
        let n = content.unicode_len();
        let mut tiles: Vec<Tile> = Vec::new();
        let mut bad: bool = false;
        let mut i: usize = 0;
        while i < n
            invariant
                i <= n,
                n == content@.len(),
                bad ==> exists|j: int|
                    0 <= j < grid_of(content@.take(i as int)).len() && !valid_grid_char(
                        grid_of(content@.take(i as int))[j],
                    ),
                !bad ==> {
                    &&& forall|j: int|
                        0 <= j < grid_of(content@.take(i as int)).len() ==> valid_grid_char(
                            grid_of(content@.take(i as int))[j],
                        )
                    &&& tiles@.len() == grid_of(content@.take(i as int)).len()
                    &&& forall|j: int|
                        0 <= j < tiles@.len() ==> tiles@[j] == tile_of_char(
                            grid_of(content@.take(i as int))[j],
                        )
                },
            decreases n - i,
        {
            let c = content.get_char(i);
            let ghost g0 = grid_of(content@.take(i as int));
            let ghost g1 = grid_of(content@.take(i + 1));
            proof {
                assert(content@.take(i + 1) =~= content@.take(i as int).push(content@[i as int]));
                lemma_grid_of_push(content@.take(i as int), content@[i as int]);
                if bad {
                    let j = choose|j: int| 0 <= j < g0.len() && !valid_grid_char(g0[j]);
                    assert(0 <= j < g1.len() && !valid_grid_char(g1[j]));
                }
            }
            if c == '\n' || c == '\r' {
                // a line break is not a grid character
            } else if c == '*' {
                if !bad {
                    tiles.push(Tile::Empty);
                }
            } else {
                match digit_value(c) {
                    Some(d) => {
                        if !bad {
                            tiles.push(Tile::Prefilled(d));
                        }
                    },
                    None => {
                        proof {
                            assert(g1 == g0.push(c));
                            assert(!valid_grid_char(g1[g0.len() as int]));
                        }
                        bad = true;
                    },
                }
            }
            i = i + 1;
        }
        proof {
            assert(content@.take(n as int) =~= content@);
        }
        if bad {
            Err(PuzzleParseError::BadCharacter)
        } else if tiles.len() != 81 {
            Err(PuzzleParseError::WrongCellCount)
        } else {
            let b = Board { tiles };
            proof {
                assert(b.cells() =~= cells_of(grid_of(content@)));
            }
            Ok(b)
        }
    }
}

/// The coordinate-to-index mapping is a bijection between valid coordinates
/// and the flat positions `0..=80`: every valid coordinate maps into range,
/// distinct coordinates map to distinct positions, and every position is hit.
pub proof fn lemma_index_bijective(r1: u8, c1: u8, r2: u8, c2: u8)
    requires
        coord_valid(r1, c1),
        coord_valid(r2, c2),
    ensures
        0 <= index_spec(r1, c1) <= 80,
        index_spec(r1, c1) == index_spec(r2, c2) ==> r1 == r2 && c1 == c2,
        forall|i: int|
            0 <= i <= 80 ==> #[trigger] index_spec(((i / 9) + 1) as u8, ((i % 9) + 1) as u8) == i,
{
}

/// Writing a value to a non-prefilled cell and then reading the same
/// coordinate returns the newly written value, and reading any other valid
/// coordinate returns what stood there before the write.
pub proof fn lemma_write_then_read(cells: Seq<Tile>, row: u8, col: u8, val: u8, r2: u8, c2: u8)
    requires
        cells.len() == 81,
        coord_valid(row, col),
        coord_valid(r2, c2),
        write_allowed(cells, row, col),
    ensures
        write_cells(cells, row, col, val)[index_spec(row, col)] == Tile::Filled(val),
        (r2 != row || c2 != col) ==> write_cells(cells, row, col, val)[index_spec(r2, c2)]
            == cells[index_spec(r2, c2)],
{
    lemma_index_bijective(row, col, r2, c2);
}

/// A cell that is `Prefilled` is never changed by any write: a write aimed
/// at it fails and leaves every cell as it was, a write aimed elsewhere
/// leaves it untouched, and it is still `Prefilled` afterwards, so every
/// later attempt fails just the same.
pub proof fn lemma_prefilled_immutable(cells: Seq<Tile>, row: u8, col: u8, val: u8, r2: u8, c2: u8)
    requires
        cells.len() == 81,
        coord_valid(row, col),
        coord_valid(r2, c2),
        cells[index_spec(r2, c2)] is Prefilled,
    ensures
        write_cells(cells, row, col, val)[index_spec(r2, c2)] == cells[index_spec(r2, c2)],
        !write_allowed(write_cells(cells, row, col, val), r2, c2),
        row == r2 && col == c2 ==> write_cells(cells, row, col, val) == cells,
{
    lemma_index_bijective(row, col, r2, c2);
}

} // verus!
