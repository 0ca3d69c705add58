//! Rendering the board as a textual grid.
//!
//! The text is a header labelling the columns, then the nine rows with a
//! horizontal separator line before rows 0, 3 and 6, each row prefixed by
//! its label and `|` and with `|` after every third cell, and a closing
//! separator line.  Cells render as their digits, empty cells as `.`.

use vstd::prelude::*;
use vstd::string::StringExecFns;
use crate::board::{cells_of, valid_grid_char, Board, Coord, Tile};
use crate::digits::{dec_chars, digit_char, digit_to_char};
use crate::text::push_char;

verus! {

/// The header line labelling the columns.
pub open spec fn header_text() -> Seq<char> {
    seq![' ', ' ', '1', '2', '3', ' ', '4', '5', '6', ' ', '7', '8', '9', '\n']
}

/// The horizontal separator line drawn before rows 0, 3 and 6.
pub open spec fn separator_text() -> Seq<char> {
    seq![' ', ' ', '-', '-', '-', ' ', '-', '-', '-', ' ', '-', '-', '-', '\n']
}

/// The closing separator line, without a trailing line break.
pub open spec fn footer_text() -> Seq<char> {
    seq![' ', '-', '-', '-', ' ', '-', '-', '-', ' ', '-', '-', '-']
}

/// The text of one cell: its digits, or `.` when it is empty.
pub open spec fn tile_text(t: Tile) -> Seq<char> {
    match t {
        Tile::Prefilled(d) => dec_chars(d),
        Tile::Filled(d) => dec_chars(d),
        Tile::Empty => seq!['.'],
    }
}

/// The horizontal separator before row `r`, which is empty unless `r` is a
/// multiple of three.
pub open spec fn row_sep(r: int) -> Seq<char> {
    if r % 3 == 0 {
        separator_text()
    } else {
        Seq::empty()
    }
}

/// The text of the first `c` cells of row `r`: each cell's text, with `|`
/// after every third cell.
pub open spec fn row_body_upto(cells: Seq<Tile>, r: int, c: int) -> Seq<char>
    decreases c,
{
    if c <= 0 {
        Seq::empty()
    } else {
        row_body_upto(cells, r, c - 1) + tile_text(cells[r * 9 + (c - 1)]) + if (c - 1) % 3 == 2 {
            seq!['|']
        } else {
            Seq::empty()
        }
    }
}

/// The full line of row `r`: its separator, its label, `|`, its nine cells
/// and a line break.
pub open spec fn row_line(cells: Seq<Tile>, r: int) -> Seq<char> {
    row_sep(r) + seq![digit_to_char((r + 1) as u8), '|'] + row_body_upto(cells, r, 9) + seq!['\n']
}

/// The lines of the first `r` rows.
pub open spec fn rows_text_upto(cells: Seq<Tile>, r: int) -> Seq<char>
    decreases r,
{
    if r <= 0 {
        Seq::empty()
    } else {
        rows_text_upto(cells, r - 1) + row_line(cells, r - 1)
    }
}

/// The complete rendered text of a board.
pub open spec fn render_spec(cells: Seq<Tile>) -> Seq<char> {
    header_text() + rows_text_upto(cells, 9) + footer_text()
}

/// How a grid character of the puzzle file shows up in the rendered text:
/// `*` as `.`, a digit as itself.
pub open spec fn grid_char_text(ch: char) -> char {
    if ch == '*' {
        '.'
    } else {
        ch
    }
}

/// The rendered line of row `r` of a freshly loaded grid: the row label,
/// the nine grid characters of the row in order, and `|` before the cells
/// and after every third one.
pub open spec fn grid_row_line(grid: Seq<char>, r: int) -> Seq<char> {
    seq![
        digit_to_char((r + 1) as u8),
        '|',
        grid_char_text(grid[r * 9 + 0]),
        grid_char_text(grid[r * 9 + 1]),
        grid_char_text(grid[r * 9 + 2]),
        '|',
        grid_char_text(grid[r * 9 + 3]),
        grid_char_text(grid[r * 9 + 4]),
        grid_char_text(grid[r * 9 + 5]),
        '|',
        grid_char_text(grid[r * 9 + 6]),
        grid_char_text(grid[r * 9 + 7]),
        grid_char_text(grid[r * 9 + 8]),
        '|',
        '\n',
    ]
}

/// One row of a freshly loaded board renders as its grid characters in
/// order, behind its separator where the row starts a group of three.
proof fn lemma_grid_row_line(grid: Seq<char>, r: int)
    requires
        grid.len() == 81,
        forall|j: int| 0 <= j < 81 ==> valid_grid_char(grid[j]),
        0 <= r < 9,
    ensures
        row_line(cells_of(grid), r) == row_sep(r) + grid_row_line(grid, r),
{
    reveal_with_fuel(row_body_upto, 10);
    let cells = cells_of(grid);
    assert forall|c: int| 0 <= c < 9 implies #[trigger] tile_text(cells[r * 9 + c]) == seq![
        grid_char_text(grid[r * 9 + c]),
    ] by {
        assert(valid_grid_char(grid[r * 9 + c]));
        assert(tile_text(cells[r * 9 + c]) =~= seq![grid_char_text(grid[r * 9 + c])]);
    }
    assert(seq![digit_to_char((r + 1) as u8), '|'] + row_body_upto(cells, r, 9) + seq!['\n']
        =~= grid_row_line(grid, r));
    assert(row_line(cells, r) =~= row_sep(r) + grid_row_line(grid, r));
}

/// Loading a grid of digits and `*` and rendering the board shows the grid
/// characters in the same row-major order as the input, with the separator
/// lines before rows 0, 3 and 6 and after the last row, and `|` around
/// every group of three columns.
pub proof fn lemma_load_render(grid: Seq<char>)
    requires
        grid.len() == 81,
        forall|j: int| 0 <= j < 81 ==> valid_grid_char(grid[j]),
    ensures
        render_spec(cells_of(grid)) == header_text() + separator_text() + grid_row_line(grid, 0)
            + grid_row_line(grid, 1) + grid_row_line(grid, 2) + separator_text() + grid_row_line(
            grid,
            3,
        ) + grid_row_line(grid, 4) + grid_row_line(grid, 5) + separator_text() + grid_row_line(
            grid,
            6,
        ) + grid_row_line(grid, 7) + grid_row_line(grid, 8) + footer_text(),
{
    reveal_with_fuel(rows_text_upto, 10);
    let cells = cells_of(grid);
    lemma_grid_row_line(grid, 0);
    lemma_grid_row_line(grid, 1);
    lemma_grid_row_line(grid, 2);
    lemma_grid_row_line(grid, 3);
    lemma_grid_row_line(grid, 4);
    lemma_grid_row_line(grid, 5);
    lemma_grid_row_line(grid, 6);
    lemma_grid_row_line(grid, 7);
    lemma_grid_row_line(grid, 8);
    assert(render_spec(cells) =~= header_text() + separator_text() + grid_row_line(grid, 0)
        + grid_row_line(grid, 1) + grid_row_line(grid, 2) + separator_text() + grid_row_line(
        grid,
        3,
    ) + grid_row_line(grid, 4) + grid_row_line(grid, 5) + separator_text() + grid_row_line(grid, 6)
        + grid_row_line(grid, 7) + grid_row_line(grid, 8) + footer_text());
}

/// Rendering is deterministic: the rendered text is a function of the
/// cells alone, so rendering a board twice without a change in between
/// yields identical text.
pub proof fn lemma_render_deterministic(cells: Seq<Tile>, out1: Seq<char>, out2: Seq<char>)
    requires
        out1 == render_spec(cells),
        out2 == render_spec(cells),
    ensures
        out1 == out2,
{
}

/// Appends the header line.
fn append_header(s: &mut String)
    ensures
        final(s)@ == old(s)@ + header_text(),
{
    s.append("  123 456 789\n");
    proof {
        reveal_strlit("  123 456 789\n");
        assert(("  123 456 789\n")@ =~= header_text());
    }
}

/// Appends the horizontal separator line.
fn append_separator(s: &mut String)
    ensures
        final(s)@ == old(s)@ + separator_text(),
{
    s.append("  --- --- ---\n");
    proof {
        reveal_strlit("  --- --- ---\n");
        assert(("  --- --- ---\n")@ =~= separator_text());
    }
}

/// Appends the closing separator line.
fn append_footer(s: &mut String)
    ensures
        final(s)@ == old(s)@ + footer_text(),
{
    s.append(" --- --- ---");
    proof {
        reveal_strlit(" --- --- ---");
        assert((" --- --- ---")@ =~= footer_text());
    }
}

/// Appends the decimal text of a value.
fn dec_push(s: &mut String, n: u8)
    ensures
        final(s)@ == old(s)@ + dec_chars(n),
{
    if n < 10 {
        push_char(s, digit_char(n));
        proof {
            assert(old(s)@.push(digit_to_char(n)) =~= old(s)@ + dec_chars(n));
        }
    } else if n < 100 {
        push_char(s, digit_char(n / 10));
        push_char(s, digit_char(n % 10));
        proof {
            assert(old(s)@.push(digit_to_char((n / 10) as u8)).push(digit_to_char((n % 10) as u8))
                =~= old(s)@ + dec_chars(n));
        }
    } else {
        push_char(s, digit_char(n / 100));
        push_char(s, digit_char((n / 10) % 10));
        push_char(s, digit_char(n % 10));
        proof {
            assert(old(s)@.push(digit_to_char((n / 100) as u8)).push(
                digit_to_char(((n / 10) % 10) as u8),
            ).push(digit_to_char((n % 10) as u8)) =~= old(s)@ + dec_chars(n));
        }
    }
}

/// Appends the text of one cell.
fn tile_push(s: &mut String, t: Tile)
    ensures
        final(s)@ == old(s)@ + tile_text(t),
{
    match t {
        Tile::Prefilled(d) => dec_push(s, d),
        Tile::Filled(d) => dec_push(s, d),
        Tile::Empty => {
            push_char(s, '.');
            proof {
                assert(old(s)@.push('.') =~= old(s)@ + tile_text(t));
            }
        },
    }
}

impl Tile {
    /// The text of this cell alone: its digits, or `.` when it is empty.
    pub fn to_text(&self) -> (out: String)
        ensures
            out@ == tile_text(*self),
    {
        let mut s = String::new();
        tile_push(&mut s, *self);
        proof {
            assert(s@ =~= tile_text(*self));
        }
        s
    }
}

impl Board {
    /// Renders the board as text.  The result is a function of the cells
    /// alone, so rendering an unchanged board twice yields identical text.
    pub fn render(&self) -> (out: String)
        requires
            self.wf(),
        ensures
            out@ == render_spec(self.cells()),
    {
        let ghost cells = self.cells();
        let mut s = String::new();
        append_header(&mut s);
        let mut r: usize = 0;
        while r < 9
            invariant
                r <= 9,
                self.wf(),
                cells == self.cells(),
                s@ == header_text() + rows_text_upto(cells, r as int),
            decreases 9 - r,
        {
            if r % 3 == 0 {
                append_separator(&mut s);
            }
            push_char(&mut s, digit_char((r + 1) as u8));
            push_char(&mut s, '|');
            proof {
                assert(s@ =~= header_text() + rows_text_upto(cells, r as int) + row_sep(r as int)
                    + seq![digit_to_char((r + 1) as u8), '|'] + row_body_upto(
                    cells,
                    r as int,
                    0,
                ));
            }
            let mut c: usize = 0;
            while c < 9
                invariant
                    c <= 9,
                    r < 9,
                    self.wf(),
                    cells == self.cells(),
                    s@ == header_text() + rows_text_upto(cells, r as int) + row_sep(r as int)
                        + seq![digit_to_char((r + 1) as u8), '|'] + row_body_upto(
                        cells,
                        r as int,
                        c as int,
                    ),
                decreases 9 - c,
            {
                let t = *self.get(&Coord((r + 1) as u8, (c + 1) as u8));
                tile_push(&mut s, t);
                if c % 3 == 2 {
                    push_char(&mut s, '|');
                }
                proof {
                    assert(t == cells[r as int * 9 + c as int]);
                    assert(s@ =~= header_text() + rows_text_upto(cells, r as int) + row_sep(
                        r as int,
                    ) + seq![digit_to_char((r + 1) as u8), '|'] + row_body_upto(
                        cells,
                        r as int,
                        c as int + 1,
                    ));
                }
                c = c + 1;
            }
            push_char(&mut s, '\n');
            proof {
                assert(s@ =~= header_text() + rows_text_upto(cells, r as int + 1));
            }
            r = r + 1;
        }
        append_footer(&mut s);
        proof {
            assert(s@ =~= render_spec(cells));
        }
        s
    }
}

} // verus!
