//! The command language: one command per line, tokens separated by single
//! spaces, each token trimmed of surrounding whitespace.  Two tokens form a
//! read command, three a write command.

use vstd::prelude::*;
use vstd::string::StrSliceExecFns;
use crate::board::Coord;
use crate::digits::{char_to_digit, digit_value, is_digit_char};

verus! {

/// A parsed command: read the cell at a coordinate, or write a value to it.
#[derive(Clone, Copy, Debug, PartialEq, Eq, Structural)]
pub enum Action {
    Write(Coord, u8),
    Read(Coord),
}

/// Error returned when a command line cannot be parsed.
#[derive(Clone, Copy, Debug, PartialEq, Eq, Structural)]
pub enum CommandParseError {
    /// The line does not hold exactly two or three tokens.
    BadTokenCount,
    /// A token is not the decimal text of a value in `0..=255`.
    BadNumber,
}

/// The index of the first space of the text, or its length if it has none.
pub open spec fn first_space(s: Seq<char>) -> int
    decreases s.len(),
{
    if s.len() == 0 {
        0
    } else if s[0] == ' ' {
        0
    } else {
        1 + first_space(s.drop_first())
    }
}

/// The first-space index lies between 0 and the length of the text.
pub proof fn lemma_first_space_bounds(s: Seq<char>)
    ensures
        0 <= first_space(s) <= s.len(),
    decreases s.len(),
{
    if s.len() > 0 && s[0] != ' ' {
        lemma_first_space_bounds(s.drop_first());
    }
}

/// The tokens of the text, split on single spaces; always at least one.
pub open spec fn split_spec(s: Seq<char>) -> Seq<Seq<char>>
    decreases s.len(),
{
    let i = first_space(s);
    if i == s.len() {
        seq![s]
    } else {
        proof {
            lemma_first_space_bounds(s);
        }
        seq![s.take(i)] + split_spec(s.subrange(i + 1, s.len() as int))
    }
}

/// Whether a character counts as trimmable whitespace.
pub open spec fn is_ws(c: char) -> bool {
    c == ' ' || c == '\t' || c == '\n' || c == '\r'
}

/// The text with its leading whitespace removed.
pub open spec fn trim_left(s: Seq<char>) -> Seq<char>
    decreases s.len(),
{
    if s.len() > 0 && is_ws(s[0]) {
        trim_left(s.drop_first())
    } else {
        s
    }
}

/// The text with its trailing whitespace removed.
pub open spec fn trim_right(s: Seq<char>) -> Seq<char>
    decreases s.len(),
{
    if s.len() > 0 && is_ws(s.last()) {
        trim_right(s.drop_last())
    } else {
        s
    }
}

/// The text with leading and trailing whitespace removed.
pub open spec fn trim_spec(s: Seq<char>) -> Seq<char> {
    trim_right(trim_left(s))
}

/// Whether every character of the text is a decimal digit.
pub open spec fn all_digits(t: Seq<char>) -> bool {
    forall|i: int| 0 <= i < t.len() ==> is_digit_char(t[i])
}

/// The number the digits of the text denote, read in base ten.
pub open spec fn digits_val(t: Seq<char>) -> nat
    decreases t.len(),
{
    if t.len() == 0 {
        0
    } else {
        (digits_val(t.drop_last()) * 10 + char_to_digit(t.last())) as nat
    }
}

/// Whether a token is the decimal text of a value in `0..=255`.
pub open spec fn token_number_ok(t: Seq<char>) -> bool {
    t.len() > 0 && all_digits(t) && digits_val(t) <= 255
}

/// `first_space` is the first index that holds a space: no space stands
/// before it, and it is the length when the text has no space at all.
proof fn lemma_first_space_at(s: Seq<char>, i: int)
    requires
        0 <= i <= s.len(),
        forall|k: int| 0 <= k < i ==> s[k] != ' ',
        i < s.len() ==> s[i] == ' ',
    ensures
        first_space(s) == i,
    decreases i,
{
    if i == 0 {
        if s.len() > 0 && s[0] != ' ' {
            // i == 0 < s.len() would force s[0] == ' '
        }
    } else {
        lemma_first_space_at(s.drop_first(), i - 1);
    }
}

/// Removing leading whitespace keeps exactly the part from the first
/// non-whitespace character on.
proof fn lemma_trim_left_at(s: Seq<char>, a: int)
    requires
        0 <= a <= s.len(),
        forall|k: int| 0 <= k < a ==> is_ws(s[k]),
        a < s.len() ==> !is_ws(s[a]),
    ensures
        trim_left(s) == s.subrange(a, s.len() as int),
    decreases a,
{
    if a == 0 {
        assert(s.subrange(0, s.len() as int) =~= s);
    } else {
        lemma_trim_left_at(s.drop_first(), a - 1);
        assert(s.drop_first().subrange(a - 1, s.drop_first().len() as int) =~= s.subrange(
            a,
            s.len() as int,
        ));
    }
}

/// Removing trailing whitespace keeps exactly the part up to the last
/// non-whitespace character.
proof fn lemma_trim_right_at(s: Seq<char>, b: int)
    requires
        0 <= b <= s.len(),
        forall|k: int| b <= k < s.len() ==> is_ws(s[k]),
        b > 0 ==> !is_ws(s[b - 1]),
    ensures
        trim_right(s) == s.take(b),
    decreases s.len() - b,
{
    if b == s.len() {
        assert(s.take(b) =~= s);
    } else {
        lemma_trim_right_at(s.drop_last(), b);
        assert(s.drop_last().take(b) =~= s.take(b));
    }
}

/// Whether a character counts as trimmable whitespace.
fn is_ws_char(c: char) -> (r: bool)
    ensures
        r == is_ws(c),
{
    c == ' ' || c == '\t' || c == '\n' || c == '\r'
}

/// Splits a line on single spaces, keeping empty tokens.
fn tokenize<'a>(input: &'a str) -> (toks: Vec<&'a str>)
    ensures
        toks@.map_values(|t: &str| t@) == split_spec(input@),
{
    let n = input.unicode_len();
    let mut toks: Vec<&str> = Vec::new();
    let mut pos: usize = 0;
    let mut done = false;
    proof {
        assert(input@.subrange(0, n as int) =~= input@);
        assert(toks@.map_values(|t: &str| t@) + split_spec(input@) =~= split_spec(input@));
    }
    while !done
        invariant
            pos <= n,
            n == input@.len(),
            !done ==> split_spec(input@) == toks@.map_values(|t: &str| t@) + split_spec(
                input@.subrange(pos as int, n as int),
            ),
            done ==> split_spec(input@) == toks@.map_values(|t: &str| t@),
        decreases n - pos + (if done {
            0int
        } else {
            1int
        }),
    {
        let ghost rem = input@.subrange(pos as int, n as int);
        let mut j = pos;
        while j < n && input.get_char(j) != ' '
            invariant
                pos <= j <= n,
                n == input@.len(),
                forall|k: int| pos <= k < j ==> input@[k] != ' ',
            decreases n - j,
        {
            j = j + 1;
        }
        proof {
            assert forall|k: int| 0 <= k < j - pos implies rem[k] != ' ' by {
                assert(rem[k] == input@[pos + k]);
            }
            lemma_first_space_at(rem, j - pos);
        }
        let tok = input.substring_char(pos, j);
        proof {
            assert(tok@ =~= rem.take(j - pos));
            assert((toks@.push(tok)).map_values(|t: &str| t@) =~= toks@.map_values(|t: &str| t@)
                + seq![tok@]);
        }
        toks.push(tok);
        if j == n {
            proof {
                assert(rem.take(j - pos) =~= rem);
            }
            done = true;
        } else {
            proof {
                assert(rem.subrange(j - pos + 1, rem.len() as int) =~= input@.subrange(
                    j + 1,
                    n as int,
                ));
            }
            pos = j + 1;
        }
    }
    toks
}

/// Removes leading and trailing whitespace from a token.
fn trim_token<'a>(t: &'a str) -> (r: &'a str)
    ensures
        r@ == trim_spec(t@),
{
    let n = t.unicode_len();
    let mut a: usize = 0;
    while a < n && is_ws_char(t.get_char(a))
        invariant
            a <= n,
            n == t@.len(),
            forall|k: int| 0 <= k < a ==> is_ws(t@[k]),
        decreases n - a,
    {
        a = a + 1;
    }
    let mut b: usize = n;
    while b > a && is_ws_char(t.get_char(b - 1))
        invariant
            a <= b <= n,
            n == t@.len(),
            forall|k: int| b <= k < n ==> is_ws(t@[k]),
        decreases b,
    {
        b = b - 1;
    }
    proof {
        lemma_trim_left_at(t@, a as int);
        let u = t@.subrange(a as int, n as int);
        assert forall|k: int| b - a <= k < u.len() implies is_ws(u[k]) by {
            assert(u[k] == t@[a + k]);
        }
        if b > a {
            assert(u[b - a - 1] == t@[b - 1]);
        }
        lemma_trim_right_at(u, b - a);
        assert(u.take(b - a) =~= t@.subrange(a as int, b as int));
    }
    t.substring_char(a, b)
}

/// Parses a token as the decimal text of a value in `0..=255`.
fn parse_u8_token(t: &str) -> (r: Option<u8>)
    ensures
        r is Some <==> token_number_ok(t@),
        token_number_ok(t@) ==> r == Some(digits_val(t@) as u8),
{
    let n = t.unicode_len();
    if n == 0 {
        return None;
    }
    let mut acc: u32 = 0;
    let mut i: usize = 0;
    while i < n
        invariant
            i <= n,
            n == t@.len(),
            acc <= 255,
            acc == digits_val(t@.take(i as int)),
            forall|k: int| 0 <= k < i ==> is_digit_char(t@[k]),
        decreases n - i,
    {
        let c = t.get_char(i);
        proof {
            assert(t@.take(i + 1).drop_last() =~= t@.take(i as int));
            assert(t@.take(i + 1).last() == t@[i as int]);
        }
        match digit_value(c) {
            None => {
                return None;
            },
            Some(d) => {
                let next = acc * 10 + (d as u32);
                if next > 255 {
                    proof {
                        lemma_digits_val_mono(t@, i + 1);
                    }
                    return None;
                }
                acc = next;
            },
        }
        i = i + 1;
    }
    proof {
        assert(t@.take(n as int) =~= t@);
    }
    Some(acc as u8)
}

/// Parses the two tokens of a read command as row and column.
pub fn read_coord(r: &str, c: &str) -> (res: Result<Action, CommandParseError>)
    ensures
        res is Ok <==> token_number_ok(r@) && token_number_ok(c@),
        res is Ok ==> res == Ok::<Action, CommandParseError>(
            Action::Read(Coord(digits_val(r@) as u8, digits_val(c@) as u8)),
        ),
        res is Err ==> res == Err::<Action, CommandParseError>(CommandParseError::BadNumber),
{
    let row = parse_u8_token(r);
    let col = parse_u8_token(c);
    match (row, col) {
        (Some(row), Some(col)) => Ok(Action::Read(Coord(row, col))),
        _ => Err(CommandParseError::BadNumber),
    }
}

/// Parses the three tokens of a write command as row, column and value.
pub fn write_coord(row: &str, col: &str, val: &str) -> (res: Result<Action, CommandParseError>)
    ensures
        res is Ok <==> token_number_ok(row@) && token_number_ok(col@) && token_number_ok(val@),
        res is Ok ==> res == Ok::<Action, CommandParseError>(
            Action::Write(
                Coord(digits_val(row@) as u8, digits_val(col@) as u8),
                digits_val(val@) as u8,
            ),
        ),
        res is Err ==> res == Err::<Action, CommandParseError>(CommandParseError::BadNumber),
{
    let r = parse_u8_token(row);
    let c = parse_u8_token(col);
    let v = parse_u8_token(val);
    match (r, c, v) {
        (Some(r), Some(c), Some(v)) => Ok(Action::Write(Coord(r, c), v)),
        _ => Err(CommandParseError::BadNumber),
    }
}

/// The trimmed tokens of a command line.
pub open spec fn line_tokens(s: Seq<char>) -> Seq<Seq<char>> {
    split_spec(s).map_values(|t: Seq<char>| trim_spec(t))
}

/// Parses one command line: splits it on single spaces, trims each token,
/// and reads two tokens as a read command or three as a write command.
pub fn parse_input_coords(input: &str) -> (res: Result<Action, CommandParseError>)
    ensures
        line_tokens(input@).len() == 2 ==> res == (if token_number_ok(line_tokens(input@)[0])
            && token_number_ok(line_tokens(input@)[1]) {
            Ok::<Action, CommandParseError>(
                Action::Read(
                    Coord(
                        digits_val(line_tokens(input@)[0]) as u8,
                        digits_val(line_tokens(input@)[1]) as u8,
                    ),
                ),
            )
        } else {
            Err::<Action, CommandParseError>(CommandParseError::BadNumber)
        }),
        line_tokens(input@).len() == 3 ==> res == (if token_number_ok(line_tokens(input@)[0])
            && token_number_ok(line_tokens(input@)[1]) && token_number_ok(
            line_tokens(input@)[2],
        ) {
            Ok::<Action, CommandParseError>(
                Action::Write(
                    Coord(
                        digits_val(line_tokens(input@)[0]) as u8,
                        digits_val(line_tokens(input@)[1]) as u8,
                    ),
                    digits_val(line_tokens(input@)[2]) as u8,
                ),
            )
        } else {
            Err::<Action, CommandParseError>(CommandParseError::BadNumber)
        }),
        line_tokens(input@).len() != 2 && line_tokens(input@).len() != 3 ==> res == Err::<
            Action,
            CommandParseError,
        >(CommandParseError::BadTokenCount),
{
    let toks = tokenize(input);
    let mut trimmed: Vec<&str> = Vec::new();
    let mut i: usize = 0;
    while i < toks.len()
        invariant
            i <= toks@.len(),
            toks@.map_values(|t: &str| t@) == split_spec(input@),
            trimmed@.len() == i,
            forall|k: int| 0 <= k < i ==> trimmed@[k]@ == line_tokens(input@)[k],
        decreases toks@.len() - i,
    {
        let t = trim_token(toks[i]);
        proof {
            assert(toks@.map_values(|t: &str| t@)[i as int] == toks@[i as int]@);
            assert(line_tokens(input@)[i as int] == trim_spec(split_spec(input@)[i as int]));
        }
        trimmed.push(t);
        i = i + 1;
    }
    proof {
        assert(line_tokens(input@).len() == split_spec(input@).len());
        assert(trimmed@.len() == line_tokens(input@).len());
    }
    if trimmed.len() == 2 {
        read_coord(trimmed[0], trimmed[1])
    } else if trimmed.len() == 3 {
        write_coord(trimmed[0], trimmed[1], trimmed[2])
    } else {
        Err(CommandParseError::BadTokenCount)
    }
}

/// Reading more digits never makes the denoted number smaller.
proof fn lemma_digits_val_mono(t: Seq<char>, i: int)
    requires
        0 <= i <= t.len(),
    ensures
        digits_val(t.take(i)) <= digits_val(t),
    decreases t.len() - i,
{
    if i == t.len() {
        assert(t.take(i) =~= t);
    } else {
        assert(t.take(i + 1).drop_last() =~= t.take(i));
        lemma_digits_val_mono(t, i + 1);
    }
}

} // verus!
