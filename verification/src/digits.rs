//! Decimal digits as characters: the conversions shared by puzzle-file
//! parsing, command parsing and board rendering.

use vstd::prelude::*;

verus! {

/// The character for a single decimal digit.
pub open spec fn digit_to_char(d: u8) -> char
    recommends
        d <= 9,
{
    if d == 0 {
        '0'
    } else if d == 1 {
        '1'
    } else if d == 2 {
        '2'
    } else if d == 3 {
        '3'
    } else if d == 4 {
        '4'
    } else if d == 5 {
        '5'
    } else if d == 6 {
        '6'
    } else if d == 7 {
        '7'
    } else if d == 8 {
        '8'
    } else {
        '9'
    }
}

/// The value of a decimal digit character; 10 for any other character.
pub open spec fn char_to_digit(c: char) -> u8 {
    if c == '0' {
        0
    } else if c == '1' {
        1
    } else if c == '2' {
        2
    } else if c == '3' {
        3
    } else if c == '4' {
        4
    } else if c == '5' {
        5
    } else if c == '6' {
        6
    } else if c == '7' {
        7
    } else if c == '8' {
        8
    } else if c == '9' {
        9
    } else {
        10
    }
}

/// Whether a character is an ASCII decimal digit.
pub open spec fn is_digit_char(c: char) -> bool {
    char_to_digit(c) <= 9
}

/// The decimal text of a value, without leading zeros.
pub open spec fn dec_chars(n: u8) -> Seq<char> {
    let a = n as int;
    if a < 10 {
        seq![digit_to_char(n)]
    } else if a < 100 {
        seq![digit_to_char((a / 10) as u8), digit_to_char((a % 10) as u8)]
    } else {
        seq![
            digit_to_char((a / 100) as u8),
            digit_to_char(((a / 10) % 10) as u8),
            digit_to_char((a % 10) as u8),
        ]
    }
}

/// The character for a digit value.
pub fn digit_char(d: u8) -> (c: char)
    requires
        d <= 9,
    ensures
        c == digit_to_char(d),
{
    match d {
        0 => '0',
        1 => '1',
        2 => '2',
        3 => '3',
        4 => '4',
        5 => '5',
        6 => '6',
        7 => '7',
        8 => '8',
        _ => '9',
    }
}

/// The digit value of a character, or `None` for a non-digit.
pub fn digit_value(c: char) -> (r: Option<u8>)
    ensures
        r == if is_digit_char(c) {
            Some(char_to_digit(c))
        } else {
            None::<u8>
        },
{
    match c {
        '0' => Some(0),
        '1' => Some(1),
        '2' => Some(2),
        '3' => Some(3),
        '4' => Some(4),
        '5' => Some(5),
        '6' => Some(6),
        '7' => Some(7),
        '8' => Some(8),
        '9' => Some(9),
        _ => None,
    }
}

} // verus!
