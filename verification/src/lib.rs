//! A 9x9 Sudoku board viewer/editor library.
//!
//! The board holds 81 cells in row-major order.  Cells that were part of the
//! original puzzle are immutable; all other cells may be freely overwritten.
//! The library also parses the puzzle file format (digits and `*`), parses
//! the line-based read/write command language, and renders the board as text.

pub mod board;
pub mod command;
pub mod digits;
pub mod render;
mod text;
