//! Core of a character-cell terminal emulator: the styled cell grid with
//! scrollback, the escape-sequence interpreter that a session drives byte by
//! byte, and a text search over scrollback plus the live grid.

pub mod cell;
pub mod color;
pub mod grid;
pub mod search;
pub mod sgr;
pub mod term;
pub mod width;
