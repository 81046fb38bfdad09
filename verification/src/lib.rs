//! A library for nonogram (picross) puzzles: a rectangular grid of tri-state
//! tiles together with per-row and per-column run-length clues, a validation
//! predicate that checks the grid against the clues, a text formatter, the
//! cursor logic of an interactive view, and a parser for the line-oriented
//! puzzle file format.

pub mod formatter;
pub mod interactive;
pub mod nonogram;
pub mod nonogram_file;
pub mod parser;
pub mod storage;

pub use crate::formatter::Formatter;
pub use crate::nonogram::{Nonogram, Tile};
