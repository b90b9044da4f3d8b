//! Peg solitaire: the board, its cells, and the rules of jump moves.

pub mod board;
pub mod cell;
pub mod presets;
pub mod shape;

pub use board::{Board, BoardView};
pub use cell::{Cell, DecodeError};
pub use presets::{ASYMETRIC_BOARD, ENGLISH_BOARD, EUROPEAN_BOARD, WIEGLEB_BOARD};
pub use shape::ShapeError;
