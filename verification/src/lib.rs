//! An N-in-a-row game on a square grid, played by a human against an
//! automated player.
//!
//! The library holds the board and its winning lines, the detection of a
//! finished game, the selection of the automated player's next move, the
//! turns of a game, and the text that goes in and out: a line of input that
//! names a cell, the board as it is shown, and a short notation for boards.
//! It reads and prints nothing itself.
//!
//! Contracts speak of a board through its view, a `BoardView`, and of
//! winning lines through `lines::win_line`. Every board and game that the
//! library hands out is well formed (`wf`), and every function that takes
//! one asks for that.

pub mod board;
pub mod cell;
pub mod driver;
pub mod engine;
pub mod input;
pub mod lines;
pub mod notation;
pub mod outcome;

pub use board::Board;
pub use cell::{Cell, GameOver};
pub use driver::{Game, Turn};
pub use input::InputError;
