//! A Minesweeper engine: grid geometry, mine placement, flood-fill reveal,
//! flagging, cursor movement and the first-move-safety rule, all verified.

pub mod cell;
pub mod geometry;
pub mod board;
mod flood;
mod random;
pub mod game;
pub mod laws;

pub use cell::Cell;
pub use board::{adjacent_mines, generate_cells, neighbor_indices, nth_free_cell, place_mines, Board, ConfigError, Direction};
pub use game::{Action, GameState, Minesweeper};
