//! A deterministic tic-tac-toe decision engine, verified with Verus.
//!
//! The crate models a 3x3 board as nine cells in row-major order, reads and
//! writes the board as a nine-character text form, and decides the next move
//! of the side to play with a fixed, fully specified heuristic: win in one
//! move if possible, otherwise block the opponent, otherwise build the move
//! that creates the most simultaneous threats, otherwise fall back to the
//! center, a corner, or the first free cell.

pub mod board;
pub mod engine;
pub mod eval;
pub mod host;
pub mod response;
pub mod self_play;
pub mod text;

pub use board::Board;
pub use board::Cell;
pub use engine::MoveResult;
pub use response::GetMoveResponse;
pub use response::get_move_response;
pub use text::ParseError;
