//! The caller-facing request: one board state in, the engine's move out,
//! together with the winner once the game has ended.

use vstd::prelude::*;
use vstd::string::StringExecFns;

use crate::board::Board;
use crate::board::Cell;
use crate::engine::MoveResult;
use crate::engine::Outcome;
use crate::engine::decide_spec;
use crate::eval::is_terminal;
use crate::eval::winner_of;
use crate::text::ParseError;
use crate::text::board_text;
use crate::text::is_cell_char;
use crate::text::text_cells;

verus! {

/// What one request returns: the state after the engine's move (or the
/// unchanged input when the game was already over), and the winner's
/// name once the state is terminal.
#[derive(Debug)]
pub struct GetMoveResponse {
    pub updated_state: String,
    pub winner: Option<String>,
}

/// The reported name of a winner; a draw is reported as the name of the
/// free cell.
pub open spec fn winner_name(c: Cell) -> Seq<char> {
    match c {
        Cell::X => "X"@,
        Cell::O => "O"@,
        Cell::Empty => "Empty"@,
    }
}

/// Runtime form of [`winner_name`].
fn winner_text(c: Cell) -> (t: String)
    ensures
        t@ == winner_name(c),
{
    match c {
        Cell::X => String::from_str("X"),
        Cell::O => String::from_str("O"),
        Cell::Empty => String::from_str("Empty"),
    }
}

/// Serves one request: parses the state string, applies the engine once
/// for its move, and once more on the result to see whether that move
/// ended the game.
pub fn get_move_response(state: &str) -> (r: Result<GetMoveResponse, ParseError>)
    ensures
        match r {
            Ok(resp) => state@.len() == 9 && (forall|i: int|
                0 <= i < 9 ==> is_cell_char(state@[i])) && (match decide_spec(
                text_cells(state@),
            ) {
                Outcome::Next(ns) => resp.updated_state@ == board_text(ns) && (match resp.winner {
                    Some(w) => is_terminal(ns) && w@ == winner_name(winner_of(ns)),
                    None => !is_terminal(ns),
                }),
                Outcome::Over(w) => resp.updated_state@ == state@ && (match resp.winner {
                    Some(t) => t@ == winner_name(w),
                    None => false,
                }),
            }),
            Err(e) => match e {
                ParseError::InvalidLength { expected, actual } => state@.len() != 9 && expected
                    == 9 && actual == state@.len(),
                ParseError::InvalidCharacter { position, value } => state@.len() == 9 && position
                    < 9 && value == state@[position as int] && !is_cell_char(
                    state@[position as int],
                ) && (forall|j: int| 0 <= j < position ==> is_cell_char(state@[j])),
            },
        },
{
    let b = match Board::from_text(state) {
        Ok(b) => b,
        Err(e) => {
            return Err(e);
        },
    };
    match b.decide() {
        MoveResult::Move { board } => {
            let updated_state = board.to_text();
            let winner = match board.decide() {
                MoveResult::GameOver { winner } => Some(winner_text(winner)),
                MoveResult::Move { .. } => None,
            };
            Ok(GetMoveResponse { updated_state, winner })
        },
        MoveResult::GameOver { winner } => Ok(
            GetMoveResponse {
                updated_state: String::from_str(state),
                winner: Some(winner_text(winner)),
            },
        ),
    }
}

} // verus!
