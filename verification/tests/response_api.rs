use tic_tac_toe::response::get_move_response;
use tic_tac_toe::text::ParseError;

#[test]
fn opening_request() {
    let resp = get_move_response(".........").unwrap();
    assert_eq!(resp.updated_state, "X........".to_string());
    assert_eq!(resp.winner, None);
}

#[test]
fn winning_move_reports_the_winner() {
    // The engine's own move finishes the game, so the winner rides
    // along with the updated state.
    let resp = get_move_response("X.XOO.X.O").unwrap();
    assert_eq!(resp.updated_state, "XXXOO.X.O".to_string());
    assert_eq!(resp.winner, Some("X".to_string()));
}

#[test]
fn finished_game_is_reported_unchanged() {
    let resp = get_move_response("XXXOO.X.O").unwrap();
    assert_eq!(resp.updated_state, "XXXOO.X.O".to_string());
    assert_eq!(resp.winner, Some("X".to_string()));
}

#[test]
fn drawn_board_reports_empty_winner() {
    let resp = get_move_response("XXOOOXXXO").unwrap();
    assert_eq!(resp.updated_state, "XXOOOXXXO".to_string());
    assert_eq!(resp.winner, Some("Empty".to_string()));
}

#[test]
fn last_move_draws_the_game() {
    // One cell left: the engine fills it and the game ends in a draw.
    let resp = get_move_response("XXOOOXXX.").unwrap();
    assert_eq!(resp.updated_state, "XXOOOXXXO".to_string());
    assert_eq!(resp.winner, Some("Empty".to_string()));
}

#[test]
fn bad_character_is_rejected() {
    let err = get_move_response("..A......").unwrap_err();
    assert_eq!(err, ParseError::InvalidCharacter { position: 2, value: 'A' });
}

#[test]
fn bad_length_is_rejected() {
    let err = get_move_response("....").unwrap_err();
    assert_eq!(err, ParseError::InvalidLength { expected: 9, actual: 4 });
}
