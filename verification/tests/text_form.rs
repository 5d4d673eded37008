use tic_tac_toe::Board;
use tic_tac_toe::engine::MoveResult;
use tic_tac_toe::text::ParseError;

#[test]
fn test_serialization() {
    // Position:
    // X | O | O
    // ----------
    // O | _ | O
    // ----------
    // X | X | X
    let input = "XOOO.OXXX";
    let game = Board::from_text(input).unwrap();
    let output = game.to_text();
    assert_eq!(input, output.as_str());

    // Invalid character
    let input = "..A......";
    let err = Board::from_text(input).unwrap_err();
    let expected_err = ParseError::InvalidCharacter { position: 2, value: 'A' };
    assert_eq!(err, expected_err);

    // Too long
    let input = "..........";
    let err = Board::from_text(input).unwrap_err();
    let expected_err = ParseError::InvalidLength { expected: 9, actual: 10 };
    assert_eq!(err, expected_err);

    // Too short
    let input = "........";
    let err = Board::from_text(input).unwrap_err();
    let expected_err = ParseError::InvalidLength { expected: 9, actual: 8 };
    assert_eq!(err, expected_err);
}

#[test]
fn first_invalid_character_wins() {
    let err = Board::from_text("XO!.?.XOX").unwrap_err();
    assert_eq!(err, ParseError::InvalidCharacter { position: 2, value: '!' });
}

#[test]
fn empty_string_reports_length() {
    let err = Board::from_text("").unwrap_err();
    assert_eq!(err, ParseError::InvalidLength { expected: 9, actual: 0 });
}

#[test]
fn round_trip_of_reachable_boards() {
    // Walk the self-play game from the empty board and check that every
    // board met on the way survives the text round trip unchanged.
    let mut board = Board::empty();
    let mut steps = 0;
    loop {
        let written = board.to_text();
        let reread = Board::from_text(written.as_str()).unwrap();
        assert_eq!(written, reread.to_text());
        assert_eq!(board.to_text(), reread.to_text());
        match board.decide() {
            MoveResult::Move { board: next } => board = next,
            MoveResult::GameOver { .. } => break,
        }
        steps += 1;
        assert!(steps <= 9, "self-play must fill at most nine cells");
    }
}
