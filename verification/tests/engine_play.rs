use tic_tac_toe::Board;
use tic_tac_toe::Cell;
use tic_tac_toe::engine::MoveResult;

fn unwrap_move(result: MoveResult) -> Board {
    match result {
        MoveResult::Move { board } => board,
        MoveResult::GameOver { .. } => panic!("Unexpected win!"),
    }
}

fn unwrap_winner(result: MoveResult) -> Cell {
    match result {
        MoveResult::GameOver { winner } => winner,
        MoveResult::Move { .. } => panic!("Unexpected move!"),
    }
}

fn parsed(text: &str) -> Board {
    Board::from_text(text).unwrap()
}

#[test]
fn test_self_game() {
    // The bot should always draw when playing itself.
    let mut state = Board::empty();
    let mut steps = 0;
    let winner = loop {
        match state.decide() {
            MoveResult::Move { board } => state = board,
            MoveResult::GameOver { winner } => break winner,
        }
        steps += 1;
        assert!(steps <= 9, "self-play must end within nine moves");
    };
    assert_eq!(winner, Cell::Empty);
}

#[test]
fn test_x_win() {
    // The bot should win as X against a bad player.

    // First move: X in the corner
    let mut state = unwrap_move(Board::empty().decide());
    assert_eq!(state.to_text(), "X........");

    // Second move: O in opposite corner
    state = parsed("X.......O");

    // Third move: X creates a threat
    state = unwrap_move(state.decide());
    assert_eq!(state.to_text(), "X.....X.O");

    // Fourth move: O blocks
    state = parsed("X..O..X.O");

    // Fifth move: X creates a fork
    state = unwrap_move(state.decide());
    assert_eq!(state.to_text(), "X.XO..X.O");

    // Sixth move: O blocks one branch
    state = parsed("X.XOO.X.O");

    // Seventh move: X plays the win
    state = unwrap_move(state.decide());
    assert_eq!(state.to_text(), "XXXOO.X.O");

    // Game over.
    let winner = unwrap_winner(state.decide());
    assert_eq!(winner, Cell::X);
}

#[test]
fn test_o_win() {
    // The bot should win as O against a bad player.

    // First move: X in the corner
    let mut state = parsed("X........");

    // Second move: O in the center
    state = unwrap_move(state.decide());
    assert_eq!(state.to_text(), "X...O....");

    // Third move: X in the lower corner
    state = parsed("X...O...X");

    // Fourth move: O creates a threat
    state = unwrap_move(state.decide());
    assert_eq!(state.to_text(), "X...O..OX");

    // Fifth move: X creates a fork but misses that O is about to win
    state = parsed("X.X.O..OX");

    // Sixth move: O make 3 in a row
    state = unwrap_move(state.decide());
    assert_eq!(state.to_text(), "XOX.O..OX");

    // Game over.
    let winner = unwrap_winner(state.decide());
    assert_eq!(winner, Cell::O);
}

#[test]
fn opening_move_is_the_corner() {
    let next = unwrap_move(parsed(".........").decide());
    assert_eq!(next.to_text(), "X........");
}

#[test]
fn reply_takes_the_center() {
    let next = unwrap_move(parsed("....X....").decide());
    assert_eq!(next.to_text(), "O...X....");
}

#[test]
fn terminal_state_rejects_further_moves() {
    // A won board is reported as over, and reported the same way again.
    let state = parsed("XXXOO.X.O");
    let first = unwrap_winner(state.decide());
    let second = unwrap_winner(state.decide());
    assert_eq!(first, Cell::X);
    assert_eq!(second, Cell::X);

    // A drawn board as well.
    let drawn = parsed("XXOOOXXXO");
    assert_eq!(unwrap_winner(drawn.decide()), Cell::Empty);
    assert_eq!(unwrap_winner(drawn.decide()), Cell::Empty);
}

#[test]
fn tie_break_prefers_the_later_cell() {
    // X to play; the moves at cells 3 and 4 each create two threats,
    // every other move creates fewer. The later cell must win the tie.
    let next = unwrap_move(parsed(".....XXOO").decide());
    assert_eq!(next.to_text(), "....XXXOO");
}

#[test]
fn tie_break_among_single_threat_moves() {
    // X to play; the moves at cells 0, 2, 4 and 5 each create one
    // threat. The last of them is played.
    let next = unwrap_move(parsed(".......OX").decide());
    assert_eq!(next.to_text(), ".....X.OX");
}

#[test]
fn forced_move_fills_the_last_cell() {
    let next = unwrap_move(parsed("XXOOOXXX.").decide());
    assert_eq!(next.to_text(), "XXOOOXXXO");
}

#[test]
fn immediate_win_beats_the_block() {
    // O to play; X threatens the top row, but O can complete the middle
    // row at once, and the win rule comes before the block rule.
    let next = unwrap_move(parsed("XX.OO.X..").decide());
    assert_eq!(next.to_text(), "XX.OOOX..");
}

#[test]
fn block_stops_the_opponent() {
    // O to play; X threatens the top row, O must take cell 2.
    let next = unwrap_move(parsed("XX..O....").decide());
    assert_eq!(next.to_text(), "XXO.O....");
}

#[test]
fn fallback_takes_the_center() {
    // O to play; no win, no threat on either side: the center is free
    // and is taken.
    let next = unwrap_move(parsed("...X.O..X").decide());
    assert_eq!(next.to_text(), "...XOO..X");
}

#[test]
fn fallback_takes_the_first_free_corner() {
    // O to play; center taken, nothing to win, block or fork: the first
    // free corner is taken.
    let next = unwrap_move(parsed("..XXOOOXX").decide());
    assert_eq!(next.to_text(), "O.XXOOOXX");
}

#[test]
fn fallback_takes_the_first_free_cell() {
    // O to play; center and all corners taken, nothing to win, block or
    // fork: the first free cell is taken.
    let next = unwrap_move(parsed("X.OOXXX.O").decide());
    assert_eq!(next.to_text(), "XOOOXXX.O");
}
