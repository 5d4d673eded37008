//! The engine set against itself: starting from the empty board it
//! fills all nine cells without ever completing a line of three, and
//! the game ends in a draw.

use vstd::prelude::*;

use crate::board::Cell;
use crate::board::cell_score;
use crate::board::empties_below;
use crate::board::empty_count;
use crate::board::opposite;
use crate::engine::Outcome;
use crate::engine::blocks_at;
use crate::engine::decide_spec;
use crate::engine::first_block_from;
use crate::engine::first_empty_from;
use crate::engine::first_line_with_sum_from;
use crate::engine::fork_eligible;
use crate::engine::is_fork_choice;
use crate::engine::lemma_candidate_open;
use crate::engine::lemma_fork_choice_unique;
use crate::engine::lemma_no_wins;
use crate::engine::player_of;
use crate::engine::threat_count;
use crate::engine::threats_below;
use crate::eval::board_total;
use crate::eval::is_full;
use crate::eval::is_terminal;
use crate::eval::line_covers;
use crate::eval::line_sum;
use crate::eval::some_line_sums;
use crate::eval::winner_of;

verus! {

/// Repeated application of the engine to its own output: the verdict
/// once the game ends within `fuel` further moves, otherwise the board
/// reached when the fuel runs out.
pub open spec fn play(s: Seq<Cell>, fuel: nat) -> Outcome
    decreases fuel,
{
    match decide_spec(s) {
        Outcome::Over(w) => Outcome::Over(w),
        Outcome::Next(ns) => if fuel == 0 {
            Outcome::Next(ns)
        } else {
            play(ns, (fuel - 1) as nat)
        },
    }
}

/// The boards of the engine's game against itself, move by move.
spec fn game_board_0() -> Seq<Cell> {
    Seq::new(9, |i: int| Cell::Empty)
}

spec fn game_board_1() -> Seq<Cell> {
    game_board_0().update(0, Cell::X)
}

spec fn game_board_2() -> Seq<Cell> {
    game_board_1().update(4, Cell::O)
}

spec fn game_board_3() -> Seq<Cell> {
    game_board_2().update(6, Cell::X)
}

spec fn game_board_4() -> Seq<Cell> {
    game_board_3().update(3, Cell::O)
}

spec fn game_board_5() -> Seq<Cell> {
    game_board_4().update(5, Cell::X)
}

spec fn game_board_6() -> Seq<Cell> {
    game_board_5().update(7, Cell::O)
}

spec fn game_board_7() -> Seq<Cell> {
    game_board_6().update(1, Cell::X)
}

spec fn game_board_8() -> Seq<Cell> {
    game_board_7().update(2, Cell::O)
}

spec fn game_board_9() -> Seq<Cell> {
    game_board_8().update(8, Cell::X)
}

/// Self-play, move 1: the opening move goes to the corner.
proof fn lemma_game_step_0()
    ensures
        decide_spec(game_board_0()) == Outcome::Next(game_board_1()),
{
    let s = game_board_0();
    assert(empty_count(s) == 9) by {
        reveal_with_fuel(empties_below, 10);
    }
}

/// Self-play, move 2: the reply takes the center.
proof fn lemma_game_step_1()
    ensures
        decide_spec(game_board_1()) == Outcome::Next(game_board_2()),
{
    let s = game_board_1();
    assert(empty_count(s) == 8) by {
        reveal_with_fuel(empties_below, 10);
    }
    assert(s[4] == Cell::Empty);
}

/// Self-play, move 3: the move creating the most threats is played, later cells winning ties.
proof fn lemma_game_step_2()
    ensures
        decide_spec(game_board_2()) == Outcome::Next(game_board_3()),
{
    let s = game_board_2();
    let p = player_of(s);
    // The eight line sums of this board.
    assert forall|k: int| 0 <= k < 8 implies line_sum(s, k) == (
        if k == 0 {
            1int
        } else if k == 1 {
            -1int
        } else if k == 2 {
            0int
        } else if k == 3 {
            1int
        } else if k == 4 {
            -1int
        } else if k == 5 {
            0int
        } else if k == 6 {
            0int
        } else {
            -1int
        }
    ) by {
        if k == 0 {
            assert(line_sum(s, 0) == 1);
        } else if k == 1 {
            assert(line_sum(s, 1) == -1);
        } else if k == 2 {
            assert(line_sum(s, 2) == 0);
        } else if k == 3 {
            assert(line_sum(s, 3) == 1);
        } else if k == 4 {
            assert(line_sum(s, 4) == -1);
        } else if k == 5 {
            assert(line_sum(s, 5) == 0);
        } else if k == 6 {
            assert(line_sum(s, 6) == 0);
        } else {
            assert(line_sum(s, 7) == -1);
        }
    }
    assert(board_total(s) == 0);
    assert(p == Cell::X);
    assert(empty_count(s) == 7) by {
        reveal_with_fuel(empties_below, 10);
    }
    assert(s[1] == Cell::Empty);
    assert(!is_full(s));
    assert(!some_line_sums(s, 3));
    assert(!some_line_sums(s, -3));
    assert(!is_terminal(s));
    assert forall|k: int| 0 <= k < 8 implies #[trigger] line_sum(s, k) != 2 * cell_score(p)
        && line_sum(s, k) != 3 * cell_score(p) by {}
    lemma_no_wins(s, p);
    assert(first_line_with_sum_from(s, 2 * cell_score(opposite(p)), 0) == 8) by {
        reveal_with_fuel(first_line_with_sum_from, 10);
    }
    crate::eval::lemma_play_line_sums(s, 1, p);
    assert(threat_count(s.update(1, p), 2 * cell_score(p)) == 1) by {
        reveal_with_fuel(threats_below, 10);
    }
    crate::eval::lemma_play_line_sums(s, 2, p);
    assert(threat_count(s.update(2, p), 2 * cell_score(p)) == 1) by {
        reveal_with_fuel(threats_below, 10);
    }
    crate::eval::lemma_play_line_sums(s, 3, p);
    assert(threat_count(s.update(3, p), 2 * cell_score(p)) == 1) by {
        reveal_with_fuel(threats_below, 10);
    }
    crate::eval::lemma_play_line_sums(s, 5, p);
    assert(threat_count(s.update(5, p), 2 * cell_score(p)) == 0) by {
        reveal_with_fuel(threats_below, 10);
    }
    crate::eval::lemma_play_line_sums(s, 6, p);
    assert(threat_count(s.update(6, p), 2 * cell_score(p)) == 1) by {
        reveal_with_fuel(threats_below, 10);
    }
    crate::eval::lemma_play_line_sums(s, 7, p);
    assert(threat_count(s.update(7, p), 2 * cell_score(p)) == 0) by {
        reveal_with_fuel(threats_below, 10);
    }
    crate::eval::lemma_play_line_sums(s, 8, p);
    assert(threat_count(s.update(8, p), 2 * cell_score(p)) == 0) by {
        reveal_with_fuel(threats_below, 10);
    }
    assert forall|k: int| 0 <= k < 8 implies #[trigger] line_sum(s, k) != 3 && line_sum(
        s,
        k,
    ) != -3 by {}
    assert forall|k: int| 0 <= k < 8 && #[trigger] line_covers(k, 6) implies line_sum(s, k)
        + cell_score(p) != 3 && line_sum(s, k) + cell_score(p) != -3 by {}
    lemma_candidate_open(s, 6, p);
    assert(fork_eligible(s, p, 6));
    // Cell by cell from the counts above: no candidate beats the chosen
    // cell's count, and no later candidate matches it.
    assert forall|j: int| #[trigger] fork_eligible(s, p, j) implies threat_count(
        s.update(j, p),
        2 * cell_score(p),
    ) <= threat_count(s.update(6, p), 2 * cell_score(p)) && (j > 6 ==> threat_count(
        s.update(j, p),
        2 * cell_score(p),
    ) < threat_count(s.update(6, p), 2 * cell_score(p))) by {
        if j == 0 {
        } else if j == 1 {
        } else if j == 2 {
        } else if j == 3 {
        } else if j == 4 {
        } else if j == 5 {
        } else if j == 6 {
        } else if j == 7 {
        } else if j == 8 {
        } else {
        }
    }
    assert(is_fork_choice(s, p, 6));
    assert(exists|i: int| fork_eligible(s, p, i));
    assert(exists|i: int| is_fork_choice(s, p, i));
    let ch = choose|i: int| is_fork_choice(s, p, i);
    lemma_fork_choice_unique(s, p, ch, 6);
    assert(s.update(6, p) == game_board_3());
}

/// Self-play, move 4: the opponent's threat is blocked.
proof fn lemma_game_step_3()
    ensures
        decide_spec(game_board_3()) == Outcome::Next(game_board_4()),
{
    let s = game_board_3();
    let p = player_of(s);
    // The eight line sums of this board.
    assert forall|k: int| 0 <= k < 8 implies line_sum(s, k) == (
        if k == 0 {
            1int
        } else if k == 1 {
            -1int
        } else if k == 2 {
            1int
        } else if k == 3 {
            2int
        } else if k == 4 {
            -1int
        } else if k == 5 {
            0int
        } else if k == 6 {
            0int
        } else {
            0int
        }
    ) by {
        if k == 0 {
            assert(line_sum(s, 0) == 1);
        } else if k == 1 {
            assert(line_sum(s, 1) == -1);
        } else if k == 2 {
            assert(line_sum(s, 2) == 1);
        } else if k == 3 {
            assert(line_sum(s, 3) == 2);
        } else if k == 4 {
            assert(line_sum(s, 4) == -1);
        } else if k == 5 {
            assert(line_sum(s, 5) == 0);
        } else if k == 6 {
            assert(line_sum(s, 6) == 0);
        } else {
            assert(line_sum(s, 7) == 0);
        }
    }
    assert(board_total(s) == 1);
    assert(p == Cell::O);
    assert(empty_count(s) == 6) by {
        reveal_with_fuel(empties_below, 10);
    }
    assert(s[1] == Cell::Empty);
    assert(!is_full(s));
    assert(!some_line_sums(s, 3));
    assert(!some_line_sums(s, -3));
    assert(!is_terminal(s));
    assert forall|k: int| 0 <= k < 8 implies #[trigger] line_sum(s, k) != 2 * cell_score(p)
        && line_sum(s, k) != 3 * cell_score(p) by {}
    lemma_no_wins(s, p);
    assert(first_line_with_sum_from(s, 2 * cell_score(opposite(p)), 0) == 3) by {
        reveal_with_fuel(first_line_with_sum_from, 10);
    }
    crate::eval::lemma_play_line_sums(s, 1, p);
    assert(!blocks_at(s, p, 3, 1));
    crate::eval::lemma_play_line_sums(s, 2, p);
    assert(!blocks_at(s, p, 3, 2));
    crate::eval::lemma_play_line_sums(s, 3, p);
    assert forall|k: int| 0 <= k < 8 implies #[trigger] line_sum(s, k) != 3 && line_sum(
        s,
        k,
    ) != -3 by {}
    assert forall|k: int| 0 <= k < 8 && #[trigger] line_covers(k, 3) implies line_sum(s, k)
        + cell_score(p) != 3 && line_sum(s, k) + cell_score(p) != -3 by {}
    lemma_candidate_open(s, 3, p);
    assert(blocks_at(s, p, 3, 3));
    assert(first_block_from(s, p, 3, 0) == 3) by {
        reveal_with_fuel(first_block_from, 11);
    }
    assert(s.update(3, p) == game_board_4());
}

/// Self-play, move 5: the opponent's threat is blocked.
proof fn lemma_game_step_4()
    ensures
        decide_spec(game_board_4()) == Outcome::Next(game_board_5()),
{
    let s = game_board_4();
    let p = player_of(s);
    // The eight line sums of this board.
    assert forall|k: int| 0 <= k < 8 implies line_sum(s, k) == (
        if k == 0 {
            1int
        } else if k == 1 {
            -2int
        } else if k == 2 {
            1int
        } else if k == 3 {
            1int
        } else if k == 4 {
            -1int
        } else if k == 5 {
            0int
        } else if k == 6 {
            0int
        } else {
            0int
        }
    ) by {
        if k == 0 {
            assert(line_sum(s, 0) == 1);
        } else if k == 1 {
            assert(line_sum(s, 1) == -2);
        } else if k == 2 {
            assert(line_sum(s, 2) == 1);
        } else if k == 3 {
            assert(line_sum(s, 3) == 1);
        } else if k == 4 {
            assert(line_sum(s, 4) == -1);
        } else if k == 5 {
            assert(line_sum(s, 5) == 0);
        } else if k == 6 {
            assert(line_sum(s, 6) == 0);
        } else {
            assert(line_sum(s, 7) == 0);
        }
    }
    assert(board_total(s) == 0);
    assert(p == Cell::X);
    assert(empty_count(s) == 5) by {
        reveal_with_fuel(empties_below, 10);
    }
    assert(s[1] == Cell::Empty);
    assert(!is_full(s));
    assert(!some_line_sums(s, 3));
    assert(!some_line_sums(s, -3));
    assert(!is_terminal(s));
    assert forall|k: int| 0 <= k < 8 implies #[trigger] line_sum(s, k) != 2 * cell_score(p)
        && line_sum(s, k) != 3 * cell_score(p) by {}
    lemma_no_wins(s, p);
    assert(first_line_with_sum_from(s, 2 * cell_score(opposite(p)), 0) == 1) by {
        reveal_with_fuel(first_line_with_sum_from, 10);
    }
    crate::eval::lemma_play_line_sums(s, 1, p);
    assert(!blocks_at(s, p, 1, 1));
    crate::eval::lemma_play_line_sums(s, 2, p);
    assert(!blocks_at(s, p, 1, 2));
    crate::eval::lemma_play_line_sums(s, 5, p);
    assert forall|k: int| 0 <= k < 8 implies #[trigger] line_sum(s, k) != 3 && line_sum(
        s,
        k,
    ) != -3 by {}
    assert forall|k: int| 0 <= k < 8 && #[trigger] line_covers(k, 5) implies line_sum(s, k)
        + cell_score(p) != 3 && line_sum(s, k) + cell_score(p) != -3 by {}
    lemma_candidate_open(s, 5, p);
    assert(blocks_at(s, p, 1, 5));
    assert(first_block_from(s, p, 1, 0) == 5) by {
        reveal_with_fuel(first_block_from, 11);
    }
    assert(s.update(5, p) == game_board_5());
}

/// Self-play, move 6: the move creating the most threats is played, later cells winning ties.
proof fn lemma_game_step_5()
    ensures
        decide_spec(game_board_5()) == Outcome::Next(game_board_6()),
{
    let s = game_board_5();
    let p = player_of(s);
    // The eight line sums of this board.
    assert forall|k: int| 0 <= k < 8 implies line_sum(s, k) == (
        if k == 0 {
            1int
        } else if k == 1 {
            -1int
        } else if k == 2 {
            1int
        } else if k == 3 {
            1int
        } else if k == 4 {
            -1int
        } else if k == 5 {
            1int
        } else if k == 6 {
            0int
        } else {
            0int
        }
    ) by {
        if k == 0 {
            assert(line_sum(s, 0) == 1);
        } else if k == 1 {
            assert(line_sum(s, 1) == -1);
        } else if k == 2 {
            assert(line_sum(s, 2) == 1);
        } else if k == 3 {
            assert(line_sum(s, 3) == 1);
        } else if k == 4 {
            assert(line_sum(s, 4) == -1);
        } else if k == 5 {
            assert(line_sum(s, 5) == 1);
        } else if k == 6 {
            assert(line_sum(s, 6) == 0);
        } else {
            assert(line_sum(s, 7) == 0);
        }
    }
    assert(board_total(s) == 1);
    assert(p == Cell::O);
    assert(empty_count(s) == 4) by {
        reveal_with_fuel(empties_below, 10);
    }
    assert(s[1] == Cell::Empty);
    assert(!is_full(s));
    assert(!some_line_sums(s, 3));
    assert(!some_line_sums(s, -3));
    assert(!is_terminal(s));
    assert forall|k: int| 0 <= k < 8 implies #[trigger] line_sum(s, k) != 2 * cell_score(p)
        && line_sum(s, k) != 3 * cell_score(p) by {}
    lemma_no_wins(s, p);
    assert(first_line_with_sum_from(s, 2 * cell_score(opposite(p)), 0) == 8) by {
        reveal_with_fuel(first_line_with_sum_from, 10);
    }
    crate::eval::lemma_play_line_sums(s, 1, p);
    assert(threat_count(s.update(1, p), 2 * cell_score(p)) == 1) by {
        reveal_with_fuel(threats_below, 10);
    }
    crate::eval::lemma_play_line_sums(s, 2, p);
    assert(threat_count(s.update(2, p), 2 * cell_score(p)) == 0) by {
        reveal_with_fuel(threats_below, 10);
    }
    crate::eval::lemma_play_line_sums(s, 7, p);
    assert(threat_count(s.update(7, p), 2 * cell_score(p)) == 1) by {
        reveal_with_fuel(threats_below, 10);
    }
    crate::eval::lemma_play_line_sums(s, 8, p);
    assert(threat_count(s.update(8, p), 2 * cell_score(p)) == 0) by {
        reveal_with_fuel(threats_below, 10);
    }
    assert forall|k: int| 0 <= k < 8 implies #[trigger] line_sum(s, k) != 3 && line_sum(
        s,
        k,
    ) != -3 by {}
    assert forall|k: int| 0 <= k < 8 && #[trigger] line_covers(k, 7) implies line_sum(s, k)
        + cell_score(p) != 3 && line_sum(s, k) + cell_score(p) != -3 by {}
    lemma_candidate_open(s, 7, p);
    assert(fork_eligible(s, p, 7));
    // Cell by cell from the counts above: no candidate beats the chosen
    // cell's count, and no later candidate matches it.
    assert forall|j: int| #[trigger] fork_eligible(s, p, j) implies threat_count(
        s.update(j, p),
        2 * cell_score(p),
    ) <= threat_count(s.update(7, p), 2 * cell_score(p)) && (j > 7 ==> threat_count(
        s.update(j, p),
        2 * cell_score(p),
    ) < threat_count(s.update(7, p), 2 * cell_score(p))) by {
        if j == 0 {
        } else if j == 1 {
        } else if j == 2 {
        } else if j == 3 {
        } else if j == 4 {
        } else if j == 5 {
        } else if j == 6 {
        } else if j == 7 {
        } else if j == 8 {
        } else {
        }
    }
    assert(is_fork_choice(s, p, 7));
    assert(exists|i: int| fork_eligible(s, p, i));
    assert(exists|i: int| is_fork_choice(s, p, i));
    let ch = choose|i: int| is_fork_choice(s, p, i);
    lemma_fork_choice_unique(s, p, ch, 7);
    assert(s.update(7, p) == game_board_6());
}

/// Self-play, move 7: the opponent's threat is blocked.
proof fn lemma_game_step_6()
    ensures
        decide_spec(game_board_6()) == Outcome::Next(game_board_7()),
{
    let s = game_board_6();
    let p = player_of(s);
    // The eight line sums of this board.
    assert forall|k: int| 0 <= k < 8 implies line_sum(s, k) == (
        if k == 0 {
            1int
        } else if k == 1 {
            -1int
        } else if k == 2 {
            0int
        } else if k == 3 {
            1int
        } else if k == 4 {
            -2int
        } else if k == 5 {
            1int
        } else if k == 6 {
            0int
        } else {
            0int
        }
    ) by {
        if k == 0 {
            assert(line_sum(s, 0) == 1);
        } else if k == 1 {
            assert(line_sum(s, 1) == -1);
        } else if k == 2 {
            assert(line_sum(s, 2) == 0);
        } else if k == 3 {
            assert(line_sum(s, 3) == 1);
        } else if k == 4 {
            assert(line_sum(s, 4) == -2);
        } else if k == 5 {
            assert(line_sum(s, 5) == 1);
        } else if k == 6 {
            assert(line_sum(s, 6) == 0);
        } else {
            assert(line_sum(s, 7) == 0);
        }
    }
    assert(board_total(s) == 0);
    assert(p == Cell::X);
    assert(empty_count(s) == 3) by {
        reveal_with_fuel(empties_below, 10);
    }
    assert(s[1] == Cell::Empty);
    assert(!is_full(s));
    assert(!some_line_sums(s, 3));
    assert(!some_line_sums(s, -3));
    assert(!is_terminal(s));
    assert forall|k: int| 0 <= k < 8 implies #[trigger] line_sum(s, k) != 2 * cell_score(p)
        && line_sum(s, k) != 3 * cell_score(p) by {}
    lemma_no_wins(s, p);
    assert(first_line_with_sum_from(s, 2 * cell_score(opposite(p)), 0) == 4) by {
        reveal_with_fuel(first_line_with_sum_from, 10);
    }
    crate::eval::lemma_play_line_sums(s, 1, p);
    assert forall|k: int| 0 <= k < 8 implies #[trigger] line_sum(s, k) != 3 && line_sum(
        s,
        k,
    ) != -3 by {}
    assert forall|k: int| 0 <= k < 8 && #[trigger] line_covers(k, 1) implies line_sum(s, k)
        + cell_score(p) != 3 && line_sum(s, k) + cell_score(p) != -3 by {}
    lemma_candidate_open(s, 1, p);
    assert(blocks_at(s, p, 4, 1));
    assert(first_block_from(s, p, 4, 0) == 1) by {
        reveal_with_fuel(first_block_from, 11);
    }
    assert(s.update(1, p) == game_board_7());
}

/// Self-play, move 8: the opponent's threat is blocked.
proof fn lemma_game_step_7()
    ensures
        decide_spec(game_board_7()) == Outcome::Next(game_board_8()),
{
    let s = game_board_7();
    let p = player_of(s);
    // The eight line sums of this board.
    assert forall|k: int| 0 <= k < 8 implies line_sum(s, k) == (
        if k == 0 {
            2int
        } else if k == 1 {
            -1int
        } else if k == 2 {
            0int
        } else if k == 3 {
            1int
        } else if k == 4 {
            -1int
        } else if k == 5 {
            1int
        } else if k == 6 {
            0int
        } else {
            0int
        }
    ) by {
        if k == 0 {
            assert(line_sum(s, 0) == 2);
        } else if k == 1 {
            assert(line_sum(s, 1) == -1);
        } else if k == 2 {
            assert(line_sum(s, 2) == 0);
        } else if k == 3 {
            assert(line_sum(s, 3) == 1);
        } else if k == 4 {
            assert(line_sum(s, 4) == -1);
        } else if k == 5 {
            assert(line_sum(s, 5) == 1);
        } else if k == 6 {
            assert(line_sum(s, 6) == 0);
        } else {
            assert(line_sum(s, 7) == 0);
        }
    }
    assert(board_total(s) == 1);
    assert(p == Cell::O);
    assert(empty_count(s) == 2) by {
        reveal_with_fuel(empties_below, 10);
    }
    assert(s[2] == Cell::Empty);
    assert(!is_full(s));
    assert(!some_line_sums(s, 3));
    assert(!some_line_sums(s, -3));
    assert(!is_terminal(s));
    assert forall|k: int| 0 <= k < 8 implies #[trigger] line_sum(s, k) != 2 * cell_score(p)
        && line_sum(s, k) != 3 * cell_score(p) by {}
    lemma_no_wins(s, p);
    assert(first_line_with_sum_from(s, 2 * cell_score(opposite(p)), 0) == 0) by {
        reveal_with_fuel(first_line_with_sum_from, 10);
    }
    crate::eval::lemma_play_line_sums(s, 2, p);
    assert forall|k: int| 0 <= k < 8 implies #[trigger] line_sum(s, k) != 3 && line_sum(
        s,
        k,
    ) != -3 by {}
    assert forall|k: int| 0 <= k < 8 && #[trigger] line_covers(k, 2) implies line_sum(s, k)
        + cell_score(p) != 3 && line_sum(s, k) + cell_score(p) != -3 by {}
    lemma_candidate_open(s, 2, p);
    assert(blocks_at(s, p, 0, 2));
    assert(first_block_from(s, p, 0, 0) == 2) by {
        reveal_with_fuel(first_block_from, 11);
    }
    assert(s.update(2, p) == game_board_8());
}

/// Self-play, move 9: the last free cell is forced.
proof fn lemma_game_step_8()
    ensures
        decide_spec(game_board_8()) == Outcome::Next(game_board_9()),
{
    let s = game_board_8();
    let p = player_of(s);
    // The eight line sums of this board.
    assert forall|k: int| 0 <= k < 8 implies line_sum(s, k) == (
        if k == 0 {
            1int
        } else if k == 1 {
            -1int
        } else if k == 2 {
            0int
        } else if k == 3 {
            1int
        } else if k == 4 {
            -1int
        } else if k == 5 {
            0int
        } else if k == 6 {
            0int
        } else {
            -1int
        }
    ) by {
        if k == 0 {
            assert(line_sum(s, 0) == 1);
        } else if k == 1 {
            assert(line_sum(s, 1) == -1);
        } else if k == 2 {
            assert(line_sum(s, 2) == 0);
        } else if k == 3 {
            assert(line_sum(s, 3) == 1);
        } else if k == 4 {
            assert(line_sum(s, 4) == -1);
        } else if k == 5 {
            assert(line_sum(s, 5) == 0);
        } else if k == 6 {
            assert(line_sum(s, 6) == 0);
        } else {
            assert(line_sum(s, 7) == -1);
        }
    }
    assert(board_total(s) == 0);
    assert(p == Cell::X);
    assert(empty_count(s) == 1) by {
        reveal_with_fuel(empties_below, 10);
    }
    assert(s[8] == Cell::Empty);
    assert(!is_full(s));
    assert(!some_line_sums(s, 3));
    assert(!some_line_sums(s, -3));
    assert(!is_terminal(s));
    assert(first_empty_from(s, 0) == 8) by {
        reveal_with_fuel(first_empty_from, 11);
    }
    assert(s.update(8, p) == game_board_9());
}

/// The finished self-play board is a draw.
proof fn lemma_game_step_9()
    ensures
        decide_spec(game_board_9()) == Outcome::Over(Cell::Empty),
{
    let s = game_board_9();
    // The eight line sums of this board.
    assert forall|k: int| 0 <= k < 8 implies line_sum(s, k) == (
        if k == 0 {
            1int
        } else if k == 1 {
            -1int
        } else if k == 2 {
            1int
        } else if k == 3 {
            1int
        } else if k == 4 {
            -1int
        } else if k == 5 {
            1int
        } else if k == 6 {
            1int
        } else {
            -1int
        }
    ) by {
        if k == 0 {
            assert(line_sum(s, 0) == 1);
        } else if k == 1 {
            assert(line_sum(s, 1) == -1);
        } else if k == 2 {
            assert(line_sum(s, 2) == 1);
        } else if k == 3 {
            assert(line_sum(s, 3) == 1);
        } else if k == 4 {
            assert(line_sum(s, 4) == -1);
        } else if k == 5 {
            assert(line_sum(s, 5) == 1);
        } else if k == 6 {
            assert(line_sum(s, 6) == 1);
        } else {
            assert(line_sum(s, 7) == -1);
        }
    }
    assert forall|i: int| 0 <= i < 9 implies s[i] != Cell::Empty by {
        if i == 0 {
            assert(s[0] == Cell::X);
        } else if i == 1 {
            assert(s[1] == Cell::X);
        } else if i == 2 {
            assert(s[2] == Cell::O);
        } else if i == 3 {
            assert(s[3] == Cell::O);
        } else if i == 4 {
            assert(s[4] == Cell::O);
        } else if i == 5 {
            assert(s[5] == Cell::X);
        } else if i == 6 {
            assert(s[6] == Cell::X);
        } else if i == 7 {
            assert(s[7] == Cell::O);
        } else {
            assert(s[8] == Cell::X);
        }
    }
    assert(is_full(s));
    assert(empty_count(s) == 0) by {
        reveal_with_fuel(empties_below, 10);
    }
    assert(!some_line_sums(s, 3));
    assert(!some_line_sums(s, -3));
    assert(winner_of(s) == Cell::Empty);
}

/// Self-play ends in a draw: handed its own answer back nine times from
/// the empty board, the engine fills the board move by move, and the
/// verdict is the draw.
pub proof fn lemma_self_play_draw(s: Seq<Cell>)
    requires
        s.len() == 9,
        forall|i: int| 0 <= i < 9 ==> s[i] == Cell::Empty,
    ensures
        play(s, 9) == Outcome::Over(Cell::Empty),
{
    assert(s =~= game_board_0());
    lemma_game_step_0();
    lemma_game_step_1();
    lemma_game_step_2();
    lemma_game_step_3();
    lemma_game_step_4();
    lemma_game_step_5();
    lemma_game_step_6();
    lemma_game_step_7();
    lemma_game_step_8();
    lemma_game_step_9();
    assert(play(game_board_0(), 9) == Outcome::Over(Cell::Empty)) by {
        reveal_with_fuel(play, 11);
    }
}

} // verus!
