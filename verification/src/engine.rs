//! The decision engine: from a board, either report that the game is over
//! or produce the board after the engine's move.
//!
//! The move is chosen by a fixed list of rules, the first that applies
//! winning: a forced move, an immediate win, a block of the opponent's
//! immediate win, the move that creates the most simultaneous threats
//! (ties broken toward the highest cell index), the center, the first
//! free corner, and finally the first free cell.

use vstd::prelude::*;

use crate::board::BOARD_CELLS;
use crate::board::Board;
use crate::board::Cell;
use crate::board::cell_score;
use crate::board::empty_count;
use crate::board::opposite;
use crate::eval::Evaluation;
use crate::eval::LINE_COUNT;
use crate::eval::is_terminal;
use crate::eval::line_covers;
use crate::eval::line_sum;
use crate::eval::some_line_sums;
use crate::eval::winner_of;

verus! {

/// What `decide` returns: the board after the engine's move, or the
/// winner (the free cell standing for a draw) of a finished game.
pub enum MoveResult {
    Move { board: Board },
    GameOver { winner: Cell },
}

/// The outcome of `decide`, at the specification level.
pub enum Outcome {
    Next(Seq<Cell>),
    Over(Cell),
}

/// Whose turn it is: `X` moves first and each move changes the board
/// total by one, so the total is 0 exactly on `X`'s turn.
pub open spec fn player_of(s: Seq<Cell>) -> Cell {
    if crate::eval::board_total(s) == 0 {
        Cell::X
    } else {
        Cell::O
    }
}

/// Placing `p` on free cell `i` ends the game with `p` as the winner.
pub open spec fn wins_at(s: Seq<Cell>, p: Cell, i: int) -> bool {
    s[i] == Cell::Empty && is_terminal(s.update(i, p)) && winner_of(s.update(i, p)) == p
}

/// The first cell index at or after `i` where `p` wins in one move;
/// 9 when there is none.
pub open spec fn first_win_from(s: Seq<Cell>, p: Cell, i: int) -> int
    decreases 9 - i,
{
    if i >= 9 {
        9
    } else if wins_at(s, p, i) {
        i
    } else {
        first_win_from(s, p, i + 1)
    }
}

/// The first line index at or after `k` whose sum is `v`; 8 when there
/// is none.
pub open spec fn first_line_with_sum_from(s: Seq<Cell>, v: int, k: int) -> int
    decreases 8 - k,
{
    if k >= 8 {
        8
    } else if line_sum(s, k) == v {
        k
    } else {
        first_line_with_sum_from(s, v, k + 1)
    }
}

/// Placing `p` on free cell `i` leaves the game open and completes line
/// `tl` to the sum that neutralizes the opponent's threat there.
pub open spec fn blocks_at(s: Seq<Cell>, p: Cell, tl: int, i: int) -> bool {
    s[i] == Cell::Empty && !is_terminal(s.update(i, p)) && line_sum(s.update(i, p), tl) == 2
        * cell_score(opposite(p)) + cell_score(p)
}

/// The first cell index at or after `i` that blocks the threat on line
/// `tl`; 9 when there is none.
pub open spec fn first_block_from(s: Seq<Cell>, p: Cell, tl: int, i: int) -> int
    decreases 9 - i,
{
    if i >= 9 {
        9
    } else if blocks_at(s, p, tl, i) {
        i
    } else {
        first_block_from(s, p, tl, i + 1)
    }
}

/// How many of the first `k` lines carry the sum `v`.
pub open spec fn threats_below(s: Seq<Cell>, v: int, k: int) -> int
    decreases k,
{
    if k <= 0 {
        0
    } else {
        threats_below(s, v, k - 1) + if line_sum(s, k - 1) == v {
            1int
        } else {
            0int
        }
    }
}

/// How many lines of the board carry the sum `v`: with `v` set to two
/// marks of one player, the number of that player's open threats.
pub open spec fn threat_count(s: Seq<Cell>, v: int) -> int {
    threats_below(s, v, 8)
}

/// Placing `p` on free cell `i` leaves the game open and creates at
/// least one threat for `p`.
pub open spec fn fork_eligible(s: Seq<Cell>, p: Cell, i: int) -> bool {
    0 <= i < 9 && s[i] == Cell::Empty && !is_terminal(s.update(i, p)) && threat_count(
        s.update(i, p),
        2 * cell_score(p),
    ) > 0
}

/// Cell `i` is the move the threat rule picks: it creates the most
/// threats for `p`, and no later cell index creates as many.
pub open spec fn is_fork_choice(s: Seq<Cell>, p: Cell, i: int) -> bool {
    fork_eligible(s, p, i) && forall|j: int|
        #[trigger] fork_eligible(s, p, j) ==> threat_count(s.update(j, p), 2 * cell_score(p))
            <= threat_count(s.update(i, p), 2 * cell_score(p)) && (j > i ==> threat_count(
            s.update(j, p),
            2 * cell_score(p),
        ) < threat_count(s.update(i, p), 2 * cell_score(p)))
}

/// The first free cell index at or after `i`; 9 when there is none.
pub open spec fn first_empty_from(s: Seq<Cell>, i: int) -> int
    decreases 9 - i,
{
    if i >= 9 {
        9
    } else if s[i] == Cell::Empty {
        i
    } else {
        first_empty_from(s, i + 1)
    }
}

/// The first free corner in the fixed order top-left, top-right,
/// bottom-left, bottom-right; 9 when all four are taken.
pub open spec fn corner_choice(s: Seq<Cell>) -> int {
    if s[0] == Cell::Empty {
        0
    } else if s[2] == Cell::Empty {
        2
    } else if s[6] == Cell::Empty {
        6
    } else if s[8] == Cell::Empty {
        8
    } else {
        9
    }
}

/// What `decide` computes, rule by rule in priority order. The first two
/// branches special-case the two opening moves; after them the board is
/// evaluated, a finished game is reported, and otherwise the first
/// applicable selection rule names the cell to play.
pub open spec fn decide_spec(s: Seq<Cell>) -> Outcome {
    let p = player_of(s);
    if empty_count(s) == 9 {
        Outcome::Next(s.update(0, Cell::X))
    } else if empty_count(s) == 8 {
        if s[4] == Cell::Empty {
            Outcome::Next(s.update(4, Cell::O))
        } else {
            Outcome::Next(s.update(0, Cell::O))
        }
    } else if is_terminal(s) {
        Outcome::Over(winner_of(s))
    } else if empty_count(s) == 1 {
        Outcome::Next(s.update(first_empty_from(s, 0), p))
    } else if first_win_from(s, p, 0) < 9 {
        Outcome::Next(s.update(first_win_from(s, p, 0), p))
    } else if first_line_with_sum_from(s, 2 * cell_score(opposite(p)), 0) < 8 {
        Outcome::Next(
            s.update(
                first_block_from(s, p, first_line_with_sum_from(s, 2 * cell_score(opposite(p)), 0), 0),
                p,
            ),
        )
    } else if exists|i: int| fork_eligible(s, p, i) {
        Outcome::Next(s.update(choose|i: int| is_fork_choice(s, p, i), p))
    } else if s[4] == Cell::Empty {
        Outcome::Next(s.update(4, p))
    } else if corner_choice(s) < 9 {
        Outcome::Next(s.update(corner_choice(s), p))
    } else {
        Outcome::Next(s.update(first_empty_from(s, 0), p))
    }
}

/// A scan that found nothing before `hi` starts there: the first winning
/// cell at or after `lo` is the first at or after `hi`.
proof fn lemma_first_win_skip(s: Seq<Cell>, p: Cell, lo: int, hi: int)
    requires
        0 <= lo <= hi <= 9,
        forall|j: int| lo <= j < hi ==> !wins_at(s, p, j),
    ensures
        first_win_from(s, p, lo) == first_win_from(s, p, hi),
    decreases hi - lo,
{
    if lo < hi {
        lemma_first_win_skip(s, p, lo + 1, hi);
    }
}

/// As [`lemma_first_win_skip`], for the scan over line sums.
proof fn lemma_first_line_skip(s: Seq<Cell>, v: int, lo: int, hi: int)
    requires
        0 <= lo <= hi <= 8,
        forall|j: int| lo <= j < hi ==> line_sum(s, j) != v,
    ensures
        first_line_with_sum_from(s, v, lo) == first_line_with_sum_from(s, v, hi),
    decreases hi - lo,
{
    if lo < hi {
        lemma_first_line_skip(s, v, lo + 1, hi);
    }
}

/// As [`lemma_first_win_skip`], for the scan after a blocking cell.
proof fn lemma_first_block_skip(s: Seq<Cell>, p: Cell, tl: int, lo: int, hi: int)
    requires
        0 <= lo <= hi <= 9,
        forall|j: int| lo <= j < hi ==> !blocks_at(s, p, tl, j),
    ensures
        first_block_from(s, p, tl, lo) == first_block_from(s, p, tl, hi),
    decreases hi - lo,
{
    if lo < hi {
        lemma_first_block_skip(s, p, tl, lo + 1, hi);
    }
}

/// As [`lemma_first_win_skip`], for the scan after a free cell.
proof fn lemma_first_empty_skip(s: Seq<Cell>, lo: int, hi: int)
    requires
        0 <= lo <= hi <= 9,
        forall|j: int| lo <= j < hi ==> s[j] != Cell::Empty,
    ensures
        first_empty_from(s, lo) == first_empty_from(s, hi),
    decreases hi - lo,
{
    if lo < hi {
        lemma_first_empty_skip(s, lo + 1, hi);
    }
}

/// When the opponent threatens a line and the player cannot win at once,
/// the free cell of that line blocks the threat: the board after playing
/// it is open and carries the neutralizing sum. Hence the block rule
/// always finds a move.
proof fn lemma_block_exists(s: Seq<Cell>, p: Cell, tl: int)
    requires
        s.len() == 9,
        p == Cell::X || p == Cell::O,
        0 <= tl < 8,
        !is_terminal(s),
        line_sum(s, tl) == 2 * cell_score(opposite(p)),
        forall|i: int| 0 <= i < 9 ==> !wins_at(s, p, i),
        empty_count(s) >= 2,
    ensures
        exists|i: int| 0 <= i < 9 && blocks_at(s, p, tl, i),
{
    let q = opposite(p);
    crate::eval::lemma_cell_score(p);
    crate::eval::lemma_cell_score(q);
    crate::eval::lemma_threat_cell(s, tl, q);
    let m = choose|m: int| 0 <= m < 9 && #[trigger] line_covers(tl, m) && s[m] == Cell::Empty;
    crate::eval::lemma_cell_score(s[m]);
    let u = s.update(m, p);
    crate::eval::lemma_update_line_sum(s, m, p, tl);
    assert(line_sum(u, tl) == 2 * cell_score(q) + cell_score(p));
    // The board after the block is not full: one free cell was used, at
    // least one other remains.
    crate::board::lemma_empties_update(s, m, p, 9);
    crate::board::lemma_empties_none(u, 9);
    assert(!crate::eval::is_full(u));
    // No line of the opponent's winning sum can appear: the played cell
    // only moves sums toward the player.
    assert forall|k: int| 0 <= k < 8 implies line_sum(u, k) != 3 * cell_score(q) by {
        crate::eval::lemma_update_line_sum(s, m, p, k);
        crate::eval::lemma_line_sum_bounds(s, k);
        assert(line_sum(s, k) != 3 && line_sum(s, k) != -3);
    }
    // No line of the player's winning sum either: that would make the
    // played cell an immediate win, excluded by the win rule.
    assert forall|k: int| 0 <= k < 8 implies line_sum(u, k) != 3 * cell_score(p) by {
        crate::eval::lemma_update_line_sum(s, m, p, k);
        crate::eval::lemma_line_sum_bounds(s, k);
        assert(line_sum(s, k) != 3 && line_sum(s, k) != -3);
        if line_sum(u, k) == 3 * cell_score(p) {
            assert(some_line_sums(u, 3 * cell_score(p)));
            assert(is_terminal(u));
            assert(winner_of(u) == p);
            assert(wins_at(s, p, m));
        }
    }
    assert(!some_line_sums(u, 3));
    assert(!some_line_sums(u, -3));
    assert(blocks_at(s, p, tl, m));
}

/// When no line carries two of the player's marks (nor a full three),
/// the player cannot win in one move anywhere.
pub(crate) proof fn lemma_no_wins(s: Seq<Cell>, p: Cell)
    requires
        s.len() == 9,
        p == Cell::X || p == Cell::O,
        forall|k: int|
            0 <= k < 8 ==> #[trigger] line_sum(s, k) != 2 * cell_score(p) && line_sum(s, k) != 3
                * cell_score(p),
    ensures
        forall|i: int| 0 <= i < 9 ==> !wins_at(s, p, i),
        first_win_from(s, p, 0) == 9,
{
    crate::eval::lemma_cell_score(p);
    assert forall|i: int| 0 <= i < 9 implies !wins_at(s, p, i) by {
        if s[i] == Cell::Empty {
            crate::eval::lemma_play_line_sums(s, i, p);
            assert forall|k: int| 0 <= k < 8 implies #[trigger] line_sum(s.update(i, p), k) != 3
                * cell_score(p) by {
                assert(line_sum(s, k) != 2 * cell_score(p) && line_sum(s, k) != 3 * cell_score(p));
            }
            assert(!some_line_sums(s.update(i, p), 3 * cell_score(p)));
            assert(winner_of(s.update(i, p)) != p);
        }
    }
    lemma_first_win_skip(s, p, 0, 9);
}

/// A move on a free cell that completes no line of three leaves the
/// game open as long as another free cell remains.
pub(crate) proof fn lemma_candidate_open(s: Seq<Cell>, i: int, p: Cell)
    requires
        s.len() == 9,
        0 <= i < 9,
        s[i] == Cell::Empty,
        p != Cell::Empty,
        empty_count(s) >= 2,
        forall|k: int| 0 <= k < 8 ==> #[trigger] line_sum(s, k) != 3 && line_sum(s, k) != -3,
        forall|k: int|
            0 <= k < 8 && #[trigger] line_covers(k, i) ==> line_sum(s, k) + cell_score(p) != 3
                && line_sum(s, k) + cell_score(p) != -3,
    ensures
        !is_terminal(s.update(i, p)),
{
    let u = s.update(i, p);
    crate::eval::lemma_play_line_sums(s, i, p);
    assert forall|k: int| 0 <= k < 8 implies #[trigger] line_sum(u, k) != 3 && line_sum(u, k)
        != -3 by {
        assert(line_sum(s, k) != 3 && line_sum(s, k) != -3);
        if line_covers(k, i) {
            assert(line_sum(s, k) + cell_score(p) != 3 && line_sum(s, k) + cell_score(p) != -3);
        }
    }
    assert(!some_line_sums(u, 3));
    assert(!some_line_sums(u, -3));
    crate::board::lemma_empties_update(s, i, p, 9);
    crate::board::lemma_empties_none(u, 9);
}

/// The threat rule picks one single cell: two cells that both satisfy
/// its characterization are the same.
pub(crate) proof fn lemma_fork_choice_unique(s: Seq<Cell>, p: Cell, a: int, b: int)
    requires
        is_fork_choice(s, p, a),
        is_fork_choice(s, p, b),
    ensures
        a == b,
{
    assert(fork_eligible(s, p, a));
    assert(fork_eligible(s, p, b));
}

/// A board with eight or nine free cells cannot be terminal.
proof fn lemma_open_board(s: Seq<Cell>)
    requires
        s.len() == 9,
        empty_count(s) >= 8,
    ensures
        !is_terminal(s),
{
    if is_terminal(s) {
        crate::eval::lemma_terminal_few_empties(s);
    }
}

/// On a terminal board the engine changes nothing: `decide` reports the
/// winner, and reports it again when asked again.
pub proof fn lemma_terminal_stable(s: Seq<Cell>)
    requires
        s.len() == 9,
        is_terminal(s),
    ensures
        decide_spec(s) == Outcome::Over(winner_of(s)),
{
    crate::eval::lemma_terminal_few_empties(s);
}

impl Board {
    /// The first free cell of the board, which must have one.
    fn first_empty(&self) -> (i: usize)
        requires
            self.wf(),
            empty_count(self@) >= 1,
        ensures
            i < 9,
            self@[i as int] == Cell::Empty,
            i as int == first_empty_from(self@, 0),
    {
        let mut i: usize = 0;
        while i < BOARD_CELLS
            invariant
                self.wf(),
                i <= 9,
                forall|j: int| 0 <= j < i ==> self@[j] != Cell::Empty,
            decreases 9 - i,
        {
            if self.cells[i] == Cell::Empty {
                proof {
                    lemma_first_empty_skip(self@, 0, i as int);
                }
                return i;
            }
            i = i + 1;
        }
        proof {
            crate::board::lemma_empties_none(self@, 9);
            assert(false);
        }
        0
    }

    /// The first cell where `p` wins in one move, if any.
    fn find_winning_move(&self, p: Cell) -> (r: Option<usize>)
        requires
            self.wf(),
            p != Cell::Empty,
        ensures
            match r {
                Some(i) => i < 9 && wins_at(self@, p, i as int) && i as int == first_win_from(
                    self@,
                    p,
                    0,
                ),
                None => forall|j: int| 0 <= j < 9 ==> !wins_at(self@, p, j),
            },
    {
        let mut i: usize = 0;
        while i < BOARD_CELLS
            invariant
                self.wf(),
                p != Cell::Empty,
                i <= 9,
                forall|j: int| 0 <= j < i ==> !wins_at(self@, p, j),
            decreases 9 - i,
        {
            if self.cells[i] == Cell::Empty {
                let cand = self.with_cell(i, p);
                match cand.evaluate() {
                    Evaluation::GameOver { winner } => {
                        if winner == p {
                            proof {
                                lemma_first_win_skip(self@, p, 0, i as int);
                            }
                            return Some(i);
                        }
                    },
                    Evaluation::Sums { .. } => {},
                }
            }
            i = i + 1;
        }
        None
    }

    /// The first line whose sum is `v`, if any, scanning the canonical
    /// line order.
    fn find_threat_line(&self, sums: &Vec<i8>, v: i8) -> (r: Option<usize>)
        requires
            self.wf(),
            sums@.len() == 8,
            forall|k: int| 0 <= k < 8 ==> sums@[k] as int == line_sum(self@, k),
        ensures
            match r {
                Some(k) => k < 8 && line_sum(self@, k as int) == v as int && k as int
                    == first_line_with_sum_from(self@, v as int, 0),
                None => forall|k: int| 0 <= k < 8 ==> line_sum(self@, k) != v as int,
            },
    {
        let mut k: usize = 0;
        while k < LINE_COUNT
            invariant
                self.wf(),
                sums@.len() == 8,
                forall|t: int| 0 <= t < 8 ==> sums@[t] as int == line_sum(self@, t),
                k <= 8,
                forall|t: int| 0 <= t < k ==> line_sum(self@, t) != v as int,
            decreases 8 - k,
        {
            if sums[k] == v {
                proof {
                    lemma_first_line_skip(self@, v as int, 0, k as int);
                }
                return Some(k);
            }
            k = k + 1;
        }
        None
    }

    /// The first cell that blocks the opponent's threat on line `tl`,
    /// if any: playing it keeps the game open and brings that line's sum
    /// to `target`.
    fn find_block(&self, p: Cell, tl: usize, target: i8) -> (r: Option<usize>)
        requires
            self.wf(),
            p != Cell::Empty,
            tl < 8,
            target as int == 2 * cell_score(opposite(p)) + cell_score(p),
        ensures
            match r {
                Some(i) => i < 9 && blocks_at(self@, p, tl as int, i as int) && i as int
                    == first_block_from(self@, p, tl as int, 0),
                None => forall|j: int| 0 <= j < 9 ==> !blocks_at(self@, p, tl as int, j),
            },
    {
        let mut i: usize = 0;
        while i < BOARD_CELLS
            invariant
                self.wf(),
                p != Cell::Empty,
                tl < 8,
                target as int == 2 * cell_score(opposite(p)) + cell_score(p),
                i <= 9,
                forall|j: int| 0 <= j < i ==> !blocks_at(self@, p, tl as int, j),
            decreases 9 - i,
        {
            if self.cells[i] == Cell::Empty {
                let cand = self.with_cell(i, p);
                match cand.evaluate() {
                    Evaluation::GameOver { .. } => {},
                    Evaluation::Sums { sums, .. } => {
                        if sums[tl] == target {
                            proof {
                                lemma_first_block_skip(self@, p, tl as int, 0, i as int);
                            }
                            return Some(i);
                        }
                    },
                }
            }
            i = i + 1;
        }
        None
    }

    /// For each cell, how many threats for `p` the move there would
    /// create: 0 for a taken cell, a move that ends the game, or a move
    /// that creates none.
    fn threat_counts(&self, p: Cell) -> (tc: Vec<usize>)
        requires
            self.wf(),
            p != Cell::Empty,
        ensures
            tc@.len() == 9,
            forall|j: int|
                0 <= j < 9 ==> tc@[j] as int == (if fork_eligible(self@, p, j) {
                    threat_count(self@.update(j, p), 2 * cell_score(p))
                } else {
                    0int
                }),
    {
        let pt = p.score() * 2;
        let mut tc: Vec<usize> = Vec::new();
        let mut i: usize = 0;
        while i < BOARD_CELLS
            invariant
                self.wf(),
                p != Cell::Empty,
                pt as int == 2 * cell_score(p),
                i <= 9,
                tc@.len() == i,
                forall|j: int|
                    0 <= j < i ==> tc@[j] as int == (if fork_eligible(self@, p, j) {
                        threat_count(self@.update(j, p), 2 * cell_score(p))
                    } else {
                        0int
                    }),
            decreases 9 - i,
        {
            let mut c: usize = 0;
            if self.cells[i] == Cell::Empty {
                let cand = self.with_cell(i, p);
                match cand.evaluate() {
                    Evaluation::GameOver { .. } => {
                        proof {
                            assert(!fork_eligible(self@, p, i as int));
                        }
                    },
                    Evaluation::Sums { sums, .. } => {
                        let mut k: usize = 0;
                        while k < LINE_COUNT
                            invariant
                                sums@.len() == 8,
                                forall|t: int|
                                    0 <= t < 8 ==> sums@[t] as int == line_sum(cand@, t),
                                pt as int == 2 * cell_score(p),
                                k <= 8,
                                c <= k,
                                c as int == threats_below(cand@, 2 * cell_score(p), k as int),
                            decreases 8 - k,
                        {
                            if sums[k] == pt {
                                c = c + 1;
                            }
                            k = k + 1;
                        }
                        proof {
                            assert(c as int == threat_count(
                                self@.update(i as int, p),
                                2 * cell_score(p),
                            ));
                        }
                    },
                }
            } else {
                proof {
                    assert(!fork_eligible(self@, p, i as int));
                }
            }
            tc.push(c);
            i = i + 1;
        }
        tc
    }

    /// The cell the threat rule picks, if any: among the moves that
    /// create at least one threat for `p` and leave the game open, the
    /// one creating the most threats, later cells winning ties.
    fn find_fork(&self, p: Cell) -> (r: Option<usize>)
        requires
            self.wf(),
            p != Cell::Empty,
        ensures
            match r {
                Some(i) => i < 9 && is_fork_choice(self@, p, i as int),
                None => forall|j: int| !fork_eligible(self@, p, j),
            },
    {
        let tc = self.threat_counts(p);
        let mut best_i: usize = 9;
        let mut best_c: usize = 0;
        let mut i: usize = 0;
        while i < BOARD_CELLS
            invariant
                tc@.len() == 9,
                i <= 9,
                best_i <= 9,
                best_i == 9 ==> best_c == 0,
                best_i < 9 ==> (best_i as int) < i as int && best_c > 0 && tc@[best_i as int]
                    == best_c,
                forall|j: int| 0 <= j < i ==> tc@[j] <= best_c && (j > best_i as int ==> tc@[j]
                    < best_c),
            decreases 9 - i,
        {
            let c = tc[i];
            if c > 0 && c >= best_c {
                best_i = i;
                best_c = c;
            }
            i = i + 1;
        }
        if best_i < BOARD_CELLS {
            proof {
                assert(tc@[best_i as int] as int == threat_count(
                    self@.update(best_i as int, p),
                    2 * cell_score(p),
                ) && fork_eligible(self@, p, best_i as int)) by {
                    if !fork_eligible(self@, p, best_i as int) {
                        assert(tc@[best_i as int] as int == 0);
                    }
                }
                assert forall|j: int| #[trigger] fork_eligible(self@, p, j) implies threat_count(
                    self@.update(j, p),
                    2 * cell_score(p),
                ) <= best_c as int && (j > best_i as int ==> threat_count(
                    self@.update(j, p),
                    2 * cell_score(p),
                ) < best_c as int) by {
                    assert(tc@[j] as int == threat_count(self@.update(j, p), 2 * cell_score(p)));
                }
            }
            Some(best_i)
        } else {
            proof {
                assert forall|j: int| !fork_eligible(self@, p, j) by {
                    if 0 <= j < 9 && fork_eligible(self@, p, j) {
                        assert(tc@[j] as int == threat_count(
                            self@.update(j, p),
                            2 * cell_score(p),
                        ));
                        assert(tc@[j] == 0);
                    }
                }
            }
            None
        }
    }

    /// The engine's move: reports the winner of a finished game, and
    /// otherwise plays the cell picked by the first applicable rule,
    /// exactly as [`decide_spec`] lays the rules out. Every move fills
    /// one free cell and leaves the rest of the board unchanged.
    pub fn decide(&self) -> (r: MoveResult)
        requires
            self.wf(),
        ensures
            match r {
                MoveResult::Move { board } => !is_terminal(self@) && board.wf() && decide_spec(
                    self@,
                ) == Outcome::Next(board@) && empty_count(board@) == empty_count(self@) - 1,
                MoveResult::GameOver { winner } => is_terminal(self@) && winner == winner_of(self@)
                    && decide_spec(self@) == Outcome::Over(winner),
            },
    {
        let n_empty = self.count_empty();
        // Opening moves: the first move goes to a corner, the reply to
        // the center (or to a corner when the first move took the center).
        if n_empty == BOARD_CELLS {
            proof {
                lemma_open_board(self@);
                crate::board::lemma_empties_all(self@, 9);
                crate::board::lemma_empties_update(self@, 0, Cell::X, 9);
            }
            return MoveResult::Move { board: self.with_cell(0, Cell::X) };
        }
        if n_empty == BOARD_CELLS - 1 {
            proof {
                lemma_open_board(self@);
            }
            if self.cells[4] == Cell::Empty {
                proof {
                    crate::board::lemma_empties_update(self@, 4, Cell::O, 9);
                }
                return MoveResult::Move { board: self.with_cell(4, Cell::O) };
            }
            proof {
                if self@[0] != Cell::Empty {
                    crate::board::lemma_empties_two_taken(self@, 9, 0, 4);
                }
                crate::board::lemma_empties_update(self@, 0, Cell::O, 9);
            }
            return MoveResult::Move { board: self.with_cell(0, Cell::O) };
        }
        let (sums, total) = match self.evaluate() {
            Evaluation::GameOver { winner } => {
                proof {
                    lemma_terminal_stable(self@);
                }
                return MoveResult::GameOver { winner };
            },
            Evaluation::Sums { sums, total } => (sums, total),
        };
        let p = if total == 0 {
            Cell::X
        } else {
            Cell::O
        };
        proof {
            assert(p == player_of(self@));
            if empty_count(self@) == 0 {
                crate::board::lemma_empties_none(self@, 9);
            }
        }
        // Rule 1: a single free cell leaves no choice.
        if n_empty == 1 {
            let i = self.first_empty();
            proof {
                crate::board::lemma_empties_update(self@, i as int, p, 9);
            }
            return MoveResult::Move { board: self.with_cell(i, p) };
        }
        // Rule 2: win at once when possible.
        match self.find_winning_move(p) {
            Some(i) => {
                proof {
                    crate::board::lemma_empties_update(self@, i as int, p, 9);
                }
                return MoveResult::Move { board: self.with_cell(i, p) };
            },
            None => {
                proof {
                    lemma_first_win_skip(self@, p, 0, 9);
                }
            },
        }
        // Rule 3: block the opponent's immediate win.
        let opponent_threat = p.opponent().score() * 2;
        match self.find_threat_line(&sums, opponent_threat) {
            Some(tl) => {
                proof {
                    lemma_block_exists(self@, p, tl as int);
                }
                match self.find_block(p, tl, opponent_threat + p.score()) {
                    Some(i) => {
                        proof {
                            crate::board::lemma_empties_update(self@, i as int, p, 9);
                        }
                        return MoveResult::Move { board: self.with_cell(i, p) };
                    },
                    None => {
                        proof {
                            assert(false);
                        }
                        return MoveResult::GameOver { winner: Cell::Empty };
                    },
                }
            },
            None => {
                proof {
                    lemma_first_line_skip(self@, 2 * cell_score(opposite(p)), 0, 8);
                }
            },
        }
        // Rule 4: create as many threats at once as possible.
        match self.find_fork(p) {
            Some(i) => {
                proof {
                    let c = choose|j: int| is_fork_choice(self@, p, j);
                    lemma_fork_choice_unique(self@, p, c, i as int);
                    crate::board::lemma_empties_update(self@, i as int, p, 9);
                }
                return MoveResult::Move { board: self.with_cell(i, p) };
            },
            None => {},
        }
        // Rule 5: the center.
        if self.cells[4] == Cell::Empty {
            proof {
                crate::board::lemma_empties_update(self@, 4, p, 9);
            }
            return MoveResult::Move { board: self.with_cell(4, p) };
        }
        // Rule 6: the first free corner.
        if self.cells[0] == Cell::Empty {
            proof {
                crate::board::lemma_empties_update(self@, 0, p, 9);
            }
            return MoveResult::Move { board: self.with_cell(0, p) };
        }
        if self.cells[2] == Cell::Empty {
            proof {
                crate::board::lemma_empties_update(self@, 2, p, 9);
            }
            return MoveResult::Move { board: self.with_cell(2, p) };
        }
        if self.cells[6] == Cell::Empty {
            proof {
                crate::board::lemma_empties_update(self@, 6, p, 9);
            }
            return MoveResult::Move { board: self.with_cell(6, p) };
        }
        if self.cells[8] == Cell::Empty {
            proof {
                crate::board::lemma_empties_update(self@, 8, p, 9);
            }
            return MoveResult::Move { board: self.with_cell(8, p) };
        }
        // Rule 7: the first free cell.
        let i = self.first_empty();
        proof {
            crate::board::lemma_empties_update(self@, i as int, p, 9);
        }
        MoveResult::Move { board: self.with_cell(i, p) }
    }
}

} // verus!
