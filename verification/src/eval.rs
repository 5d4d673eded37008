//! Position evaluation: the eight line sums, the board total, and the
//! classification of a board as won, drawn, or still open.

use vstd::prelude::*;

use crate::board::Board;
use crate::board::Cell;
use crate::board::cell_score;

verus! {

/// Number of scored lines: three rows, three columns, two diagonals.
pub const LINE_COUNT: usize = 8;

/// The line sum that means three in a row for `X`; its negation means
/// three in a row for `O`.
pub const WIN_SUM: i8 = 3;

/// The board index of the `j`-th cell (0 <= j < 3) of line `k`, in the
/// canonical line order: rows 0..2, then columns 0..2, then the main
/// diagonal (top-left to bottom-right), then the anti-diagonal.
pub open spec fn line_cell(k: int, j: int) -> int {
    if k < 3 {
        3 * k + j
    } else if k < 6 {
        3 * j + (k - 3)
    } else if k == 6 {
        4 * j
    } else {
        2 * j + 2
    }
}

/// Whether board index `i` lies on line `k`.
pub open spec fn line_covers(k: int, i: int) -> bool {
    line_cell(k, 0) == i || line_cell(k, 1) == i || line_cell(k, 2) == i
}

/// The signed sum of the three cell scores on line `k`.
pub open spec fn line_sum(s: Seq<Cell>, k: int) -> int {
    cell_score(s[line_cell(k, 0)]) + cell_score(s[line_cell(k, 1)]) + cell_score(s[line_cell(k, 2)])
}

/// The signed sum of all nine cell scores. It is 0 exactly when it is
/// `X`'s turn, since `X` moves first and the players alternate.
pub open spec fn board_total(s: Seq<Cell>) -> int {
    cell_score(s[0]) + cell_score(s[1]) + cell_score(s[2]) + cell_score(s[3]) + cell_score(s[4])
        + cell_score(s[5]) + cell_score(s[6]) + cell_score(s[7]) + cell_score(s[8])
}

/// Whether some line carries the sum `v`.
pub open spec fn some_line_sums(s: Seq<Cell>, v: int) -> bool {
    exists|k: int| 0 <= k < 8 && line_sum(s, k) == v
}

/// Whether no cell of the board is free.
pub open spec fn is_full(s: Seq<Cell>) -> bool {
    forall|i: int| 0 <= i < 9 ==> s[i] != Cell::Empty
}

/// A terminal board: three in a row for either player, or full.
pub open spec fn is_terminal(s: Seq<Cell>) -> bool {
    some_line_sums(s, 3) || some_line_sums(s, -3) || is_full(s)
}

/// The winner reported for a terminal board, checked in a fixed order:
/// `X` first, then `O`, then the draw (reported as `Empty`).
pub open spec fn winner_of(s: Seq<Cell>) -> Cell {
    if some_line_sums(s, 3) {
        Cell::X
    } else if some_line_sums(s, -3) {
        Cell::O
    } else {
        Cell::Empty
    }
}

/// The three cells of one line are three distinct board indices.
pub proof fn lemma_line_cells(k: int)
    requires
        0 <= k < 8,
    ensures
        0 <= line_cell(k, 0) < 9,
        0 <= line_cell(k, 1) < 9,
        0 <= line_cell(k, 2) < 9,
        line_cell(k, 0) != line_cell(k, 1),
        line_cell(k, 0) != line_cell(k, 2),
        line_cell(k, 1) != line_cell(k, 2),
{
}

/// Every cell score lies in `-1..=1`, and is 0 exactly for a free cell.
pub proof fn lemma_cell_score(c: Cell)
    ensures
        -1 <= cell_score(c) <= 1,
        cell_score(c) == 0 <==> c == Cell::Empty,
{
}

/// A line sum lies in `-3..=3`.
pub proof fn lemma_line_sum_bounds(s: Seq<Cell>, k: int)
    requires
        0 <= k < 8,
    ensures
        -3 <= line_sum(s, k) <= 3,
{
    lemma_cell_score(s[line_cell(k, 0)]);
    lemma_cell_score(s[line_cell(k, 1)]);
    lemma_cell_score(s[line_cell(k, 2)]);
}

/// Overwriting one cell moves a line sum by the difference of the two
/// cell scores when the cell lies on the line, and not at all otherwise.
pub proof fn lemma_update_line_sum(s: Seq<Cell>, i: int, p: Cell, k: int)
    requires
        s.len() == 9,
        0 <= i < 9,
        0 <= k < 8,
    ensures
        line_sum(s.update(i, p), k) == line_sum(s, k) + (if line_covers(k, i) {
            cell_score(p) - cell_score(s[i])
        } else {
            0int
        }),
{
    lemma_line_cells(k);
}

/// Playing on a free cell moves the sums of the lines through that cell
/// by the player's score, and no other sum.
pub proof fn lemma_play_line_sums(s: Seq<Cell>, i: int, p: Cell)
    requires
        s.len() == 9,
        0 <= i < 9,
        s[i] == Cell::Empty,
    ensures
        forall|k: int|
            0 <= k < 8 ==> line_sum(s.update(i, p), k) == line_sum(s, k) + (if line_covers(k, i) {
                cell_score(p)
            } else {
                0int
            }),
{
    assert forall|k: int|
        0 <= k < 8 implies line_sum(s.update(i, p), k) == line_sum(s, k) + (if line_covers(k, i) {
        cell_score(p)
    } else {
        0int
    }) by {
        lemma_update_line_sum(s, i, p, k);
    }
}

/// A line whose sum says "two marks of player `q` and one free cell"
/// indeed carries a free cell.
pub proof fn lemma_threat_cell(s: Seq<Cell>, k: int, q: Cell)
    requires
        s.len() == 9,
        0 <= k < 8,
        q != Cell::Empty,
        line_sum(s, k) == 2 * cell_score(q),
    ensures
        exists|m: int| 0 <= m < 9 && #[trigger] line_covers(k, m) && s[m] == Cell::Empty,
{
    lemma_line_cells(k);
    lemma_cell_score(s[line_cell(k, 0)]);
    lemma_cell_score(s[line_cell(k, 1)]);
    lemma_cell_score(s[line_cell(k, 2)]);
    lemma_cell_score(q);
    if s[line_cell(k, 0)] == Cell::Empty {
        assert(line_covers(k, line_cell(k, 0)) && s[line_cell(k, 0)] == Cell::Empty);
    } else if s[line_cell(k, 1)] == Cell::Empty {
        assert(line_covers(k, line_cell(k, 1)) && s[line_cell(k, 1)] == Cell::Empty);
    } else {
        assert(s[line_cell(k, 2)] == Cell::Empty);
        assert(line_covers(k, line_cell(k, 2)) && s[line_cell(k, 2)] == Cell::Empty);
    }
}

/// A terminal board has at most seven free cells: a won board carries a
/// full line of three marks, and a drawn board is full.
pub proof fn lemma_terminal_few_empties(s: Seq<Cell>)
    requires
        s.len() == 9,
        is_terminal(s),
    ensures
        crate::board::empty_count(s) <= 7,
{
    if some_line_sums(s, 3) || some_line_sums(s, -3) {
        let v: int = if some_line_sums(s, 3) {
            3
        } else {
            -3
        };
        let k = choose|k: int| 0 <= k < 8 && line_sum(s, k) == v;
        lemma_line_cells(k);
        let a = line_cell(k, 0);
        let b = line_cell(k, 1);
        lemma_cell_score(s[a]);
        lemma_cell_score(s[b]);
        lemma_cell_score(s[line_cell(k, 2)]);
        assert(s[a] != Cell::Empty && s[b] != Cell::Empty);
        if a < b {
            crate::board::lemma_empties_two_taken(s, 9, a, b);
        } else {
            crate::board::lemma_empties_two_taken(s, 9, b, a);
        }
    } else {
        crate::board::lemma_empties_none(s, 9);
    }
}

/// The outcome of evaluating a position: either the game is over, or the
/// eight line sums and the board total, for move selection.
pub enum Evaluation {
    Sums { sums: Vec<i8>, total: i8 },
    GameOver { winner: Cell },
}

impl Board {
    /// The eight canonical line sums of the board.
    #[verifier::rlimit(60)]
    pub fn line_sums(&self) -> (sums: Vec<i8>)
        requires
            self.wf(),
        ensures
            sums@.len() == 8,
            forall|k: int| 0 <= k < 8 ==> sums@[k] as int == line_sum(self@, k),
    {
        let c0 = self.cells[0].score();
        let c1 = self.cells[1].score();
        let c2 = self.cells[2].score();
        let c3 = self.cells[3].score();
        let c4 = self.cells[4].score();
        let c5 = self.cells[5].score();
        let c6 = self.cells[6].score();
        let c7 = self.cells[7].score();
        let c8 = self.cells[8].score();
        let row0 = c0 + c1 + c2;
        let row1 = c3 + c4 + c5;
        let row2 = c6 + c7 + c8;
        let col0 = c0 + c3 + c6;
        let col1 = c1 + c4 + c7;
        let col2 = c2 + c5 + c8;
        let diag_main = c0 + c4 + c8;
        let diag_anti = c2 + c4 + c6;
        let mut sums: Vec<i8> = Vec::new();
        sums.push(row0);
        sums.push(row1);
        sums.push(row2);
        sums.push(col0);
        sums.push(col1);
        sums.push(col2);
        sums.push(diag_main);
        sums.push(diag_anti);
        proof {
            assert(line_sum(self@, 0) == row0 as int);
            assert(line_sum(self@, 1) == row1 as int);
            assert(line_sum(self@, 2) == row2 as int);
            assert(line_sum(self@, 3) == col0 as int);
            assert(line_sum(self@, 4) == col1 as int);
            assert(line_sum(self@, 5) == col2 as int);
            assert(line_sum(self@, 6) == diag_main as int);
            assert(line_sum(self@, 7) == diag_anti as int);
            assert forall|k: int| 0 <= k < 8 implies sums@[k] as int == line_sum(self@, k) by {
                if k == 0 {
                } else if k == 1 {
                } else if k == 2 {
                } else if k == 3 {
                } else if k == 4 {
                } else if k == 5 {
                } else if k == 6 {
                } else {
                    assert(k == 7);
                }
            }
        }
        sums
    }

    /// The signed total of all nine cell scores.
    pub fn total_score(&self) -> (t: i8)
        requires
            self.wf(),
        ensures
            t as int == board_total(self@),
    {
        let c0 = self.cells[0].score();
        let c1 = self.cells[1].score();
        let c2 = self.cells[2].score();
        let c3 = self.cells[3].score();
        let c4 = self.cells[4].score();
        let c5 = self.cells[5].score();
        let c6 = self.cells[6].score();
        let c7 = self.cells[7].score();
        let c8 = self.cells[8].score();
        c0 + c1 + c2 + c3 + c4 + c5 + c6 + c7 + c8
    }

    /// Classifies the board: reports the winner (or the draw) on a terminal
    /// board, and otherwise returns the eight canonical line sums together
    /// with the board total.
    pub fn evaluate(&self) -> (e: Evaluation)
        requires
            self.wf(),
        ensures
            match e {
                Evaluation::GameOver { winner } => is_terminal(self@) && winner == winner_of(
                    self@,
                ),
                Evaluation::Sums { sums, total } => !is_terminal(self@) && sums@.len() == 8
                    && total as int == board_total(self@) && (forall|k: int|
                    0 <= k < 8 ==> sums@[k] as int == line_sum(self@, k)),
            },
    {
        let sums = self.line_sums();
        let total = self.total_score();
        let mut x_won = false;
        let mut o_won = false;
        let mut j: usize = 0;
        while j < LINE_COUNT
            invariant
                sums@.len() == 8,
                forall|k: int| 0 <= k < 8 ==> sums@[k] as int == line_sum(self@, k),
                j <= 8,
                x_won == exists|k: int| 0 <= k < j && line_sum(self@, k) == 3,
                o_won == exists|k: int| 0 <= k < j && line_sum(self@, k) == -3,
            decreases 8 - j,
        {
            if sums[j] == WIN_SUM {
                x_won = true;
            }
            if sums[j] == -WIN_SUM {
                o_won = true;
            }
            j = j + 1;
        }
        if x_won {
            return Evaluation::GameOver { winner: Cell::X };
        }
        if o_won {
            return Evaluation::GameOver { winner: Cell::O };
        }
        let mut full = true;
        let mut j: usize = 0;
        while j < 9
            invariant
                self.wf(),
                j <= 9,
                full == (forall|i: int| 0 <= i < j ==> self@[i] != Cell::Empty),
            decreases 9 - j,
        {
            if self.cells[j] == Cell::Empty {
                full = false;
            }
            j = j + 1;
        }
        if full {
            return Evaluation::GameOver { winner: Cell::Empty };
        }
        Evaluation::Sums { sums, total }
    }
}

} // verus!
