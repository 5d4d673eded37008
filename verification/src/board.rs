//! The board model: cells, the 3x3 board, and counting of empty cells.

use vstd::prelude::*;

verus! {

/// Number of cells on one side of the square board.
pub const ROW_SIZE: usize = 3;

/// Total number of cells on the board.
pub const BOARD_CELLS: usize = ROW_SIZE * ROW_SIZE;

/// One cell of the board: free, or marked by one of the two players.
#[derive(Clone, Copy, Debug, PartialEq, Eq, Structural)]
pub enum Cell {
    Empty,
    X,
    O,
}

/// The signed score of a cell: `X` counts +1, `O` counts -1, a free cell 0.
/// Line sums of these scores drive the whole engine.
pub open spec fn cell_score(c: Cell) -> int {
    match c {
        Cell::Empty => 0,
        Cell::X => 1,
        Cell::O => -1,
    }
}

/// The other player; the free cell is its own opponent.
pub open spec fn opposite(c: Cell) -> Cell {
    match c {
        Cell::Empty => Cell::Empty,
        Cell::X => Cell::O,
        Cell::O => Cell::X,
    }
}

impl Cell {
    /// Runtime form of [`cell_score`].
    pub fn score(self) -> (n: i8)
        ensures
            n as int == cell_score(self),
    {
        match self {
            Cell::Empty => 0,
            Cell::X => 1,
            Cell::O => -1,
        }
    }

    /// Runtime form of [`opposite`].
    pub fn opponent(self) -> (c: Cell)
        ensures
            c == opposite(self),
    {
        match self {
            Cell::Empty => Cell::Empty,
            Cell::X => Cell::O,
            Cell::O => Cell::X,
        }
    }
}

/// A 3x3 board: nine cells in row-major order (index = row * 3 + column).
#[derive(Debug)]
pub struct Board {
    pub cells: Vec<Cell>,
}

impl View for Board {
    type V = Seq<Cell>;

    open spec fn view(&self) -> Seq<Cell> {
        self.cells@
    }
}

impl Board {
    /// A board is well formed when it holds exactly nine cells.
    pub open spec fn wf(&self) -> bool {
        self@.len() == 9
    }

    /// The board on which no move has been made yet.
    pub fn empty() -> (b: Board)
        ensures
            b.wf(),
            forall|i: int| 0 <= i < 9 ==> b@[i] == Cell::Empty,
    {
        let mut cells: Vec<Cell> = Vec::new();
        let mut j: usize = 0;
        while j < BOARD_CELLS
            invariant
                j <= 9,
                cells@.len() == j,
                forall|i: int| 0 <= i < j ==> cells@[i] == Cell::Empty,
            decreases 9 - j,
        {
            cells.push(Cell::Empty);
            j = j + 1;
        }
        Board { cells }
    }

    /// A copy of the board with cell `i` set to `p`.
    pub fn with_cell(&self, i: usize, p: Cell) -> (b: Board)
        requires
            self.wf(),
            i < 9,
        ensures
            b.wf(),
            b@ == self@.update(i as int, p),
    {
        let mut cells: Vec<Cell> = Vec::new();
        let mut j: usize = 0;
        while j < BOARD_CELLS
            invariant
                self.wf(),
                i < 9,
                j <= 9,
                cells@.len() == j,
                forall|k: int| 0 <= k < j ==> cells@[k] == self@.update(i as int, p)[k],
            decreases 9 - j,
        {
            if j == i {
                cells.push(p);
            } else {
                cells.push(self.cells[j]);
            }
            j = j + 1;
        }
        proof {
            assert(cells@ =~= self@.update(i as int, p));
        }
        Board { cells }
    }
}

/// How many of the first `n` cells are empty.
pub open spec fn empties_below(s: Seq<Cell>, n: int) -> int
    decreases n,
{
    if n <= 0 {
        0
    } else {
        empties_below(s, n - 1) + if s[n - 1] == Cell::Empty {
            1int
        } else {
            0int
        }
    }
}

/// How many cells of a full board are empty.
pub open spec fn empty_count(s: Seq<Cell>) -> int {
    empties_below(s, 9)
}

/// The count of empty cells among the first `n` never leaves `0..=n`.
pub proof fn lemma_empties_bounds(s: Seq<Cell>, n: int)
    requires
        0 <= n,
    ensures
        0 <= empties_below(s, n) <= n,
    decreases n,
{
    if n > 0 {
        lemma_empties_bounds(s, n - 1);
    }
}

/// Every one of the first `n` cells is empty exactly when all `n` are
/// counted.
pub proof fn lemma_empties_all(s: Seq<Cell>, n: int)
    requires
        empties_below(s, n) == n,
    ensures
        forall|j: int| 0 <= j < n ==> s[j] == Cell::Empty,
    decreases n,
{
    if n > 0 {
        lemma_empties_bounds(s, n - 1);
        lemma_empties_all(s, n - 1);
    }
}

/// No empty cell among the first `n` exactly when none is counted.
pub proof fn lemma_empties_none(s: Seq<Cell>, n: int)
    ensures
        (empties_below(s, n) == 0 && n >= 0) <==> (forall|j: int|
            0 <= j < n ==> s[j] != Cell::Empty) && n >= 0,
    decreases n,
{
    if n > 0 {
        lemma_empties_bounds(s, n - 1);
        lemma_empties_none(s, n - 1);
    }
}

/// Overwriting one of the first `n` cells moves the count by the scores
/// of the old and the new cell alone.
pub proof fn lemma_empties_update(s: Seq<Cell>, i: int, p: Cell, n: int)
    requires
        0 <= i < s.len(),
        n <= s.len(),
    ensures
        i < n ==> empties_below(s.update(i, p), n) == empties_below(s, n) + (if p == Cell::Empty {
            1int
        } else {
            0int
        }) - (if s[i] == Cell::Empty {
            1int
        } else {
            0int
        }),
        i >= n ==> empties_below(s.update(i, p), n) == empties_below(s, n),
    decreases n,
{
    if n > 0 {
        lemma_empties_update(s, i, p, n - 1);
    }
}

/// Two distinct occupied cells leave at most `n - 2` empty cells among
/// the first `n`.
pub proof fn lemma_empties_two_taken(s: Seq<Cell>, n: int, a: int, b: int)
    requires
        0 <= a < b < n,
        s[a] != Cell::Empty,
        s[b] != Cell::Empty,
    ensures
        empties_below(s, n) <= n - 2,
    decreases n,
{
    if b == n - 1 {
        lemma_empties_bounds(s, n - 1);
        lemma_empties_one_taken(s, n - 1, a);
    } else {
        lemma_empties_two_taken(s, n - 1, a, b);
    }
}

/// One occupied cell leaves at most `n - 1` empty cells among the first
/// `n`.
pub proof fn lemma_empties_one_taken(s: Seq<Cell>, n: int, a: int)
    requires
        0 <= a < n,
        s[a] != Cell::Empty,
    ensures
        empties_below(s, n) <= n - 1,
    decreases n,
{
    if a == n - 1 {
        lemma_empties_bounds(s, n - 1);
    } else {
        lemma_empties_one_taken(s, n - 1, a);
    }
}

impl Board {
    /// Counts the empty cells of the board.
    pub fn count_empty(&self) -> (n: usize)
        requires
            self.wf(),
        ensures
            n as int == empty_count(self@),
    {
        let mut n: usize = 0;
        let mut j: usize = 0;
        while j < BOARD_CELLS
            invariant
                self.wf(),
                j <= 9,
                n <= j,
                n as int == empties_below(self@, j as int),
            decreases 9 - j,
        {
            if self.cells[j] == Cell::Empty {
                n = n + 1;
            }
            j = j + 1;
        }
        n
    }
}

} // verus!
