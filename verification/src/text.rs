//! The nine-character text form of a board: `.` for a free cell, `X` and
//! `O` for the two players, in row-major cell order.

use vstd::prelude::*;
use vstd::string::StrSliceExecFns;
use vstd::string::StringExecFns;

use crate::board::BOARD_CELLS;
use crate::board::Board;
use crate::board::Cell;

verus! {

/// Why a state string was rejected.
#[derive(Clone, Copy, Debug, PartialEq, Eq)]
pub enum ParseError {
    /// The string does not hold exactly nine characters.
    InvalidLength { expected: usize, actual: usize },
    /// The first character, scanning left to right, that is none of
    /// `.`, `X`, `O`.
    InvalidCharacter { position: usize, value: char },
}

/// The character that stands for a cell.
pub open spec fn cell_char(c: Cell) -> char {
    match c {
        Cell::Empty => '.',
        Cell::X => 'X',
        Cell::O => 'O',
    }
}

/// The cell a valid character stands for. Characters outside the board
/// alphabet are mapped to the free cell; parsing rejects them first.
pub open spec fn char_cell(ch: char) -> Cell {
    if ch == 'X' {
        Cell::X
    } else if ch == 'O' {
        Cell::O
    } else {
        Cell::Empty
    }
}

/// Whether a character belongs to the board alphabet.
pub open spec fn is_cell_char(ch: char) -> bool {
    ch == '.' || ch == 'X' || ch == 'O'
}

/// The text form of a board.
pub open spec fn board_text(s: Seq<Cell>) -> Seq<char> {
    Seq::new(s.len(), |i: int| cell_char(s[i]))
}

/// The cells a text form stands for, character by character.
pub open spec fn text_cells(t: Seq<char>) -> Seq<Cell> {
    Seq::new(t.len(), |i: int| char_cell(t[i]))
}

impl Board {
    /// Writes the board as its nine-character text form.
    pub fn to_text(&self) -> (t: String)
        requires
            self.wf(),
        ensures
            t@ == board_text(self@),
    {
        proof {
            reveal_strlit(".");
            reveal_strlit("X");
            reveal_strlit("O");
        }
        let mut t = String::new();
        let mut j: usize = 0;
        while j < BOARD_CELLS
            invariant
                self.wf(),
                j <= 9,
                t@.len() == j,
                forall|i: int| 0 <= i < j ==> t@[i] == cell_char(self@[i]),
            decreases 9 - j,
        {
            proof {
                reveal_strlit(".");
                reveal_strlit("X");
                reveal_strlit("O");
            }
            match self.cells[j] {
                Cell::Empty => t.append("."),
                Cell::X => t.append("X"),
                Cell::O => t.append("O"),
            }
            j = j + 1;
        }
        proof {
            assert(t@ =~= board_text(self@));
        }
        t
    }

    /// Reads a board from its text form. Rejects a string that is not
    /// exactly nine characters long, and otherwise reports the first
    /// character that does not stand for a cell.
    pub fn from_text(s: &str) -> (r: Result<Board, ParseError>)
        ensures
            match r {
                Ok(b) => s@.len() == 9 && b.wf() && b@ == text_cells(s@) && (forall|i: int|
                    0 <= i < 9 ==> is_cell_char(s@[i])),
                Err(e) => match e {
                    ParseError::InvalidLength { expected, actual } => s@.len() != 9 && expected
                        == 9 && actual == s@.len(),
                    ParseError::InvalidCharacter { position, value } => s@.len() == 9 && position
                        < 9 && value == s@[position as int] && !is_cell_char(s@[position as int])
                        && (forall|j: int| 0 <= j < position ==> is_cell_char(s@[j])),
                },
            },
    {
        let n = s.unicode_len();
        if n != BOARD_CELLS {
            return Err(ParseError::InvalidLength { expected: BOARD_CELLS, actual: n });
        }
        let mut cells: Vec<Cell> = Vec::new();
        let mut j: usize = 0;
        while j < BOARD_CELLS
            invariant
                s@.len() == 9,
                j <= 9,
                cells@.len() == j,
                forall|i: int| 0 <= i < j ==> is_cell_char(s@[i]),
                forall|i: int| 0 <= i < j ==> cells@[i] == char_cell(s@[i]),
            decreases 9 - j,
        {
            let ch = s.get_char(j);
            if ch == 'X' {
                cells.push(Cell::X);
            } else if ch == 'O' {
                cells.push(Cell::O);
            } else if ch == '.' {
                cells.push(Cell::Empty);
            } else {
                return Err(ParseError::InvalidCharacter { position: j, value: ch });
            }
            j = j + 1;
        }
        let b = Board { cells };
        proof {
            assert(b@ =~= text_cells(s@));
        }
        Ok(b)
    }
}

/// Round trip: the text form of any nine-cell board parses back to the
/// very same board, character by character.
pub proof fn lemma_round_trip(s: Seq<Cell>)
    requires
        s.len() == 9,
    ensures
        board_text(s).len() == 9,
        forall|i: int| 0 <= i < 9 ==> is_cell_char(board_text(s)[i]),
        text_cells(board_text(s)) == s,
{
    assert forall|i: int| 0 <= i < 9 implies is_cell_char(board_text(s)[i]) by {
        match s[i] {
            Cell::Empty => {},
            Cell::X => {},
            Cell::O => {},
        }
    }
    assert forall|i: int| 0 <= i < 9 implies text_cells(board_text(s))[i] == s[i] by {
        match s[i] {
            Cell::Empty => {},
            Cell::X => {},
            Cell::O => {},
        }
    }
    assert(text_cells(board_text(s)) =~= s);
}

} // verus!
