//! The interaction layer: a cursor over the board, wrap-around movement,
//! and entry of digits at the cursor through the board's mutation contract.
//!
//! This layer holds no Sudoku rules of its own; it only translates
//! directional input into coordinates and forwards digits to
//! [`Board::add_number`].

use vstd::prelude::*;

use crate::board::Board;
use crate::board::SIDE;
use crate::grid::cell;
use crate::serial::push_char;

verus! {

/// The character shown for one cell: the display digit (one more than the
/// stored value), or an underscore for an empty cell.
pub open spec fn display_char(v: Option<usize>) -> char {
    match v {
        Some(d) => ((49 + d) as u8) as char,
        None => '_',
    }
}

/// Gets the display text for one cell of the board, and whether that cell
/// is a given.
///
/// The text is a single character: the cell's display digit, or `_` when
/// the cell is empty. The flag is true exactly for given (clue) cells.
pub fn get_string_value(row: usize, col: usize, board: &Board) -> (r: (String, bool))
    requires
        board.wf(),
        row < 9,
        col < 9,
    ensures
        r.0@ == seq![display_char(cell(board.entries@, row as int, col as int))],
        r.1 == (cell(board.givens@, row as int, col as int) is Some),
{
    let given = board.get_given(row, col);
    let entry = board.get(row, col);
    let c: char = match entry {
        Some(v) => (49u8 + v as u8) as char,
        None => '_',
    };
    let mut text = String::new();
    push_char(&mut text, c);
    proof {
        assert(text@ =~= seq![display_char(cell(board.entries@, row as int, col as int))]);
    }
    (text, given.is_some())
}

/// One game session: the board under play, the cursor, and the name of the
/// file the session is saved to.
pub struct App {
    /// The board to act upon.
    pub board: Board,
    /// The current active column position.
    pub active_column: isize,
    /// The current active row position.
    pub active_row: isize,
    /// The file name to save to.
    pub file_name: String,
}

impl App {
    /// The session's invariant: a well-formed board and a cursor inside it.
    pub open spec fn wf(self) -> bool {
        &&& self.board.wf()
        &&& 0 <= self.active_row < 9
        &&& 0 <= self.active_column < 9
    }

    /// Starts a session on the given board, with the cursor in the middle
    /// of the grid.
    pub fn with_board(board: Board, file_name: String) -> (r: Self)
        requires
            board.wf(),
        ensures
            r.wf(),
            r.board == board,
            r.active_row == 4,
            r.active_column == 4,
            r.file_name == file_name,
    {
        Self { board, active_column: (SIDE / 2) as isize, active_row: (SIDE / 2) as isize, file_name }
    }

    /// Moves the active position up, wrapping to the bottom row from the top.
    pub fn up(&mut self)
        requires
            old(self).wf(),
        ensures
            final(self).wf(),
            final(self).active_row == if old(self).active_row > 0 {
                old(self).active_row - 1
            } else {
                8
            },
            final(self).active_column == old(self).active_column,
            final(self).board == old(self).board,
            final(self).file_name == old(self).file_name,
    {
        self.active_row = if (self.active_row - 1) > -1 {
            self.active_row - 1
        } else {
            (SIDE - 1) as isize
        }
    }

    /// Moves the active position down, wrapping to the top row from the
    /// bottom.
    pub fn down(&mut self)
        requires
            old(self).wf(),
        ensures
            final(self).wf(),
            final(self).active_row == if old(self).active_row < 8 {
                old(self).active_row + 1
            } else {
                0
            },
            final(self).active_column == old(self).active_column,
            final(self).board == old(self).board,
            final(self).file_name == old(self).file_name,
    {
        self.active_row = if (self.active_row + 1) < (SIDE as isize) {
            self.active_row + 1
        } else {
            0
        }
    }

    /// Moves the active position left, wrapping to the last column from the
    /// first.
    pub fn left(&mut self)
        requires
            old(self).wf(),
        ensures
            final(self).wf(),
            final(self).active_column == if old(self).active_column > 0 {
                old(self).active_column - 1
            } else {
                8
            },
            final(self).active_row == old(self).active_row,
            final(self).board == old(self).board,
            final(self).file_name == old(self).file_name,
    {
        self.active_column = if (self.active_column - 1) > -1 {
            self.active_column - 1
        } else {
            (SIDE - 1) as isize
        }
    }

    /// Moves the active position right, wrapping to the first column from
    /// the last.
    pub fn right(&mut self)
        requires
            old(self).wf(),
        ensures
            final(self).wf(),
            final(self).active_column == if old(self).active_column < 8 {
                old(self).active_column + 1
            } else {
                0
            },
            final(self).active_row == old(self).active_row,
            final(self).board == old(self).board,
            final(self).file_name == old(self).file_name,
    {
        self.active_column = if (self.active_column + 1) < (SIDE as isize) {
            self.active_column + 1
        } else {
            0
        }
    }

    /// Gets the active position as (row, column).
    pub fn active(&self) -> (r: (usize, usize))
        requires
            self.wf(),
        ensures
            r.0 == self.active_row,
            r.1 == self.active_column,
            r.0 < 9,
            r.1 < 9,
    {
        (self.active_row as usize, self.active_column as usize)
    }

    /// Enters a display digit (1..=9, or 0 to erase) at the active
    /// position, through the board's mutation contract: the edit is applied,
    /// and `true` returned, exactly when the cell is not a given.
    pub fn enter(&mut self, digit: usize) -> (applied: bool)
        requires
            old(self).wf(),
            digit <= 9,
        ensures
            final(self).wf(),
            applied == (cell(
                old(self).board.givens@,
                old(self).active_row as int,
                old(self).active_column as int,
            ) is None),
            final(self).active_row == old(self).active_row,
            final(self).active_column == old(self).active_column,
            final(self).file_name == old(self).file_name,
            final(self).board.givens@ == old(self).board.givens@,
            final(self).board.solution@ == old(self).board.solution@,
            !applied ==> final(self).board.entries@ == old(self).board.entries@,
            applied ==> final(self).board.entries@ == old(self).board.entries@.update(
                old(self).active_row as int * 9 + old(self).active_column as int,
                if digit == 0 {
                    None
                } else {
                    Some((digit - 1) as usize)
                },
            ),
    {
        let (row, col) = self.active();
        self.board.add_number(col, row, digit)
    }
}

} // verus!
