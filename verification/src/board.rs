//! The puzzle board: three parallel 9x9 grids of optional digit values
//! (digits 0..=8, displayed 1..=9) with two counters.
//!
//! - `solution`: the fully solved reference grid, filled at generation and
//!   immutable afterwards; boards built any other way leave it empty.
//! - `givens`: the clue cells shown to the player; a cell is editable
//!   exactly when it has no given value.
//! - `entries`: the player's working grid; it starts equal to `givens` and
//!   is the only grid that [`Board::add_number`] mutates.
//!
//! `given_count` is the number of given cells and `filled_count` the number
//! of cells the player has filled beyond the givens; the puzzle is complete
//! when the two add up to 81.

use vstd::prelude::*;

use crate::difficulties::Difficulties;

use crate::grid::box_valid;
use crate::grid::box_seq;
use crate::grid::units_valid;
use crate::grid::cell;
use crate::grid::col_seq;
use crate::grid::col_valid;
use crate::grid::count_entered;
use crate::grid::count_given;
use crate::grid::grid_valid;
use crate::grid::grid_wf;
use crate::grid::lemma_count_entered_bounds;
use crate::grid::lemma_count_entered_pos;
use crate::grid::lemma_count_entered_self;
use crate::grid::lemma_count_entered_update;
use crate::grid::lemma_count_given_bounds;
use crate::grid::lemma_counts_cover;
use crate::grid::lemma_count_given_push;
use crate::grid::lemma_count_entered_push;
use crate::grid::row_seq;
use crate::grid::row_valid;
use crate::grid::unit_ok;

use crate::generate::lemma_pattern_grid_valid;
use crate::generate::lemma_shuffled_range;
use crate::generate::range_vec;
use crate::generate::removal;
use crate::generate::row_done;
use crate::generate::shuffle_values;
use crate::generate::sol_cell;

pub use crate::serial::char_of_cell;
pub use crate::serial::decode_entry_char;
pub use crate::serial::decode_given_char;
pub use crate::serial::is_cell_char;
pub use crate::serial::is_entry_char;
pub use crate::serial::is_given_char;
pub use crate::serial::serial_of;
pub use crate::serial::ParseError;
use crate::serial::push_char;

verus! {

/// Number of cells on one side of a box, and boxes on one side of the board.
pub const BASE: usize = 3;

/// Number of cells on one side of the board.
pub const SIDE: usize = 9;

/// Gets the box index of the cell with coordinates `x` (column) and `y`
/// (row): boxes are numbered row by row, three per band.
fn get_square(x: usize, y: usize) -> (r: usize)
    requires
        x < 9,
        y < 9,
    ensures
        r == (y / 3) * 3 + x / 3,
        r < 9,
{
    if y < BASE {
        if x < BASE {
            0
        } else if x < 6 {
            1
        } else {
            2
        }
    } else if y < 6 {
        if x < BASE {
            3
        } else if x < 6 {
            4
        } else {
            5
        }
    } else {
        if x < BASE {
            6
        } else if x < 6 {
            7
        } else {
            8
        }
    }
}

/// Converts linear coordinates to box-relative ones.
///
/// For the cell at column `x` and row `y`, returns the pair of the box
/// index and the cell-in-box index.
pub fn get_index(x: usize, y: usize) -> (r: (usize, usize))
    requires
        x < 9,
        y < 9,
    ensures
        r.0 == (y / 3) * 3 + x / 3,
        r.1 == (y % 3) * 3 + x % 3,
        r.0 < 9,
        r.1 < 9,
{
    let first_array = get_square(x, y);
    let x = x % BASE;
    let y = y % BASE;
    let second_array = (y * BASE) + x;
    (first_array, second_array)
}

/// Converts box-relative coordinates back to linear ones: for cell
/// `cell_number` of box `square_number`, returns the pair (column, row).
/// This is the inverse of [`get_index`].
pub fn square_to_point(square_number: usize, cell_number: usize) -> (r: (usize, usize))
    requires
        square_number < 9,
        cell_number < 9,
    ensures
        r.0 == (square_number % 3) * 3 + cell_number % 3,
        r.1 == (square_number / 3) * 3 + cell_number / 3,
        r.0 < 9,
        r.1 < 9,
{
    let col = (square_number % 3) * 3 + cell_number % 3;
    let row = (square_number / 3) * 3 + cell_number / 3;
    (col, row)
}

/// The base Latin-square pattern: for every row the map `c |-> pattern(r, c)`
/// is a permutation of 0..9, and likewise for every column and box.
pub open spec fn pattern_spec(r: int, c: int) -> int {
    (3 * (r % 3) + r / 3 + c) % 9
}

/// The base Latin-square pattern, executable form.
fn pattern(r: usize, c: usize) -> (p: usize)
    requires
        r < 9,
        c < 9,
    ensures
        p == pattern_spec(r as int, c as int),
        p < 9,
{
    (BASE * (r % BASE) + r / BASE + c) % SIDE
}

/// A value from a literal construction array: values 0..=8 are digits,
/// anything larger stands for an empty cell.
pub open spec fn decode_raw(v: usize) -> Option<usize> {
    if v < 9 {
        Some(v)
    } else {
        None
    }
}

/// An 81-cell grid with no value anywhere.
fn empty_grid() -> (r: Vec<Option<usize>>)
    ensures
        r@.len() == 81,
        forall|i: int| 0 <= i < 81 ==> (#[trigger] r@[i]) is None,
{
    let mut grid: Vec<Option<usize>> = Vec::new();
    for i in 0..81usize
        invariant
            grid@.len() == i,
            forall|j: int| 0 <= j < i ==> (#[trigger] grid@[j]) is None,
    {
        grid.push(None);
    }
    grid
}

/// A cell-for-cell copy of a grid.
fn copy_grid(g: &Vec<Option<usize>>) -> (r: Vec<Option<usize>>)
    ensures
        r@ == g@,
{
    let mut out: Vec<Option<usize>> = Vec::new();
    let n = g.len();
    for i in 0..n
        invariant
            n == g@.len(),
            out@.len() == i,
            forall|j: int| 0 <= j < i ==> out@[j] == g@[j],
    {
        out.push(g[i]);
    }
    proof {
        assert(out@ =~= g@);
    }
    out
}

/// The matrix of which the sudoku square is made: the current puzzle state.
pub struct Board {
    /// The solved reference grid; empty unless the board was generated.
    pub solution: Vec<Option<usize>>,
    /// The given (clue) cells; a cell is editable when absent here.
    pub givens: Vec<Option<usize>>,
    /// The player's working grid, givens included.
    pub entries: Vec<Option<usize>>,
    /// How many cells are given.
    pub given_count: usize,
    /// How many non-given cells the player has filled.
    pub filled_count: usize,
}

impl Board {
    /// The board's internal invariant: three well-formed grids, every given
    /// value repeated in the entry grid, and both counters accurate.
    pub open spec fn wf(self) -> bool {
        &&& grid_wf(self.solution@)
        &&& grid_wf(self.givens@)
        &&& grid_wf(self.entries@)
        &&& forall|i: int|
            0 <= i < 81 && (#[trigger] self.givens@[i]) is Some ==> self.entries@[i]
                == self.givens@[i]
        &&& self.given_count == count_given(self.givens@, 81)
        &&& self.filled_count == count_entered(self.givens@, self.entries@, 81)
    }

    /// Creates a new board with a freshly generated puzzle.
    ///
    /// A full solution grid is built by relabeling the base Latin-square
    /// pattern with a random permutation of the digits, walking the rows
    /// and columns in a random order; the solution is always a correct
    /// grid. Then as many cells as the difficulty asks for are cleared,
    /// drawn uniformly at random, and the rest become the givens.
    pub fn new(difficulty: &Difficulties) -> (r: Self)
        ensures
            r.wf(),
            grid_valid(r.solution@),
            forall|i: int| 0 <= i < 81 ==> (#[trigger] r.solution@[i]) is Some,
            r.givens@ == r.entries@,
            forall|i: int|
                0 <= i < 81 ==> ((#[trigger] r.givens@[i]) is Some ==> r.givens@[i]
                    == r.solution@[i]),
            r.given_count + difficulty.spec_removed() == 81,
            r.filled_count == 0,
    {
        let mut positions = empty_grid();

        let mut rows = range_vec(SIDE);
        let mut cols = range_vec(SIDE);
        let mut nums = range_vec(SIDE);
        proof {
            assert(rows@ =~= Seq::new(9, |i: int| i as usize));
            assert(cols@ =~= Seq::new(9, |i: int| i as usize));
            assert(nums@ =~= Seq::new(9, |i: int| i as usize));
        }
        shuffle_values(&mut rows);
        shuffle_values(&mut cols);
        shuffle_values(&mut nums);
        proof {
            lemma_shuffled_range(rows@, 9);
            lemma_shuffled_range(cols@, 9);
            lemma_shuffled_range(nums@, 9);
        }

        for i in 0..SIDE
            invariant
                rows@.len() == 9,
                cols@.len() == 9,
                nums@.len() == 9,
                rows@.no_duplicates(),
                forall|i0: int| 0 <= i0 < 9 ==> #[trigger] rows@[i0] < 9,
                forall|i0: int| 0 <= i0 < 9 ==> #[trigger] cols@[i0] < 9,
                forall|i0: int| 0 <= i0 < 9 ==> #[trigger] nums@[i0] < 9,
                forall|v: usize| v < 9 ==> cols@.contains(v),
                positions@.len() == 81,
                forall|i0: int|
                    0 <= i0 < i ==> row_done(positions@, nums@, #[trigger] rows@[i0] as int),
        {
            let r0 = rows[i];
            for j in 0..SIDE
                invariant
                    i < 9,
                    r0 == rows@[i as int],
                    r0 < 9,
                    rows@.len() == 9,
                    cols@.len() == 9,
                    nums@.len() == 9,
                    rows@.no_duplicates(),
                    forall|i0: int| 0 <= i0 < 9 ==> #[trigger] rows@[i0] < 9,
                    forall|i0: int| 0 <= i0 < 9 ==> #[trigger] cols@[i0] < 9,
                    forall|i0: int| 0 <= i0 < 9 ==> #[trigger] nums@[i0] < 9,
                    positions@.len() == 81,
                    forall|i0: int|
                        0 <= i0 < i ==> row_done(positions@, nums@, #[trigger] rows@[i0] as int),
                    forall|j0: int|
                        0 <= j0 < j ==> #[trigger] cell(positions@, r0 as int, cols@[j0] as int)
                            == sol_cell(nums@, r0 as int, cols@[j0] as int),
            {
                let c0 = cols[j];
                let p = pattern(r0, c0);
                let ghost prev = positions@;
                positions.set(r0 * 9 + c0, Some(nums[p]));
                proof {
                    assert(cell(positions@, r0 as int, c0 as int) == sol_cell(
                        nums@,
                        r0 as int,
                        c0 as int,
                    ));
                    assert forall|rr: int, cc: int|
                        0 <= rr < 9 && 0 <= cc < 9 && (rr != r0 || cc != c0) implies #[trigger] cell(
                        positions@,
                        rr,
                        cc,
                    ) == cell(prev, rr, cc) by {
                        assert(rr * 9 + cc != r0 as int * 9 + c0 as int);
                    }
                    assert forall|i0: int| 0 <= i0 < i implies row_done(
                        positions@,
                        nums@,
                        #[trigger] rows@[i0] as int,
                    ) by {
                        let rr = rows@[i0] as int;
                        assert(rows@[i0] != rows@[i as int]);
                        assert forall|cc: int| 0 <= cc < 9 implies #[trigger] cell(
                            positions@,
                            rr,
                            cc,
                        ) == sol_cell(nums@, rr, cc) by {
                            assert(cell(prev, rr, cc) == sol_cell(nums@, rr, cc));
                            assert(cell(positions@, rr, cc) == cell(prev, rr, cc));
                        }
                    }
                }
            }
            proof {
                assert forall|cc: int| 0 <= cc < 9 implies #[trigger] cell(
                    positions@,
                    r0 as int,
                    cc,
                ) == sol_cell(nums@, r0 as int, cc) by {
                    assert(cols@.contains(cc as usize));
                    let j0 = choose|j0: int| 0 <= j0 < cols@.len() && cols@[j0] == cc as usize;
                    assert(cell(positions@, r0 as int, cols@[j0] as int) == sol_cell(
                        nums@,
                        r0 as int,
                        cols@[j0] as int,
                    ));
                }
                assert(row_done(positions@, nums@, r0 as int));
            }
        }
        proof {
            assert forall|rr: int, cc: int| 0 <= rr < 9 && 0 <= cc < 9 implies #[trigger] cell(
                positions@,
                rr,
                cc,
            ) == sol_cell(nums@, rr, cc) by {
                assert(rows@.contains(rr as usize));
                let i0 = choose|i0: int| 0 <= i0 < rows@.len() && rows@[i0] == rr as usize;
                assert(row_done(positions@, nums@, rows@[i0] as int));
            }
            lemma_pattern_grid_valid(positions@, nums@);
            assert forall|t: int| 0 <= t < 81 implies (#[trigger] positions@[t]) is Some
                && ((positions@[t]) matches Some(v) ==> v < 9) by {
                let rr = t / 9;
                let cc = t % 9;
                assert(cell(positions@, rr, cc) == sol_cell(nums@, rr, cc));
                assert(0 <= pattern_spec(rr, cc) < 9);
            }
        }
        let solution = positions;
        let mut removed = copy_grid(&solution);
        let empty_squares = removal(&mut removed, difficulty);
        let entries = copy_grid(&removed);
        let board = Self {
            solution,
            givens: removed,
            entries,
            given_count: SIDE * SIDE - empty_squares,
            filled_count: 0,
        };
        proof {
            lemma_count_entered_self(board.givens@, 81);
        }
        board
    }

    /// Create a new empty board, with all positions filled with no value.
    pub fn new_empty() -> (r: Self)
        ensures
            r.wf(),
            forall|i: int| 0 <= i < 81 ==> (#[trigger] r.entries@[i]) is None,
            forall|i: int| 0 <= i < 81 ==> (#[trigger] r.givens@[i]) is None,
            forall|i: int| 0 <= i < 81 ==> (#[trigger] r.solution@[i]) is None,
            r.given_count == 0,
            r.filled_count == 0,
    {
        let r = Self {
            solution: empty_grid(),
            givens: empty_grid(),
            entries: empty_grid(),
            given_count: 0,
            filled_count: 0,
        };
        proof {
            lemma_all_none_counts(r.givens@, r.entries@);
        }
        r
    }

    /// Used to create and fill a board with values; the inner arrays are the
    /// boxes, in box order. Every cell holding a value 0..=8 becomes a given.
    pub fn with_squares(info: [[usize; 9]; 9]) -> (r: Self)
        ensures
            r.wf(),
            forall|rr: int, cc: int|
                #![trigger cell(r.entries@, rr, cc)]
                0 <= rr < 9 && 0 <= cc < 9 ==> cell(r.entries@, rr, cc) == decode_raw(
                    info@[(rr / 3) * 3 + cc / 3]@[(rr % 3) * 3 + cc % 3],
                ),
            r.givens@ == r.entries@,
            forall|i: int| 0 <= i < 81 ==> (#[trigger] r.solution@[i]) is None,
            r.filled_count == 0,
    {
        let mut filled: Vec<Option<usize>> = Vec::new();
        let mut count: usize = 0;
        for r in 0..9usize
            invariant
                filled@.len() == 9 * r,
                count == count_given(filled@, 9 * r),
                count <= 9 * r,
                forall|rr: int, cc: int|
                    0 <= rr < r && 0 <= cc < 9 ==> #[trigger] filled@[rr * 9 + cc] == decode_raw(
                        info@[(rr / 3) * 3 + cc / 3]@[(rr % 3) * 3 + cc % 3],
                    ),
        {
            for c in 0..9usize
                invariant
                    r < 9,
                    filled@.len() == 9 * r + c,
                    count == count_given(filled@, 9 * r + c),
                    count <= 9 * r + c,
                    forall|rr: int, cc: int|
                        0 <= rr < r && 0 <= cc < 9 ==> #[trigger] filled@[rr * 9 + cc]
                            == decode_raw(info@[(rr / 3) * 3 + cc / 3]@[(rr % 3) * 3 + cc % 3]),
                    forall|cc: int|
                        0 <= cc < c ==> #[trigger] filled@[r as int * 9 + cc] == decode_raw(
                            info@[(r as int / 3) * 3 + cc / 3]@[(r as int % 3) * 3 + cc % 3],
                        ),
            {
                let (first, second) = get_index(c, r);
                let value = info[first][second];
                let entry = if value < 9 {
                    Some(value)
                } else {
                    None
                };
                proof {
                    lemma_count_given_push(filled@, entry);
                }
                filled.push(entry);
                if value < 9 {
                    count = count + 1;
                }
            }
        }
        proof {
            assert forall|i: int| 0 <= i < 81 implies ((#[trigger] filled@[i]) matches Some(v)
                ==> v < 9) by {
                let rr = i / 9;
                let cc = i % 9;
                assert(filled@[rr * 9 + cc] == decode_raw(
                    info@[(rr / 3) * 3 + cc / 3]@[(rr % 3) * 3 + cc % 3],
                ));
            }
        }
        Self::assemble_given(filled, count)
    }

    /// Used to create and fill a board with values; the inner arrays are the
    /// rows, top to bottom. Every cell holding a value 0..=8 becomes a given.
    pub fn with_rows(info: [[usize; 9]; 9]) -> (r: Self)
        ensures
            r.wf(),
            forall|rr: int, cc: int|
                0 <= rr < 9 && 0 <= cc < 9 ==> cell(r.entries@, rr, cc) == decode_raw(
                    #[trigger] info@[rr]@[cc],
                ),
            r.givens@ == r.entries@,
            forall|i: int| 0 <= i < 81 ==> (#[trigger] r.solution@[i]) is None,
            r.filled_count == 0,
    {
        let mut filled: Vec<Option<usize>> = Vec::new();
        let mut count: usize = 0;
        for r in 0..9usize
            invariant
                filled@.len() == 9 * r,
                count == count_given(filled@, 9 * r),
                count <= 9 * r,
                forall|rr: int, cc: int|
                    0 <= rr < r && 0 <= cc < 9 ==> filled@[rr * 9 + cc] == decode_raw(
                        #[trigger] info@[rr]@[cc],
                    ),
        {
            for c in 0..9usize
                invariant
                    r < 9,
                    filled@.len() == 9 * r + c,
                    count == count_given(filled@, 9 * r + c),
                    count <= 9 * r + c,
                    forall|rr: int, cc: int|
                        0 <= rr < r && 0 <= cc < 9 ==> filled@[rr * 9 + cc] == decode_raw(
                            #[trigger] info@[rr]@[cc],
                        ),
                    forall|cc: int|
                        0 <= cc < c ==> filled@[r as int * 9 + cc] == decode_raw(
                            #[trigger] info@[r as int]@[cc],
                        ),
            {
                let value = info[r][c];
                let entry = if value < 9 {
                    Some(value)
                } else {
                    None
                };
                proof {
                    lemma_count_given_push(filled@, entry);
                }
                filled.push(entry);
                if value < 9 {
                    count = count + 1;
                }
            }
        }
        proof {
            assert forall|i: int| 0 <= i < 81 implies ((#[trigger] filled@[i]) matches Some(v)
                ==> v < 9) by {
                let rr = i / 9;
                let cc = i % 9;
                assert(filled@[rr * 9 + cc] == decode_raw(info@[rr]@[cc]));
            }
        }
        Self::assemble_given(filled, count)
    }

    /// Packs a grid of givens into a board whose entry grid starts equal to
    /// it, with an accurate given count and no player entries yet.
    fn assemble_given(filled: Vec<Option<usize>>, count: usize) -> (r: Self)
        requires
            grid_wf(filled@),
            count == count_given(filled@, 81),
        ensures
            r.wf(),
            r.entries@ == filled@,
            r.givens@ == filled@,
            forall|i: int| 0 <= i < 81 ==> (#[trigger] r.solution@[i]) is None,
            r.given_count == count,
            r.filled_count == 0,
    {
        let givens = copy_grid(&filled);
        let board = Self {
            solution: empty_grid(),
            givens,
            entries: filled,
            given_count: count,
            filled_count: 0,
        };
        proof {
            lemma_count_entered_self(board.givens@, 81);
        }
        board
    }

    /// The entry-grid value at row `y`, column `x`.
    pub fn get(&self, y: usize, x: usize) -> (r: Option<usize>)
        requires
            self.wf(),
            y < 9,
            x < 9,
        ensures
            r == cell(self.entries@, y as int, x as int),
    {
        self.entries[y * 9 + x]
    }

    /// The given-grid value at row `y`, column `x`; `Some` exactly when the
    /// cell is a clue and therefore not editable.
    pub fn get_given(&self, y: usize, x: usize) -> (r: Option<usize>)
        requires
            self.wf(),
            y < 9,
            x < 9,
        ensures
            r == cell(self.givens@, y as int, x as int),
    {
        self.givens[y * 9 + x]
    }

    /// The solution-grid value at row `y`, column `x`; absent unless the
    /// board was generated.
    pub fn get_solution(&self, y: usize, x: usize) -> (r: Option<usize>)
        requires
            self.wf(),
            y < 9,
            x < 9,
        ensures
            r == cell(self.solution@, y as int, x as int),
    {
        self.solution[y * 9 + x]
    }

    /// Adds a number to a position not filled in the starting board.
    ///
    /// `x` is the column and `y` the row; `num` is the display digit to
    /// fill with: 1..=9 enters the digit, 0 erases. The mutation is applied,
    /// and `true` returned, exactly when the cell is not a given; a given
    /// cell is left untouched and the call reports `false`.
    pub fn add_number(&mut self, x: usize, y: usize, num: usize) -> (applied: bool)
        requires
            old(self).wf(),
            x < 9,
            y < 9,
            num <= 9,
        ensures
            final(self).wf(),
            applied == (cell(old(self).givens@, y as int, x as int) is None),
            final(self).givens@ == old(self).givens@,
            final(self).solution@ == old(self).solution@,
            final(self).given_count == old(self).given_count,
            !applied ==> final(self).entries@ == old(self).entries@ && final(self).filled_count
                == old(self).filled_count,
            applied ==> final(self).entries@ == old(self).entries@.update(
                y as int * 9 + x,
                if num == 0 {
                    None
                } else {
                    Some((num - 1) as usize)
                },
            ),
    {
        let num = if num > 0 {
            Some(num - 1)
        } else {
            None
        };
        let idx = y * 9 + x;
        if self.givens[idx].is_none() {
            proof {
                lemma_count_entered_bounds(self.givens@, self.entries@, 81);
                if self.entries@[idx as int] is Some {
                    lemma_count_entered_pos(self.givens@, self.entries@, 81, idx as int);
                }
                lemma_count_entered_update(self.givens@, self.entries@, 81, idx as int, num);
            }
            if self.entries[idx].is_none() {
                self.filled_count = self.filled_count + 1;
            }
            if num.is_none() {
                self.filled_count = self.filled_count - 1;
            }
            self.entries.set(idx, num);
            true
        } else {
            false
        }
    }

    /// Used to test if the board has been filled: true when the count of
    /// player-filled cells and the count of givens together cover the board.
    pub fn test_filled(&self) -> (r: bool)
        requires
            self.wf(),
        ensures
            r == (self.filled_count + self.given_count == 81),
    {
        proof {
            lemma_count_given_bounds(self.givens@, 81);
            lemma_count_entered_bounds(self.givens@, self.entries@, 81);
        }
        (self.filled_count + self.given_count) == SIDE * SIDE
    }

    /// Method to test the whole board: true exactly when every row, column
    /// and box holds nine distinct values.
    pub fn test_board(&self) -> (r: bool)
        requires
            self.wf(),
        ensures
            r == grid_valid(self.entries@),
    {
        let mut returnval = true;
        for each in 0..9usize
            invariant
                self.wf(),
                returnval == (forall|u: int| 0 <= u < each ==> #[trigger] units_valid(
                    self.entries@,
                    u,
                )),
        {
            let row_ok = self.test_row(each);
            let col_ok = self.test_column(each);
            let square_ok = self.test_square(each);
            let ghost prev = returnval;
            returnval = returnval && row_ok && col_ok && square_ok;
            proof {
                let s = self.entries@;
                assert(units_valid(s, each as int) == (row_ok && col_ok && square_ok));
                if returnval {
                    assert forall|u: int| 0 <= u < each + 1 implies #[trigger] units_valid(
                        s,
                        u,
                    ) by {
                        if u < each {
                            assert(units_valid(s, u));
                        }
                    }
                } else if !prev {
                    assert(!(forall|u: int| 0 <= u < each + 1 ==> #[trigger] units_valid(s, u)))
                        by {
                        if forall|u: int| 0 <= u < each + 1 ==> #[trigger] units_valid(s, u) {
                            assert forall|u: int| 0 <= u < each implies #[trigger] units_valid(
                                s,
                                u,
                            ) by {
                                assert(units_valid(s, u));
                            }
                        }
                    }
                }
            }
        }
        returnval
    }

    /// Method to test a given row: true if every cell is present and no
    /// value is seen twice.
    pub fn test_row(&self, row: usize) -> (r: bool)
        requires
            self.wf(),
            row < 9,
        ensures
            r == row_valid(self.entries@, row as int),
    {
        let mut vals: Vec<Option<usize>> = Vec::new();
        for column in 0..9usize
            invariant
                self.wf(),
                row < 9,
                vals@.len() == column,
                forall|j: int| 0 <= j < column ==> vals@[j] == cell(self.entries@, row as int, j),
        {
            vals.push(self.entries[row * 9 + column]);
        }
        proof {
            assert(vals@ =~= row_seq(self.entries@, row as int));
        }
        unit_ok(&vals)
    }

    /// Method to test a given column: true if every cell is present and no
    /// value is seen twice.
    pub fn test_column(&self, column: usize) -> (r: bool)
        requires
            self.wf(),
            column < 9,
        ensures
            r == col_valid(self.entries@, column as int),
    {
        let mut vals: Vec<Option<usize>> = Vec::new();
        for row in 0..9usize
            invariant
                self.wf(),
                column < 9,
                vals@.len() == row,
                forall|j: int| 0 <= j < row ==> vals@[j] == cell(self.entries@, j, column as int),
        {
            vals.push(self.entries[row * 9 + column]);
        }
        proof {
            assert(vals@ =~= col_seq(self.entries@, column as int));
        }
        unit_ok(&vals)
    }

    /// Method to test a box: true if every cell is present and no value is
    /// seen twice. Boxes are numbered 0..=8, row by row.
    pub fn test_square(&self, square: usize) -> (r: bool)
        requires
            self.wf(),
            square < 9,
        ensures
            r == box_valid(self.entries@, square as int),
    {
        let mut vals: Vec<Option<usize>> = Vec::new();
        for position in 0..9usize
            invariant
                self.wf(),
                square < 9,
                vals@.len() == position,
                forall|j: int|
                    0 <= j < position ==> vals@[j] == cell(
                        self.entries@,
                        (square as int / 3) * 3 + j / 3,
                        (square as int % 3) * 3 + j % 3,
                    ),
        {
            let (col, row) = square_to_point(square, position);
            vals.push(self.entries[row * 9 + col]);
        }
        proof {
            assert(vals@ =~= box_seq(self.entries@, square as int));
        }
        unit_ok(&vals)
    }

    /// Converts the board to its parseable 81-character string: `.` for an
    /// empty cell, the digit itself for a plain entry, and a letter (with
    /// `a` as 0) for a given value.
    pub fn to_string(&self) -> (r: String)
        requires
            self.wf(),
        ensures
            r@ == serial_of(self.givens@, self.entries@),
            r@.len() == 81,
    {
        let mut output = String::new();
        for i in 0..81usize
            invariant
                self.wf(),
                output@.len() == i,
                forall|j: int|
                    0 <= j < i ==> output@[j] == char_of_cell(
                        #[trigger] self.givens@[j],
                        self.entries@[j],
                    ),
        {
            let c: char = match self.givens[i] {
                Some(v) => (97u8 + v as u8) as char,
                None => match self.entries[i] {
                    Some(v) => (48u8 + v as u8) as char,
                    None => '.',
                },
            };
            push_char(&mut output, c);
        }
        proof {
            assert(output@ =~= serial_of(self.givens@, self.entries@));
        }
        output
    }

    /// Used to create a board from a string of exactly 81 characters, one
    /// cell per character in row-major order: `.` for an empty cell, a digit
    /// `0`..=`8` for a player entry, and a letter `a`..=`i` for a given
    /// value. Any other text is rejected with the fitting [`ParseError`].
    pub fn from_string(string: String) -> (r: Result<Self, ParseError>)
        ensures
            r is Ok <==> (string@.len() == 81 && forall|i: int|
                0 <= i < 81 ==> is_cell_char(#[trigger] string@[i])),
            string@.len() != 81 ==> r == Err::<Self, ParseError>(ParseError::WrongLength),
            (string@.len() == 81 && exists|i: int|
                0 <= i < 81 && !is_cell_char(#[trigger] string@[i])) ==> r == Err::<
                Self,
                ParseError,
            >(ParseError::InvalidCharacter),
            r matches Ok(b) ==> {
                &&& b.wf()
                &&& b.givens@ == Seq::new(81, |i: int| decode_given_char(string@[i]))
                &&& b.entries@ == Seq::new(81, |i: int| decode_entry_char(string@[i]))
                &&& forall|i: int| 0 <= i < 81 ==> (#[trigger] b.solution@[i]) is None
            },
    {
        let s = string.as_str();
        if s.unicode_len() != 81 {
            return Err(ParseError::WrongLength);
        }
        let mut givens: Vec<Option<usize>> = Vec::new();
        let mut entries: Vec<Option<usize>> = Vec::new();
        let mut given_count: usize = 0;
        let mut filled_count: usize = 0;
        for pos in 0..81usize
            invariant
                string@.len() == 81,
                s@ == string@,
                givens@.len() == pos,
                entries@.len() == pos,
                given_count <= pos,
                filled_count <= pos,
                given_count == count_given(givens@, pos as int),
                filled_count == count_entered(givens@, entries@, pos as int),
                forall|j: int| 0 <= j < pos ==> is_cell_char(#[trigger] string@[j]),
                forall|j: int|
                    0 <= j < pos ==> #[trigger] givens@[j] == decode_given_char(string@[j]),
                forall|j: int|
                    0 <= j < pos ==> #[trigger] entries@[j] == decode_entry_char(string@[j]),
        {
            let each = s.get_char(pos);
            let code = each as u32;
            let given_cell: Option<usize>;
            let entry_cell: Option<usize>;
            if each == '.' {
                given_cell = None;
                entry_cell = None;
            } else if 48 <= code && code <= 56 {
                given_cell = None;
                entry_cell = Some((code - 48) as usize);
                filled_count = filled_count + 1;
            } else if 97 <= code && code <= 105 {
                given_cell = Some((code - 97) as usize);
                entry_cell = given_cell;
                given_count = given_count + 1;
            } else {
                return Err(ParseError::InvalidCharacter);
            }
            proof {
                lemma_count_given_push(givens@, given_cell);
                lemma_count_entered_push(givens@, entries@, given_cell, entry_cell);
            }
            givens.push(given_cell);
            entries.push(entry_cell);
        }
        let board = Self {
            solution: empty_grid(),
            givens,
            entries,
            given_count,
            filled_count,
        };
        proof {
            assert(board.givens@ =~= Seq::new(81, |i: int| decode_given_char(string@[i])));
            assert(board.entries@ =~= Seq::new(81, |i: int| decode_entry_char(string@[i])));
        }
        Ok(board)
    }
}

/// Completeness law: on a well-formed board the counter test that
/// [`Board::test_filled`] reports is exactly "no cell of the entry grid is
/// empty": the given cells and the player-filled cells together cover the
/// board if and only if every cell holds a value.
pub proof fn lemma_filled_means_no_empty_cell(b: Board)
    requires
        b.wf(),
    ensures
        (b.filled_count + b.given_count == 81) <==> (forall|i: int|
            0 <= i < 81 ==> (#[trigger] b.entries@[i]) is Some),
{
    lemma_counts_cover(b.givens@, b.entries@, 81);
}

/// Grids with no value anywhere have zero counts.
proof fn lemma_all_none_counts(g: Seq<Option<usize>>, e: Seq<Option<usize>>)
    requires
        forall|i: int| 0 <= i < 81 ==> (#[trigger] g[i]) is None,
        forall|i: int| 0 <= i < 81 ==> (#[trigger] e[i]) is None,
    ensures
        count_given(g, 81) == 0,
        count_entered(g, e, 81) == 0,
{
    lemma_all_none_counts_rec(g, e, 81);
}

proof fn lemma_all_none_counts_rec(g: Seq<Option<usize>>, e: Seq<Option<usize>>, n: int)
    requires
        forall|i: int| 0 <= i < n ==> (#[trigger] g[i]) is None,
        forall|i: int| 0 <= i < n ==> (#[trigger] e[i]) is None,
    ensures
        count_given(g, n) == 0,
        count_entered(g, e, n) == 0,
    decreases n,
{
    if n > 0 {
        lemma_all_none_counts_rec(g, e, n - 1);
    }
}

} // verus!
