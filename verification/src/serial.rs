//! The 81-character save format and its laws.
//!
//! Each cell is one character, in row-major order: `.` for an empty cell,
//! a digit `0`..=`8` for a player entry, and a letter `a`..=`i` for a
//! given value (`a` is 0). Encoding and decoding are exact inverses on
//! every well-formed board, which [`lemma_serialized_round_trip`] states
//! and proves.

use vstd::prelude::*;

use crate::board::Board;

verus! {

/// Why a saved-board text was rejected.
#[derive(Clone, Copy, Debug, PartialEq, Eq, Structural)]
pub enum ParseError {
    /// The text does not hold exactly 81 characters.
    WrongLength,
    /// A character is not `.`, a digit `0`..=`8`, or a letter `a`..=`i`.
    InvalidCharacter,
}

/// The character encodes a given (clue) cell: a letter `a`..=`i`.
pub open spec fn is_given_char(c: char) -> bool {
    97 <= c as u32 <= 105
}

/// The character encodes a player-entered cell: a digit `0`..=`8`.
pub open spec fn is_entry_char(c: char) -> bool {
    48 <= c as u32 <= 56
}

/// The character is one of the three legal cell encodings.
pub open spec fn is_cell_char(c: char) -> bool {
    c == '.' || is_entry_char(c) || is_given_char(c)
}

/// The given-grid value a character decodes to: letters only.
pub open spec fn decode_given_char(c: char) -> Option<usize> {
    if is_given_char(c) {
        Some((c as u32 - 97) as usize)
    } else {
        None
    }
}

/// The entry-grid value a character decodes to: a digit is a player entry,
/// a letter is a given repeated in the entry grid, a dot is empty.
pub open spec fn decode_entry_char(c: char) -> Option<usize> {
    if is_entry_char(c) {
        Some((c as u32 - 48) as usize)
    } else if is_given_char(c) {
        Some((c as u32 - 97) as usize)
    } else {
        None
    }
}

/// The character a cell serializes to: a given value as a letter (`'a'` is
/// 0), a plain entry as a digit character, an empty cell as `'.'`.
pub open spec fn char_of_cell(g: Option<usize>, e: Option<usize>) -> char {
    match g {
        Some(v) => ((97 + v) as u8) as char,
        None => match e {
            Some(v) => ((48 + v) as u8) as char,
            None => '.',
        },
    }
}

/// The 81-character serialization of a pair of given and entry grids, one
/// cell per character in row-major order.
pub open spec fn serial_of(g: Seq<Option<usize>>, e: Seq<Option<usize>>) -> Seq<char> {
    Seq::new(81, |i: int| char_of_cell(g[i], e[i]))
}

/// Relies on String::push: appends exactly the one given character.
#[verifier::external_body]
pub(crate) fn push_char(s: &mut String, c: char)
    ensures
        final(s)@ == old(s)@ + seq![c],
{
    s.push(c);
}

/// Round-trip law: the serialization of any well-formed board is accepted
/// by the parser and decodes back to the same given and entry grids; only
/// the solution grid is not persisted. Together with the contracts of
/// [`Board::to_string`] and [`Board::from_string`], parsing a board's
/// string form rebuilds the board, counters included.
pub proof fn lemma_serialized_round_trip(b: Board)
    requires
        b.wf(),
    ensures
        serial_of(b.givens@, b.entries@).len() == 81,
        forall|i: int|
            0 <= i < 81 ==> is_cell_char(#[trigger] serial_of(b.givens@, b.entries@)[i]),
        Seq::new(81, |i: int| decode_given_char(serial_of(b.givens@, b.entries@)[i]))
            == b.givens@,
        Seq::new(81, |i: int| decode_entry_char(serial_of(b.givens@, b.entries@)[i]))
            == b.entries@,
{
    let s = serial_of(b.givens@, b.entries@);
    assert forall|i: int| 0 <= i < 81 implies is_cell_char(#[trigger] s[i]) && decode_given_char(
        s[i],
    ) == b.givens@[i] && decode_entry_char(s[i]) == b.entries@[i] by {
        let g = b.givens@[i];
        let e = b.entries@[i];
        assert(s[i] == char_of_cell(g, e));
        match g {
            Some(v) => {
                assert(v < 9);
                assert(e == g);
            },
            None => {
                match e {
                    Some(v) => {
                        assert(v < 9);
                    },
                    None => {},
                }
            },
        }
    }
    assert(Seq::new(81, |i: int| decode_given_char(s[i])) =~= b.givens@);
    assert(Seq::new(81, |i: int| decode_entry_char(s[i])) =~= b.entries@);
}

} // verus!
