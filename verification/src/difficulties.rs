//! Difficulty levels for puzzle generation.
//!
//! A difficulty selects a fixed divisor; the number of cells removed from a
//! freshly generated solution is `(81 * 3) / divisor`, so a higher divisor
//! means fewer removed cells and an easier puzzle.

use vstd::prelude::*;

verus! {

/// Used to change the difficulty of a given puzzle.
#[derive(Clone, Copy, Debug, PartialEq, Eq, Structural)]
pub enum Difficulties {
    Easy,
    Medium,
    Hard,
}

impl Difficulties {
    /// Used to get from a number to a difficulty.
    ///
    /// 0 = easy, 1 = medium, 2 = hard; any other number defaults to medium.
    pub fn from_num(num: u8) -> (r: Self)
        ensures
            r == match num {
                0u8 => Difficulties::Easy,
                2u8 => Difficulties::Hard,
                _ => Difficulties::Medium,
            },
    {
        match num {
            0 => Difficulties::Easy,
            1 => Difficulties::Medium,
            2 => Difficulties::Hard,
            _ => Difficulties::Medium,
        }
    }

    /// The removal divisor of this difficulty, as a spec-level value.
    pub open spec fn spec_value(&self) -> usize {
        match self {
            Difficulties::Easy => 16usize,
            Difficulties::Medium => 8usize,
            Difficulties::Hard => 4usize,
        }
    }

    /// The number of cells removed from a full solution at this difficulty:
    /// easy removes 15, medium removes 30, hard removes 60.
    pub open spec fn spec_removed(&self) -> usize {
        (243int / (self.spec_value() as int)) as usize
    }

    /// The divisor used to compute the number of removed cells.
    #[verifier::when_used_as_spec(spec_value)]
    pub fn value(&self) -> (r: usize)
        ensures
            r == self.spec_value(),
    {
        match self {
            Difficulties::Easy => 16,
            Difficulties::Medium => 8,
            Difficulties::Hard => 4,
        }
    }

    /// The lower-case name of the difficulty.
    pub fn name(&self) -> (r: &'static str)
        ensures
            self is Easy ==> r@ == "easy"@,
            self is Medium ==> r@ == "medium"@,
            self is Hard ==> r@ == "hard"@,
    {
        match self {
            Difficulties::Easy => "easy",
            Difficulties::Medium => "medium",
            Difficulties::Hard => "hard",
        }
    }
}

} // verus!
