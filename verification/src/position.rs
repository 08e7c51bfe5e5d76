//! A cell position on the board, with an optional value.
//!
//! A position carries its linear coordinates, the pair of box index and
//! cell-in-box index for those coordinates, and an optional digit value.

use vstd::prelude::*;

use crate::board::get_index;

verus! {

/// A board coordinate with an optional digit value.
///
/// Two positions are equal when their coordinates are equal; the value does
/// not take part in equality.
#[derive(Clone, Copy, Debug)]
pub struct Position {
    /// The coordinate on the x-axis (the column).
    pub x: usize,
    /// The coordinate on the y-axis (the row).
    pub y: usize,
    /// A pair of indexes derived from the coordinates.
    pub index: (usize, usize),
    /// The optional digit value held at this position.
    pub value: Option<usize>,
}

impl Position {
    /// Create a new position with an x and y, and no value.
    ///
    /// The derived index pair is simply the coordinate pair itself.
    pub fn new(x: usize, y: usize) -> (r: Self)
        ensures
            r.x == x,
            r.y == y,
            r.index == (x, y),
            r.value is None,
    {
        Self { x, y, index: (x, y), value: None }
    }

    /// Create a new position with an x, a y and a value.
    ///
    /// The derived index pair is the (box, cell-in-box) pair of the
    /// coordinates.
    pub fn with_value(x: usize, y: usize, value: usize) -> (r: Self)
        requires
            x < 9,
            y < 9,
        ensures
            r.x == x,
            r.y == y,
            r.index.0 == (y / 3) * 3 + x / 3 && r.index.1 == (y % 3) * 3 + x % 3,
            r.value == Some(value),
    {
        Self { x, y, index: get_index(x, y), value: Some(value) }
    }

    /// Reset the coordinates and give the position a value.
    pub fn reset(&mut self, x: usize, y: usize, value: usize)
        ensures
            final(self).x == x,
            final(self).y == y,
            final(self).index == old(self).index,
            final(self).value == Some(value),
    {
        self.x = x;
        self.y = y;
        self.value = Some(value);
    }

    /// Reset the coordinates, keeping whatever value is present.
    pub fn reset_none(&mut self, x: usize, y: usize)
        ensures
            final(self).x == x,
            final(self).y == y,
            final(self).index == old(self).index,
            final(self).value == old(self).value,
    {
        self.x = x;
        self.y = y;
    }

    /// Gets the value.
    pub fn get_value(&self) -> (r: Option<usize>)
        ensures
            r == self.value,
    {
        self.value
    }

    /// Sets the value.
    pub fn set_value(&mut self, value: usize)
        ensures
            final(self).x == old(self).x,
            final(self).y == old(self).y,
            final(self).index == old(self).index,
            final(self).value == Some(value),
    {
        self.value = Some(value);
    }

    /// Sets the value directly from an optional digit.
    pub fn set_dir(&mut self, value: Option<usize>)
        ensures
            final(self).x == old(self).x,
            final(self).y == old(self).y,
            final(self).index == old(self).index,
            final(self).value == value,
    {
        self.value = value;
    }
}

impl PartialEq for Position {
    /// Positions compare by their coordinates alone.
    fn eq(&self, other: &Self) -> (r: bool) {
        self.x == other.x && self.y == other.y
    }
}

impl vstd::std_specs::cmp::PartialEqSpecImpl for Position {
    open spec fn obeys_eq_spec() -> bool {
        true
    }

    open spec fn eq_spec(&self, other: &Self) -> bool {
        self.x == other.x && self.y == other.y
    }
}

impl Default for Position {
    /// The default position is the origin, with no value.
    fn default() -> (r: Self)
        ensures
            r.x == 0,
            r.y == 0,
            r.index == (0usize, 0usize),
            r.value is None,
    {
        Self::new(0, 0)
    }
}

} // verus!
