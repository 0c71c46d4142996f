//! SPA direction.

use vstd::prelude::*;

verus! {

/// The raw value of [`Direction::Input`].
pub const DIRECTION_INPUT: u32 = 0;

/// The raw value of [`Direction::Output`].
pub const DIRECTION_OUTPUT: u32 = 1;

/// A port direction.
#[derive(Copy, Clone, Debug, PartialEq, Eq, Structural)]
pub enum Direction {
    /// Input
    Input,
    /// Output
    Output,
}

impl Direction {
    /// The raw representation of the direction.
    pub fn as_raw(&self) -> (raw: u32)
        ensures
            raw == match self {
                Direction::Input => DIRECTION_INPUT,
                Direction::Output => DIRECTION_OUTPUT,
            },
    {
        match self {
            Self::Input => DIRECTION_INPUT,
            Self::Output => DIRECTION_OUTPUT,
        }
    }

    /// Create a `Direction` from a raw direction value.
    ///
    /// Only the two raw direction values are accepted.
    pub fn from_raw(raw: u32) -> (dir: Self)
        requires
            raw == DIRECTION_INPUT || raw == DIRECTION_OUTPUT,
        ensures
            dir == if raw == DIRECTION_INPUT {
                Direction::Input
            } else {
                Direction::Output
            },
    {
        if raw == DIRECTION_INPUT {
            Self::Input
        } else {
            Self::Output
        }
    }

    /// Return a new [`Direction`] in the opposite direction, turning Input to Output,
    /// and Output to Input.
    pub fn reverse(&self) -> (rev: Self)
        ensures
            rev == match self {
                Direction::Input => Direction::Output,
                Direction::Output => Direction::Input,
            },
    {
        match self {
            Self::Input => Self::Output,
            Self::Output => Self::Input,
        }
    }
}

} // verus!
