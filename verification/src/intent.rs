//! What the user has asked the program to do.

use vstd::prelude::*;

verus! {

/// The mode that the user picked, or none yet.
#[derive(Debug, Clone, Copy, PartialEq, Eq, Structural)]
pub enum Intent {
    /// Nothing was picked.
    Idle,
    /// Convert an image to BHI.
    ToBhi,
    /// Convert a BHI file to another format.
    FromBhi,
    /// Show a BHI file on screen.
    Render,
}

impl Intent {
    /// The intent that a selector number stands for: 0, 1 and 2 are the three
    /// modes in order, every other number is no choice.
    pub open spec fn of_selector(selector: i32) -> Intent {
        if selector == 0 {
            Intent::ToBhi
        } else if selector == 1 {
            Intent::FromBhi
        } else if selector == 2 {
            Intent::Render
        } else {
            Intent::Idle
        }
    }

    /// Reads a selector number.
    pub fn from_selector(selector: i32) -> (out: Intent)
        ensures
            out == Intent::of_selector(selector),
    {
        match selector {
            0 => Intent::ToBhi,
            1 => Intent::FromBhi,
            2 => Intent::Render,
            _ => Intent::Idle,
        }
    }

    /// The selector number of this intent; -1 for none. Reading it back gives
    /// the same intent.
    pub fn selector(self) -> (out: i32)
        ensures
            Intent::of_selector(out) == self,
            -1 <= out <= 2,
            (out == -1) == (self == Intent::Idle),
    {
        match self {
            Intent::Idle => -1,
            Intent::ToBhi => 0,
            Intent::FromBhi => 1,
            Intent::Render => 2,
        }
    }
}

} // verus!
