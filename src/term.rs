//! The terminal's size and backend.
use vstd::prelude::*;

verus! {

/// The size of the terminal in character cells.
#[derive(PartialEq, Eq, Structural, Clone, Copy, Debug)]
pub struct TermSize {
    pub width: u16,
    pub height: u16,
}

/// The terminal backend.
pub struct TermionTerminal;

impl TermionTerminal {
    pub fn new() -> (r: Self) {
        Self {  }
    }
}

} // verus!
