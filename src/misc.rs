//! Contents-list entries and small shared types.
use vstd::prelude::*;

verus! {

/// A direction in which the selection of the contents list moves.
#[derive(PartialEq, Eq, Structural, Clone, Copy, Debug)]
pub enum MoveDirection {
    Up,
    Down,
}

/// One entry of the contents list: the chapter's file, its anchor in that file (empty when
/// there is none), and its label.
#[derive(Debug)]
pub struct Toc {
    pub src: String,
    pub marker: String,
    pub text: String,
}

impl Toc {
    pub fn new(src: String, marker: String, text: String) -> (r: Self)
        ensures
            r.src@ == src@,
            r.marker@ == marker@,
            r.text@ == text@,
    {
        Self { src, marker, text }
    }
}

/// Extracts book archives.
pub struct Zipper;

} // verus!
