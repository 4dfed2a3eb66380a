use vstd::prelude::*;

verus! {

/// One instruction for the cover terminal.
#[derive(Debug, Clone, PartialEq, Eq)]
pub enum CoverOp {
    /// Append text at the cursor line.
    Write(String),
    /// Move the cursor to the next line, opening a new one at the bottom.
    NewLine,
    /// Clear the cursor line.
    EraseLine,
    /// Move the cursor up by this many lines, not above the oldest kept line.
    CursorUp(usize),
}

} // verus!
