//! A position in the text.
use vstd::prelude::*;

verus! {

/// A 0-based line and column.
#[derive(Debug, Clone, Copy, Default)]
pub struct CursorPosition {
    pub line: usize,
    pub col: usize,
}

impl CursorPosition {
    pub fn new(line: usize, col: usize) -> (p: Self)
        ensures
            p.line == line,
            p.col == col,
    {
        CursorPosition { line, col }
    }
}

} // verus!
