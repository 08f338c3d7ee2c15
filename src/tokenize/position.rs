use vstd::prelude::*;

verus! {

/// A location in the scanned text: 1-based line number, offset within the
/// current line, and absolute character offset.
#[derive(Debug, Clone, Copy, PartialEq, Eq)]
pub struct Position {
    pub line_no: usize,
    pub at_line: usize,
    pub at_whole: usize,
}

impl Position {
    pub fn new(line_no: usize, at_line: usize, at_whole: usize) -> (r: Position)
        ensures
            r.line_no == line_no,
            r.at_line == at_line,
            r.at_whole == at_whole,
    {
        Position { line_no, at_line, at_whole }
    }
}

} // verus!
