//! Source ranges.

use vstd::prelude::*;

verus! {

/// A range of the source text: where it starts and ends, as line and column,
/// and the text of the line it starts on.
#[derive(PartialEq, Eq, Debug)]
pub struct Span {
    /// Line and column of the first character.
    pub start: (usize, usize),
    /// Line and column just behind the last character.
    pub end: (usize, usize),
    /// The source line that `start` lies on.
    pub line: String,
}

impl Clone for Span {
    fn clone(&self) -> (copy: Self)
        ensures
            copy == *self,
    {
        Span { start: self.start, end: self.end, line: self.line.clone() }
    }
}

} // verus!
