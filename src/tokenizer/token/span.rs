use vstd::prelude::*;

verus! {

/// Where a token starts: its line, counted from 1, and its column, counted from 1.
#[derive(Debug, Clone, Copy, PartialEq, Eq, Structural, Hash)]
pub struct TokenSpan {
    pub line: usize,
    pub column: usize,
}

impl TokenSpan {
    pub fn new(line: usize, column: usize) -> (r: Self)
        ensures
            r == (TokenSpan { line, column }),
    {
        TokenSpan { line, column }
    }
}

impl From<(usize, usize)> for TokenSpan {
    /// A span from a line and a column.
    fn from(value: (usize, usize)) -> (r: TokenSpan) {
        TokenSpan { line: value.0, column: value.1 }
    }
}

impl vstd::std_specs::convert::FromSpecImpl<(usize, usize)> for TokenSpan {
    open spec fn obeys_from_spec() -> bool {
        true
    }

    open spec fn from_spec(value: (usize, usize)) -> TokenSpan {
        TokenSpan { line: value.0, column: value.1 }
    }
}

} // verus!
