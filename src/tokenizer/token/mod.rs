use vstd::prelude::*;

mod kind;
mod span;

pub use kind::TokenKind;
pub use span::TokenSpan;

verus! {

/// A token of the source together with the place where it starts.
#[derive(Debug, Clone, PartialEq, Eq)]
pub struct Token {
    pub kind: TokenKind,
    pub span: TokenSpan,
}

impl Token {
    pub fn new(kind: TokenKind, span: TokenSpan) -> (r: Self)
        ensures
            r == (Token { kind, span }),
    {
        Token { kind, span }
    }
}

} // verus!
