use vstd::prelude::*;

verus! {

/// What a token is, apart from where it stands.
pub type TokenKind = crate::token::Token;

} // verus!
