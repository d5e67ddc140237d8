use vstd::prelude::*;

use super::Statement;

verus! {

/// A parsed program: its statements in order.
#[derive(Debug, PartialEq, Eq)]
pub struct Program {
    pub statements: Vec<Statement>,
}

} // verus!
