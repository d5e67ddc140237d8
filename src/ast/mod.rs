//! The syntax tree that the parser builds and the evaluator walks.
use vstd::prelude::*;

pub(crate) mod expression;
pub mod print;
mod operators;
mod program;
mod statement;

pub use expression::{duplicate_names, Expression};
pub use operators::{InfixOperator, PrefixOperator};
pub use program::Program;
pub use statement::Statement;

verus! {
} // verus!
