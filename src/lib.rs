//! An interpreter for the Monkey language: a lexer, a Pratt parser and a
//! tree-walking evaluator, with their behaviour stated as contracts.
use vstd::prelude::*;

pub mod ast;
pub mod eval;
pub mod laws;
pub mod parser;
pub mod run;
pub mod text;
pub mod token;
pub mod tokenizer;
pub mod value;

pub use ast::{Expression, InfixOperator, PrefixOperator, Program, Statement};
pub use eval::{Environment, EvalError};
pub use parser::{ParseError, Parser, Precedence};
pub use run::{interpret, RunError};
pub use token::Token;
pub use tokenizer::{LexError, Tokenizer};
pub use value::{Builtin, Value};

verus! {

} // verus!
