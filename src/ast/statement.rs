use vstd::prelude::*;

use super::Expression;

verus! {

#[derive(Debug, PartialEq, Eq)]
pub enum Statement {
    Let { name: String, value: Expression },
    Return { value: Expression },
    Expression(Expression),
    Block(Vec<Statement>),
}

impl Statement {
    /// `let name = value;`
    pub fn let_(name: String, value: Expression) -> (r: Self)
        ensures
            r == (Statement::Let { name, value }),
    {
        Statement::Let { name, value }
    }

    /// `return value;`
    pub fn return_(value: Expression) -> (r: Self)
        ensures
            r == (Statement::Return { value }),
    {
        Statement::Return { value }
    }

    /// An expression standing as a statement.
    pub fn expression(expression: Expression) -> (r: Self)
        ensures
            r == Statement::Expression(expression),
    {
        Statement::Expression(expression)
    }
}

} // verus!
