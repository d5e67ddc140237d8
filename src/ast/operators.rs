use vstd::prelude::*;

use crate::text::push_char;
use crate::token::Token;

verus! {

#[derive(Debug, Clone, Copy, PartialEq, Eq, Structural)]
pub enum PrefixOperator {
    Not,
    Neg,
}

impl PrefixOperator {
    pub open spec fn spec_symbol(self) -> Seq<char> {
        match self {
            PrefixOperator::Not => seq!['!'],
            PrefixOperator::Neg => seq!['-'],
        }
    }

    /// The operator that a token stands for in prefix position, if any.
    pub fn try_from(token: &Token) -> (r: Option<PrefixOperator>)
        ensures
            r == match *token {
                Token::Bang => Some(PrefixOperator::Not),
                Token::Minus => Some(PrefixOperator::Neg),
                _ => None::<PrefixOperator>,
            },
    {
        match token {
            Token::Bang => Some(PrefixOperator::Not),
            Token::Minus => Some(PrefixOperator::Neg),
            _ => None,
        }
    }

    /// Appends the operator's symbol to `s`.
    pub fn push_symbol(self, s: &mut String)
        ensures
            final(s)@ == old(s)@ + self.spec_symbol(),
    {
        match self {
            PrefixOperator::Not => push_char(s, '!'),
            PrefixOperator::Neg => push_char(s, '-'),
        }
        assert(s@ == old(s)@ + self.spec_symbol());
    }
}

#[derive(Debug, Clone, Copy, PartialEq, Eq, Structural)]
pub enum InfixOperator {
    Add,
    Sub,
    Mul,
    Div,
    Modulo,
    Equal,
    NotEqual,
    GreaterThan,
    LessThan,
    GreaterThanOrEqual,
    LessThanOrEqual,
}

impl InfixOperator {
    pub open spec fn spec_symbol(self) -> Seq<char> {
        match self {
            InfixOperator::Add => seq!['+'],
            InfixOperator::Sub => seq!['-'],
            InfixOperator::Mul => seq!['*'],
            InfixOperator::Div => seq!['/'],
            InfixOperator::Modulo => seq!['%'],
            InfixOperator::Equal => seq!['=', '='],
            InfixOperator::NotEqual => seq!['!', '='],
            InfixOperator::GreaterThan => seq!['>'],
            InfixOperator::LessThan => seq!['<'],
            InfixOperator::GreaterThanOrEqual => seq!['>', '='],
            InfixOperator::LessThanOrEqual => seq!['<', '='],
        }
    }

    /// Appends the operator's symbol to `s`.
    pub fn push_symbol(self, s: &mut String)
        ensures
            final(s)@ == old(s)@ + self.spec_symbol(),
    {
        match self {
            InfixOperator::Add => push_char(s, '+'),
            InfixOperator::Sub => push_char(s, '-'),
            InfixOperator::Mul => push_char(s, '*'),
            InfixOperator::Div => push_char(s, '/'),
            InfixOperator::Modulo => push_char(s, '%'),
            InfixOperator::Equal => {
                push_char(s, '=');
                push_char(s, '=');
            },
            InfixOperator::NotEqual => {
                push_char(s, '!');
                push_char(s, '=');
            },
            InfixOperator::GreaterThan => push_char(s, '>'),
            InfixOperator::LessThan => push_char(s, '<'),
            InfixOperator::GreaterThanOrEqual => {
                push_char(s, '>');
                push_char(s, '=');
            },
            InfixOperator::LessThanOrEqual => {
                push_char(s, '<');
                push_char(s, '=');
            },
        }
        assert(s@ == old(s)@ + self.spec_symbol());
    }
}

} // verus!
