//! The kinds of token that the lexer emits and the parser consumes.
use vstd::prelude::*;

use crate::parser::precedence::Precedence;
use crate::text::{decimal, push_char, push_chars, push_decimal, push_str};

verus! {

#[derive(Debug, Clone, PartialEq, Eq)]
pub enum Token {
    /// `=`
    Assign,
    /// `==`
    Equal,
    /// `!=`
    NotEqual,
    /// `+`
    Plus,
    /// `-`
    Minus,
    /// `!`
    Bang,
    /// `*`
    Asterisk,
    /// `/`
    Slash,
    /// `%`
    Modulo,
    /// `<`
    LessThan,
    /// `>`
    GreaterThan,
    /// `<=`
    LessThanOrEqual,
    /// `>=`
    GreaterThanOrEqual,
    /// `,`
    Comma,
    /// `:`
    Colon,
    /// `;`
    Semicolon,
    /// `(`
    LeftParen,
    /// `)`
    RightParen,
    /// `{`
    LeftBrace,
    /// `}`
    RightBrace,
    /// `[`
    LeftBracket,
    /// `]`
    RightBracket,
    /// The end of the input.
    Eof,
    /// An integer literal.
    Int(i64),
    /// An identifier.
    Ident(String),
    /// A string literal, without its quotes.
    String(String),
    /// `fn`
    Function,
    /// `let`
    Let,
    /// `if`
    If,
    /// `else`
    Else,
    /// `return`
    Return,
    /// `true`
    True,
    /// `false`
    False,
    /// A character that starts no token.
    Illegal(char),
}

/// The binding power of a token in infix position.
pub open spec fn precedence_of(t: Token) -> Precedence {
    match t {
        Token::Equal | Token::NotEqual => Precedence::Equals,
        Token::LessThan | Token::GreaterThan | Token::LessThanOrEqual
        | Token::GreaterThanOrEqual => Precedence::LessGreater,
        Token::Plus | Token::Minus => Precedence::Sum,
        Token::Asterisk | Token::Slash | Token::Modulo => Precedence::Product,
        Token::LeftParen | Token::LeftBracket => Precedence::Call,
        _ => Precedence::Lowest,
    }
}

/// How a token is written.
pub open spec fn token_text(t: Token) -> Seq<char> {
    match t {
        Token::Assign => seq!['='],
        Token::Equal => seq!['=', '='],
        Token::NotEqual => seq!['!', '='],
        Token::Plus => seq!['+'],
        Token::Minus => seq!['-'],
        Token::Bang => seq!['!'],
        Token::Asterisk => seq!['*'],
        Token::Slash => seq!['/'],
        Token::Modulo => seq!['%'],
        Token::LessThan => seq!['<'],
        Token::GreaterThan => seq!['>'],
        Token::LessThanOrEqual => seq!['<', '='],
        Token::GreaterThanOrEqual => seq!['>', '='],
        Token::Comma => seq![','],
        Token::Colon => seq![':'],
        Token::Semicolon => seq![';'],
        Token::LeftParen => seq!['('],
        Token::RightParen => seq![')'],
        Token::LeftBrace => seq!['{'],
        Token::RightBrace => seq!['}'],
        Token::LeftBracket => seq!['['],
        Token::RightBracket => seq![']'],
        Token::Eof => seq!['E', 'O', 'F'],
        Token::Int(n) => decimal(n as int),
        Token::Ident(name) => name@,
        Token::String(text) => seq!['"'] + text@ + seq!['"'],
        Token::Function => seq!['f', 'n'],
        Token::Let => seq!['l', 'e', 't'],
        Token::If => seq!['i', 'f'],
        Token::Else => seq!['e', 'l', 's', 'e'],
        Token::Return => seq!['r', 'e', 't', 'u', 'r', 'n'],
        Token::True => seq!['t', 'r', 'u', 'e'],
        Token::False => seq!['f', 'a', 'l', 's', 'e'],
        Token::Illegal(c) => seq![c],
    }
}

impl Token {
    /// How this token is written.
    pub fn to_string(&self) -> (r: String)
        ensures
            r@ == token_text(*self),
    {
        let mut out = String::new();
        match self {
            Token::Assign => push_char(&mut out, '='),
            Token::Equal => push_chars(&mut out, &['=', '=']),
            Token::NotEqual => push_chars(&mut out, &['!', '=']),
            Token::Plus => push_char(&mut out, '+'),
            Token::Minus => push_char(&mut out, '-'),
            Token::Bang => push_char(&mut out, '!'),
            Token::Asterisk => push_char(&mut out, '*'),
            Token::Slash => push_char(&mut out, '/'),
            Token::Modulo => push_char(&mut out, '%'),
            Token::LessThan => push_char(&mut out, '<'),
            Token::GreaterThan => push_char(&mut out, '>'),
            Token::LessThanOrEqual => push_chars(&mut out, &['<', '=']),
            Token::GreaterThanOrEqual => push_chars(&mut out, &['>', '=']),
            Token::Comma => push_char(&mut out, ','),
            Token::Colon => push_char(&mut out, ':'),
            Token::Semicolon => push_char(&mut out, ';'),
            Token::LeftParen => push_char(&mut out, '('),
            Token::RightParen => push_char(&mut out, ')'),
            Token::LeftBrace => push_char(&mut out, '{'),
            Token::RightBrace => push_char(&mut out, '}'),
            Token::LeftBracket => push_char(&mut out, '['),
            Token::RightBracket => push_char(&mut out, ']'),
            Token::Eof => push_chars(&mut out, &['E', 'O', 'F']),
            Token::Int(n) => push_decimal(&mut out, *n),
            Token::Ident(name) => push_str(&mut out, name.as_str()),
            Token::String(text) => {
                push_char(&mut out, '"');
                push_str(&mut out, text.as_str());
                push_char(&mut out, '"');
            },
            Token::Function => push_chars(&mut out, &['f', 'n']),
            Token::Let => push_chars(&mut out, &['l', 'e', 't']),
            Token::If => push_chars(&mut out, &['i', 'f']),
            Token::Else => push_chars(&mut out, &['e', 'l', 's', 'e']),
            Token::Return => push_chars(&mut out, &['r', 'e', 't', 'u', 'r', 'n']),
            Token::True => push_chars(&mut out, &['t', 'r', 'u', 'e']),
            Token::False => push_chars(&mut out, &['f', 'a', 'l', 's', 'e']),
            Token::Illegal(c) => push_char(&mut out, *c),
        }
        out
    }

    pub fn integer(value: i64) -> (r: Self)
        ensures
            r == Token::Int(value),
    {
        Token::Int(value)
    }

    pub fn ident(ident: String) -> (r: Self)
        ensures
            r == Token::Ident(ident),
    {
        Token::Ident(ident)
    }

    pub fn illegal(illegal: char) -> (r: Self)
        ensures
            r == Token::Illegal(illegal),
    {
        Token::Illegal(illegal)
    }

    pub fn string(string: String) -> (r: Self)
        ensures
            r == Token::String(string),
    {
        Token::String(string)
    }

    pub fn precedence(&self) -> (r: Precedence)
        ensures
            r == precedence_of(*self),
    {
        match self {
            Token::Equal | Token::NotEqual => Precedence::Equals,
            Token::LessThan | Token::GreaterThan | Token::LessThanOrEqual
            | Token::GreaterThanOrEqual => Precedence::LessGreater,
            Token::Plus | Token::Minus => Precedence::Sum,
            Token::Asterisk | Token::Slash | Token::Modulo => Precedence::Product,
            Token::LeftParen | Token::LeftBracket => Precedence::Call,
            _ => Precedence::Lowest,
        }
    }
}

} // verus!
