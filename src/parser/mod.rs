//! A Pratt parser over the token stream. Each parsing function takes the position
//! of its current token and, on success, returns the position of the last token it
//! consumed.
use vstd::prelude::*;

pub mod precedence;

pub use precedence::Precedence;

use crate::ast::{Expression, InfixOperator, PrefixOperator, Program, Statement};
use crate::eval::builtins::{builtin_named, is_builtin_name};
use crate::token::{precedence_of, Token};
use crate::tokenizer::{lex_fails, lexes, LexError, Tokenizer};

verus! {

/// Why a statement could not be parsed.
#[derive(Debug, PartialEq, Eq)]
pub enum ParseError {
    /// A token stood where another was required.
    Unexpected(Token),
    /// No expression starts with this token.
    NoPrefix(Token),
    /// A `let` of the name of a built-in function.
    BuiltinOverride(String),
}

impl Token {
    /// A copy of this token.
    pub fn duplicate(&self) -> (r: Token)
        ensures
            r == *self,
    {
        match self {
            Token::Int(n) => Token::Int(*n),
            Token::Ident(s) => Token::Ident(s.clone()),
            Token::String(s) => Token::String(s.clone()),
            Token::Illegal(c) => Token::Illegal(*c),
            Token::Assign => Token::Assign,
            Token::Equal => Token::Equal,
            Token::NotEqual => Token::NotEqual,
            Token::Plus => Token::Plus,
            Token::Minus => Token::Minus,
            Token::Bang => Token::Bang,
            Token::Asterisk => Token::Asterisk,
            Token::Slash => Token::Slash,
            Token::Modulo => Token::Modulo,
            Token::LessThan => Token::LessThan,
            Token::GreaterThan => Token::GreaterThan,
            Token::LessThanOrEqual => Token::LessThanOrEqual,
            Token::GreaterThanOrEqual => Token::GreaterThanOrEqual,
            Token::Comma => Token::Comma,
            Token::Colon => Token::Colon,
            Token::Semicolon => Token::Semicolon,
            Token::LeftParen => Token::LeftParen,
            Token::RightParen => Token::RightParen,
            Token::LeftBrace => Token::LeftBrace,
            Token::RightBrace => Token::RightBrace,
            Token::LeftBracket => Token::LeftBracket,
            Token::RightBracket => Token::RightBracket,
            Token::Eof => Token::Eof,
            Token::Function => Token::Function,
            Token::Let => Token::Let,
            Token::If => Token::If,
            Token::Else => Token::Else,
            Token::Return => Token::Return,
            Token::True => Token::True,
            Token::False => Token::False,
        }
    }
}

/// A token that the grammar requires at some point.
#[derive(Debug, Clone, Copy, PartialEq, Eq, Structural)]
pub enum Expected {
    Assign,
    Colon,
    Comma,
    LeftParen,
    RightParen,
    LeftBrace,
    RightBracket,
}

impl Expected {
    pub open spec fn spec_fits(self, t: Token) -> bool {
        match self {
            Expected::Assign => t is Assign,
            Expected::Colon => t is Colon,
            Expected::Comma => t is Comma,
            Expected::LeftParen => t is LeftParen,
            Expected::RightParen => t is RightParen,
            Expected::LeftBrace => t is LeftBrace,
            Expected::RightBracket => t is RightBracket,
        }
    }

    pub fn fits(self, t: &Token) -> (r: bool)
        ensures
            r == self.spec_fits(*t),
    {
        match self {
            Expected::Assign => matches!(t, Token::Assign),
            Expected::Colon => matches!(t, Token::Colon),
            Expected::Comma => matches!(t, Token::Comma),
            Expected::LeftParen => matches!(t, Token::LeftParen),
            Expected::RightParen => matches!(t, Token::RightParen),
            Expected::LeftBrace => matches!(t, Token::LeftBrace),
            Expected::RightBracket => matches!(t, Token::RightBracket),
        }
    }
}

pub struct Parser {
    /// The tokens of the source, ending with the only `Eof`.
    tokens: Vec<Token>,
    /// The statements that failed, in order.
    pub errors: Vec<ParseError>,
}

impl Parser {
    pub closed spec fn tokens(&self) -> Seq<Token> {
        self.tokens@
    }

    pub closed spec fn failures(&self) -> Seq<ParseError> {
        self.errors@
    }

    pub open spec fn wf(&self) -> bool {
        let ts = self.tokens();
        &&& 1 <= ts.len()
        &&& ts.last() is Eof
        &&& forall|i: int| 0 <= i < ts.len() - 1 ==> !((#[trigger] ts[i]) is Eof)
    }

    /// Reads every token of `tokenizer`, so that a program can be parsed.
    pub fn new(tokenizer: Tokenizer) -> (r: Result<Parser, LexError>)
        requires
            tokenizer.wf(),
        ensures
            r is Ok <==> !lex_fails(tokenizer.input(), tokenizer.position()),
            r is Ok ==> r->Ok_0.wf() && r->Ok_0.failures().len() == 0 && lexes(
                tokenizer.input(),
                tokenizer.position(),
                r->Ok_0.tokens().drop_last(),
            ),
    {
        let mut lexer = tokenizer;
        let ghost s = lexer.input();
        assert(s == tokenizer.input());
        let ghost start = lexer.position();
        let mut tokens: Vec<Token> = Vec::new();
        proof {
            lexer.lemma_wf();
            assert(start == tokenizer.position());
        }
        loop
            invariant
                lexer.wf(),
                lexer.input() == s,
                0 <= start <= lexer.position() <= s.len(),
                start == tokenizer.position(),
                s == tokenizer.input(),
                lex_fails(s, start) == lex_fails(s, lexer.position()),
                forall|rest: Seq<Token>|
                    lexes(s, lexer.position(), rest) ==> #[trigger] lexes(
                        s,
                        start,
                        tokens@ + rest,
                    ),
                forall|i: int| 0 <= i < tokens@.len() ==> !((#[trigger] tokens@[i]) is Eof),
                tokens@.len() <= lexer.position() - start,
            ensures
                lexes(s, start, tokens@),
                !lex_fails(s, start),
                forall|i: int| 0 <= i < tokens@.len() ==> !((#[trigger] tokens@[i]) is Eof),
                tokens@.len() <= s.len(),
            decreases s.len() - lexer.position(),
        {
            let ghost p = lexer.position();
            proof {
                lexer.lemma_wf();
                crate::tokenizer::lemma_skip_spaces(s, p);
            }
            let next = lexer.next_token();
            proof {
                lexer.lemma_wf();
            }
            match next {
                Err(e) => {
                    assert(lex_fails(s, p));
                    return Err(e);
                },
                Ok(t) => {
                    if matches!(t.kind, Token::Eof) {
                        proof {
                            assert(lexes(s, p, seq![]));
                            assert(tokens@ + seq![] == tokens@);
                        }
                        break ;
                    }
                    let ghost kind = t.kind;
                    proof {
                        let q = crate::tokenizer::skip_spaces(s, p);
                        assert forall|rest: Seq<Token>|
                            lexes(s, lexer.position(), rest) implies #[trigger] lexes(
                                s,
                                start,
                                tokens@.push(kind) + rest,
                            ) by {
                            let full = seq![kind] + rest;
                            assert(full.drop_first() == rest);
                            assert(lexes(s, p, full));
                            assert(tokens@ + full == tokens@.push(kind) + rest);
                        }
                    }
                    tokens.push(t.kind);
                },
            }
        }
        let ghost body = tokens@;
        tokens.push(Token::Eof);
        proof {
            assert(tokens@.drop_last() == body);
            assert(body + seq![] == body);
        }
        Ok(Parser { tokens, errors: Vec::new() })
    }
}

/// The infix operator that a token stands for, if it is one.
pub open spec fn infix_of(t: Token) -> Option<InfixOperator> {
    match t {
        Token::Plus => Some(InfixOperator::Add),
        Token::Minus => Some(InfixOperator::Sub),
        Token::Asterisk => Some(InfixOperator::Mul),
        Token::Slash => Some(InfixOperator::Div),
        Token::Modulo => Some(InfixOperator::Modulo),
        Token::Equal => Some(InfixOperator::Equal),
        Token::NotEqual => Some(InfixOperator::NotEqual),
        Token::LessThanOrEqual => Some(InfixOperator::LessThanOrEqual),
        Token::GreaterThanOrEqual => Some(InfixOperator::GreaterThanOrEqual),
        Token::LessThan => Some(InfixOperator::LessThan),
        Token::GreaterThan => Some(InfixOperator::GreaterThan),
        _ => None,
    }
}

/// The tokens after the `(` at `pos` are a parameter list of `n` names: `)`, or
/// `Ident (, Ident)* )`.
pub open spec fn params_form(ts: Seq<Token>, pos: int, n: int) -> bool {
    &&& 0 <= n
    &&& pos + 2 * n + 1 < ts.len()
    &&& if n == 0 {
        ts[pos + 1] is RightParen
    } else {
        &&& forall|i: int| 0 <= i < n ==> #[trigger] ts[pos + 1 + 2 * i] is Ident
        &&& forall|i: int| 0 <= i < n - 1 ==> #[trigger] ts[pos + 2 + 2 * i] is Comma
        &&& ts[pos + 2 * n] is RightParen
    }
}

/// A token after which no expression goes on.
pub open spec fn ends_expression(t: Token) -> bool {
    t is Eof || t is Semicolon
}

/// The program that is one integer literal, or one negated integer literal, and
/// nothing else.
pub open spec fn literal_program(ts: Seq<Token>) -> Option<Expression> {
    if ts.len() == 2 && ts[0] is Int && ts[1] is Eof {
        Some(Expression::Int(ts[0]->Int_0))
    } else if ts.len() == 3 && ts[0] is Minus && ts[1] is Int && ts[2] is Eof {
        Some(
            Expression::Prefix {
                operator: PrefixOperator::Neg,
                rhs: Box::new(Expression::Int(ts[1]->Int_0)),
            },
        )
    } else {
        None
    }
}

/// Whether an expression that ends at `pos` goes on with an infix operator binding
/// more tightly than `precedence`.
pub open spec fn continues_spec(ts: Seq<Token>, pos: int, precedence: Precedence) -> bool {
    let t = ts[next_pos(ts.len() as int, pos)];
    !(t is Semicolon) && precedence.spec_rank() < precedence_of(t).spec_rank()
}

/// The position after `pos`; the last position, which holds `Eof`, is its own successor.
pub open spec fn next_pos(len: int, pos: int) -> int {
    if pos + 1 < len {
        pos + 1
    } else {
        pos
    }
}

impl Parser {
    fn next(&self, pos: usize) -> (r: usize)
        requires
            self.wf(),
            pos < self.tokens().len(),
        ensures
            r == next_pos(self.tokens().len() as int, pos as int),
            pos <= r < self.tokens().len(),
            !(self.tokens()[pos as int] is Eof) ==> r == pos + 1,
    {
        if pos < self.tokens.len() - 1 {
            pos + 1
        } else {
            pos
        }
    }

    /// The token after the one at `pos`.
    fn peek(&self, pos: usize) -> (r: &Token)
        requires
            self.wf(),
            pos < self.tokens().len(),
        ensures
            *r == self.tokens()[next_pos(self.tokens().len() as int, pos as int)],
    {
        let n = self.next(pos);
        &self.tokens[n]
    }

    /// Moves on to the next token, which must be the expected one.
    fn expect_peek(&self, pos: usize, want: Expected) -> (r: Result<usize, ParseError>)
        requires
            self.wf(),
            pos < self.tokens().len(),
        ensures
            match r {
                Ok(p) => p == next_pos(self.tokens().len() as int, pos as int) && want.spec_fits(
                    self.tokens()[p as int],
                ) && pos < p < self.tokens().len(),
                Err(e) => e == ParseError::Unexpected(
                    self.tokens()[next_pos(self.tokens().len() as int, pos as int)],
                ),
            },
            r is Ok <==> want.spec_fits(self.tokens()[next_pos(self.tokens().len() as int, pos as int)]),
    {
        let n = self.next(pos);
        if want.fits(&self.tokens[n]) {
            Ok(n)
        } else {
            Err(ParseError::Unexpected(self.tokens[n].duplicate()))
        }
    }

    /// Moves past a `;` that follows the token at `pos`, if there is one.
    fn skip_semicolon(&self, pos: usize) -> (r: usize)
        requires
            self.wf(),
            pos < self.tokens().len(),
        ensures
            pos <= r < self.tokens().len(),
            !(self.tokens()[next_pos(self.tokens().len() as int, pos as int)] is Semicolon) ==> r
                == pos,
    {
        if matches!(self.peek(pos), Token::Semicolon) {
            self.next(pos)
        } else {
            pos
        }
    }

    /// How many statements failed to parse.
    pub fn error_count(&self) -> (r: usize)
        ensures
            r == self.failures().len(),
    {
        self.errors.len()
    }

    /// Hands out the parse errors collected so far, and forgets them.
    pub fn take_errors(&mut self) -> (r: Vec<ParseError>)
        ensures
            r@ == old(self).failures(),
            final(self).failures().len() == 0,
            final(self).tokens() == old(self).tokens(),
    {
        let mut errors: Vec<ParseError> = Vec::new();
        std::mem::swap(&mut errors, &mut self.errors);
        errors
    }

    /// Parses every statement. A statement that fails is recorded in `errors`, and
    /// parsing goes on one token after where that statement started.
    pub fn parse_program(&mut self) -> (r: Program)
        requires
            old(self).wf(),
        ensures
            final(self).wf(),
            final(self).tokens() == old(self).tokens(),
            final(self).failures().len() >= old(self).failures().len(),
            old(self).tokens().len() == 1 ==> r.statements@.len() == 0 && final(self).failures()
                == old(self).failures(),
            literal_program(old(self).tokens()) matches Some(e) ==> r.statements@ == seq![
                Statement::Expression(e),
            ] && final(self).failures() == old(self).failures(),
    {
        let mut statements: Vec<Statement> = Vec::new();
        let mut pos: usize = 0;
        while !matches!(self.tokens[pos], Token::Eof)
            invariant
                self.wf(),
                self.tokens() == old(self).tokens(),
                self.failures().len() >= old(self).failures().len(),
                pos < self.tokens().len(),
                old(self).tokens().len() == 1 ==> statements@.len() == 0 && self.failures()
                    == old(self).failures(),
                literal_program(old(self).tokens()) matches Some(e) ==> self.failures() == old(
                    self,
                ).failures() && ((pos == 0 && statements@.len() == 0) || (pos == self.tokens().len()
                    - 1 && statements@ == seq![Statement::Expression(e)])),
            decreases self.tokens().len() - pos,
        {
            match self.parse_statement(pos) {
                Ok((statement, end)) => {
                    let ghost before = statements@;
                    statements.push(statement);
                    proof {
                        assert(before.len() == 0 ==> statements@ == seq![statement]);
                    }
                    pos = self.next(end);
                },
                Err(error) => {
                    self.errors.push(error);
                    pos = self.next(pos);
                },
            }
        }
        Program { statements }
    }

    /// Parses the statement that starts at `pos`.
    pub fn parse_statement(&self, pos: usize) -> (r: Result<(Statement, usize), ParseError>)
        requires
            self.wf(),
            pos < self.tokens().len(),
        ensures
            r is Ok ==> pos <= r->Ok_0.1 < self.tokens().len(),
            r is Ok ==> (r->Ok_0.0 is Let <==> self.tokens()[pos as int] is Let),
            r is Ok ==> (r->Ok_0.0 is Return <==> self.tokens()[pos as int] is Return),
            pos == 0 ==> (literal_program(self.tokens()) matches Some(e) ==> r == Ok::<
                (Statement, usize),
                ParseError,
            >((Statement::Expression(e), (self.tokens().len() - 2) as usize))),
        decreases self.tokens().len() - pos, 9nat,
    {
        match &self.tokens[pos] {
            Token::Let => self.parse_let(pos),
            Token::Return => self.parse_return(pos),
            _ => self.parse_expression_statement(pos),
        }
    }

    /// `let name = value;`, starting at `let`.
    fn parse_let(&self, pos: usize) -> (r: Result<(Statement, usize), ParseError>)
        requires
            self.wf(),
            pos < self.tokens().len(),
            self.tokens()[pos as int] is Let,
        ensures
            r is Ok ==> pos <= r->Ok_0.1 < self.tokens().len(),
            r is Ok ==> r->Ok_0.0 is Let && self.tokens()[pos + 1] is Ident && r->Ok_0.0->name@
                == self.tokens()[pos + 1]->Ident_0@,
            (self.tokens()[pos + 1] is Ident && is_builtin_name(self.tokens()[pos + 1]->Ident_0@))
                ==> r is Err && r->Err_0 is BuiltinOverride,
        decreases self.tokens().len() - pos, 8nat,
    {
        let p1 = self.next(pos);
        let name = match &self.tokens[p1] {
            Token::Ident(name) => name.clone(),
            other => {
                return Err(ParseError::Unexpected(other.duplicate()));
            },
        };
        if builtin_named(&name) {
            return Err(ParseError::BuiltinOverride(name));
        }
        let p2 = match self.expect_peek(p1, Expected::Assign) {
            Ok(p) => p,
            Err(e) => {
                return Err(e);
            },
        };
        let p3 = self.next(p2);
        match self.parse_expression(p3, Precedence::Lowest) {
            Ok((value, p4)) => Ok((Statement::Let { name, value }, self.skip_semicolon(p4))),
            Err(e) => Err(e),
        }
    }

    /// `return value;`, starting at `return`.
    fn parse_return(&self, pos: usize) -> (r: Result<(Statement, usize), ParseError>)
        requires
            self.wf(),
            pos < self.tokens().len(),
            self.tokens()[pos as int] is Return,
        ensures
            r is Ok ==> pos <= r->Ok_0.1 < self.tokens().len(),
            r is Ok ==> r->Ok_0.0 is Return,
        decreases self.tokens().len() - pos, 8nat,
    {
        let p1 = self.next(pos);
        match self.parse_expression(p1, Precedence::Lowest) {
            Ok((value, p2)) => Ok((Statement::Return { value }, self.skip_semicolon(p2))),
            Err(e) => Err(e),
        }
    }

    /// An expression standing as a statement, with an optional `;`.
    fn parse_expression_statement(&self, pos: usize) -> (r: Result<(Statement, usize), ParseError>)
        requires
            self.wf(),
            pos < self.tokens().len(),
        ensures
            r is Ok ==> pos <= r->Ok_0.1 < self.tokens().len(),
            r is Ok ==> r->Ok_0.0 is Expression,
            pos == 0 ==> (literal_program(self.tokens()) matches Some(e) ==> r == Ok::<
                (Statement, usize),
                ParseError,
            >((Statement::Expression(e), (self.tokens().len() - 2) as usize))),
        decreases self.tokens().len() - pos, 8nat,
    {
        match self.parse_expression(pos, Precedence::Lowest) {
            Ok((e, p)) => Ok((Statement::Expression(e), self.skip_semicolon(p))),
            Err(e) => Err(e),
        }
    }

    /// Whether the expression that ends at `pos` goes on with an infix operator
    /// binding more tightly than `precedence`.
    fn continues(&self, pos: usize, precedence: Precedence) -> (r: bool)
        requires
            self.wf(),
            pos < self.tokens().len(),
        ensures
            r ==> pos + 1 < self.tokens().len(),
            r == continues_spec(self.tokens(), pos as int, precedence),
    {
        let next = self.peek(pos);
        let r = !matches!(next, Token::Semicolon) && precedence.rank() < next.precedence().rank();
        proof {
            if r && pos + 1 >= self.tokens().len() {
                assert(self.tokens()[pos as int] is Eof);
            }
        }
        r
    }

    /// Parses an expression starting at `pos`, taking in infix operators while they
    /// bind more tightly than `precedence`.
    pub fn parse_expression(&self, pos: usize, precedence: Precedence) -> (r: Result<
        (Expression, usize),
        ParseError,
    >)
        requires
            self.wf(),
            pos < self.tokens().len(),
        ensures
            r is Ok ==> pos <= r->Ok_0.1 < self.tokens().len(),
            (self.tokens()[pos as int] is Int && !continues_spec(self.tokens(), pos as int, precedence))
                ==> r == Ok::<(Expression, usize), ParseError>(
                (Expression::Int(self.tokens()[pos as int]->Int_0), pos),
            ),
            pos == 0 ==> (literal_program(self.tokens()) matches Some(e) ==> r == Ok::<
                (Expression, usize),
                ParseError,
            >((e, (self.tokens().len() - 2) as usize))),
        decreases self.tokens().len() - pos, 7nat,
    {
        let (mut left, mut p) = match self.parse_prefix(pos) {
            Ok(found) => found,
            Err(e) => {
                return Err(e);
            },
        };
        let ghost p0 = p;
        let ghost left0 = left;
        let ghost stops = !continues_spec(self.tokens(), p0 as int, precedence);
        while self.continues(p, precedence)
            invariant
                self.wf(),
                pos <= p0 <= p < self.tokens().len(),
                stops == !continues_spec(self.tokens(), p0 as int, precedence),
                (self.tokens()[pos as int] is Int && !continues_spec(self.tokens(), pos as int, precedence))
                    ==> stops && left0 == Expression::Int(self.tokens()[pos as int]->Int_0),
                stops ==> p == p0 && left == left0,
            decreases self.tokens().len() - p,
        {
            let q = self.next(p);
            match self.parse_infix(left, q) {
                Ok((e, end)) => {
                    left = e;
                    p = end;
                },
                Err(e) => {
                    return Err(e);
                },
            }
        }
        Ok((left, p))
    }

    /// Parses the expression that the token at `pos` starts.
    pub fn parse_prefix(&self, pos: usize) -> (r: Result<(Expression, usize), ParseError>)
        requires
            self.wf(),
            pos < self.tokens().len(),
        ensures
            r is Ok ==> pos <= r->Ok_0.1 < self.tokens().len(),
            match self.tokens()[pos as int] {
                Token::Int(n) => r == Ok::<(Expression, usize), ParseError>(
                    (Expression::Int(n), pos),
                ),
                Token::True => r == Ok::<(Expression, usize), ParseError>(
                    (Expression::Bool(true), pos),
                ),
                Token::False => r == Ok::<(Expression, usize), ParseError>(
                    (Expression::Bool(false), pos),
                ),
                Token::Ident(name) => r is Ok && r->Ok_0.1 == pos && r->Ok_0.0 is Identifier
                    && r->Ok_0.0->Identifier_0@ == name@,
                Token::String(text) => r is Ok && r->Ok_0.1 == pos && r->Ok_0.0 is String
                    && r->Ok_0.0->String_0@ == text@,
                Token::Eof | Token::Illegal(_) | Token::Assign | Token::Plus | Token::Asterisk
                | Token::Slash | Token::Modulo | Token::Equal | Token::NotEqual | Token::LessThan
                | Token::GreaterThan | Token::LessThanOrEqual | Token::GreaterThanOrEqual
                | Token::Comma | Token::Colon | Token::Semicolon | Token::RightParen
                | Token::RightBrace | Token::RightBracket | Token::Else | Token::Let
                | Token::Return => r == Err::<(Expression, usize), ParseError>(
                    ParseError::NoPrefix(self.tokens()[pos as int]),
                ),
                _ => true,
            },
            pos == 0 ==> (literal_program(self.tokens()) matches Some(e) ==> r == Ok::<
                (Expression, usize),
                ParseError,
            >((e, (self.tokens().len() - 2) as usize))),
        decreases self.tokens().len() - pos, 6nat,
    {
        match &self.tokens[pos] {
            Token::Int(n) => Ok((Expression::Int(*n), pos)),
            Token::Ident(name) => Ok((Expression::Identifier(name.clone()), pos)),
            Token::String(text) => Ok((Expression::String(text.clone()), pos)),
            Token::True => Ok((Expression::Bool(true), pos)),
            Token::False => Ok((Expression::Bool(false), pos)),
            Token::Bang | Token::Minus => self.parse_prefix_expression(pos),
            Token::LeftParen => self.parse_grouped(pos),
            Token::LeftBracket => match self.parse_list(pos, Expected::RightBracket) {
                Ok((items, p)) => Ok((Expression::Array(items), p)),
                Err(e) => Err(e),
            },
            Token::LeftBrace => self.parse_hash(pos),
            Token::If => self.parse_if(pos),
            Token::Function => self.parse_function(pos),
            other => Err(ParseError::NoPrefix(other.duplicate())),
        }
    }

    /// `!x` or `-x`, starting at the operator.
    fn parse_prefix_expression(&self, pos: usize) -> (r: Result<(Expression, usize), ParseError>)
        requires
            self.wf(),
            pos < self.tokens().len(),
            self.tokens()[pos as int] is Bang || self.tokens()[pos as int] is Minus,
        ensures
            r is Ok ==> pos <= r->Ok_0.1 < self.tokens().len(),
            r is Ok ==> r->Ok_0.0 is Prefix && r->Ok_0.0->Prefix_operator == if self.tokens()[pos as int] is Bang {
                PrefixOperator::Not
            } else {
                PrefixOperator::Neg
            },
            pos == 0 ==> (literal_program(self.tokens()) matches Some(e) ==> r == Ok::<
                (Expression, usize),
                ParseError,
            >((e, (self.tokens().len() - 2) as usize))),
        decreases self.tokens().len() - pos, 5nat,
    {
        let operator = match PrefixOperator::try_from(&self.tokens[pos]) {
            Some(operator) => operator,
            None => {
                return Err(ParseError::NoPrefix(self.tokens[pos].duplicate()));
            },
        };
        let p1 = self.next(pos);
        match self.parse_expression(p1, Precedence::Prefix) {
            Ok((rhs, p2)) => Ok((Expression::Prefix { operator, rhs: Box::new(rhs) }, p2)),
            Err(e) => Err(e),
        }
    }

    /// `( expression )`, starting at `(`.
    fn parse_grouped(&self, pos: usize) -> (r: Result<(Expression, usize), ParseError>)
        requires
            self.wf(),
            pos < self.tokens().len(),
            self.tokens()[pos as int] is LeftParen,
        ensures
            r is Ok ==> pos <= r->Ok_0.1 < self.tokens().len(),
        decreases self.tokens().len() - pos, 5nat,
    {
        let p1 = self.next(pos);
        let (e, p2) = match self.parse_expression(p1, Precedence::Lowest) {
            Ok(found) => found,
            Err(e) => {
                return Err(e);
            },
        };
        match self.expect_peek(p2, Expected::RightParen) {
            Ok(p3) => Ok((e, p3)),
            Err(e) => Err(e),
        }
    }

    /// Comma-separated expressions after the opening token at `pos`, up to `closer`.
    fn parse_list(&self, pos: usize, closer: Expected) -> (r: Result<
        (Vec<Expression>, usize),
        ParseError,
    >)
        requires
            self.wf(),
            pos < self.tokens().len(),
            !(self.tokens()[pos as int] is Eof),
            closer == Expected::RightParen || closer == Expected::RightBracket,
        ensures
            r is Ok ==> pos <= r->Ok_0.1 < self.tokens().len(),
            closer.spec_fits(self.tokens()[pos + 1]) ==> r is Ok && r->Ok_0.0@.len() == 0
                && r->Ok_0.1 == pos + 1,
            (self.tokens()[pos + 1] is Int && pos + 2 < self.tokens().len() && closer.spec_fits(
                self.tokens()[pos + 2],
            )) ==> r is Ok && r->Ok_0.0@ == seq![Expression::Int(self.tokens()[pos + 1]->Int_0)]
                && r->Ok_0.1 == pos + 2,
        decreases self.tokens().len() - pos, 5nat,
    {
        let mut items: Vec<Expression> = Vec::new();
        let p = self.next(pos);
        if closer.fits(&self.tokens[p]) {
            return Ok((items, p));
        }
        let ghost single = self.tokens()[pos + 1] is Int && pos + 2 < self.tokens().len()
            && closer.spec_fits(self.tokens()[pos + 2]);
        proof {
            if single {
                assert(!(self.tokens()[pos + 1] is Eof));
                assert(next_pos(self.tokens().len() as int, p as int) == pos + 2);
                assert(!continues_spec(self.tokens(), p as int, Precedence::Lowest));
            }
        }
        let (first, mut p) = match self.parse_expression(p, Precedence::Lowest) {
            Ok(found) => found,
            Err(e) => {
                return Err(e);
            },
        };
        items.push(first);
        while matches!(self.peek(p), Token::Comma)
            invariant
                self.wf(),
                pos < p < self.tokens().len(),
                single ==> p == pos + 1 && items@ == seq![
                    Expression::Int(self.tokens()[pos + 1]->Int_0),
                ],
                single ==> next_pos(self.tokens().len() as int, pos + 1) == pos + 2
                    && closer.spec_fits(self.tokens()[pos + 2]),
                closer == Expected::RightParen || closer == Expected::RightBracket,
                !closer.spec_fits(self.tokens()[pos + 1]),
                single == (self.tokens()[pos + 1] is Int && pos + 2 < self.tokens().len()
                    && closer.spec_fits(self.tokens()[pos + 2])),
            decreases self.tokens().len() - p,
        {
            proof {
                if single {
                    assert(self.tokens()[pos + 2] is RightParen || self.tokens()[pos + 2] is RightBracket);
                }
            }
            let comma = self.next(p);
            let start = self.next(comma);
            match self.parse_expression(start, Precedence::Lowest) {
                Ok((e, end)) => {
                    items.push(e);
                    p = end;
                },
                Err(e) => {
                    return Err(e);
                },
            }
        }
        match self.expect_peek(p, closer) {
            Ok(end) => Ok((items, end)),
            Err(e) => Err(e),
        }
    }

    /// A map literal `{ key: value, ... }`, starting at `{`.
    fn parse_hash(&self, pos: usize) -> (r: Result<(Expression, usize), ParseError>)
        requires
            self.wf(),
            pos < self.tokens().len(),
            self.tokens()[pos as int] is LeftBrace,
        ensures
            r is Ok ==> pos <= r->Ok_0.1 < self.tokens().len(),
        decreases self.tokens().len() - pos, 5nat,
    {
        let mut pairs: Vec<(Expression, Expression)> = Vec::new();
        let mut p = self.next(pos);
        if matches!(self.tokens[p], Token::RightBrace) {
            return Ok((Expression::Hash(pairs), p));
        }
        loop
            invariant
                self.wf(),
                pos < p < self.tokens().len(),
            decreases self.tokens().len() - p,
        {
            let (key, p1) = match self.parse_expression(p, Precedence::Lowest) {
                Ok(found) => found,
                Err(e) => {
                    return Err(e);
                },
            };
            let p2 = match self.expect_peek(p1, Expected::Colon) {
                Ok(found) => found,
                Err(e) => {
                    return Err(e);
                },
            };
            let p3 = self.next(p2);
            let (value, p4) = match self.parse_expression(p3, Precedence::Lowest) {
                Ok(found) => found,
                Err(e) => {
                    return Err(e);
                },
            };
            pairs.push((key, value));
            if matches!(self.peek(p4), Token::RightBrace) {
                let end = self.next(p4);
                return Ok((Expression::Hash(pairs), end));
            }
            let p5 = match self.expect_peek(p4, Expected::Comma) {
                Ok(found) => found,
                Err(e) => {
                    return Err(e);
                },
            };
            p = self.next(p5);
        }
    }

    /// `if (condition) { ... } else { ... }`, starting at `if`.
    fn parse_if(&self, pos: usize) -> (r: Result<(Expression, usize), ParseError>)
        requires
            self.wf(),
            pos < self.tokens().len(),
            self.tokens()[pos as int] is If,
        ensures
            r is Ok ==> pos <= r->Ok_0.1 < self.tokens().len(),
        decreases self.tokens().len() - pos, 5nat,
    {
        let p1 = match self.expect_peek(pos, Expected::LeftParen) {
            Ok(found) => found,
            Err(e) => {
                return Err(e);
            },
        };
        let p2 = self.next(p1);
        let (condition, p3) = match self.parse_expression(p2, Precedence::Lowest) {
            Ok(found) => found,
            Err(e) => {
                return Err(e);
            },
        };
        let p4 = match self.expect_peek(p3, Expected::RightParen) {
            Ok(found) => found,
            Err(e) => {
                return Err(e);
            },
        };
        let p5 = match self.expect_peek(p4, Expected::LeftBrace) {
            Ok(found) => found,
            Err(e) => {
                return Err(e);
            },
        };
        let (consequence, p6) = match self.parse_block(p5) {
            Ok(found) => found,
            Err(e) => {
                return Err(e);
            },
        };
        if matches!(self.peek(p6), Token::Else) {
            let p7 = self.next(p6);
            let p8 = match self.expect_peek(p7, Expected::LeftBrace) {
                Ok(found) => found,
                Err(e) => {
                    return Err(e);
                },
            };
            match self.parse_block(p8) {
                Ok((alternative, p9)) => Ok(
                    (
                        Expression::Condition {
                            condition: Box::new(condition),
                            consequence,
                            alternative: Some(alternative),
                        },
                        p9,
                    ),
                ),
                Err(e) => Err(e),
            }
        } else {
            Ok(
                (
                    Expression::Condition {
                        condition: Box::new(condition),
                        consequence,
                        alternative: None,
                    },
                    p6,
                ),
            )
        }
    }

    /// `fn (parameters) { body }`, starting at `fn`.
    fn parse_function(&self, pos: usize) -> (r: Result<(Expression, usize), ParseError>)
        requires
            self.wf(),
            pos < self.tokens().len(),
            self.tokens()[pos as int] is Function,
        ensures
            r is Ok ==> pos <= r->Ok_0.1 < self.tokens().len(),
            r is Ok ==> r->Ok_0.0 is Function && self.tokens()[pos + 1] is LeftParen && forall|i: int|
                0 <= i < r->Ok_0.0->parameters@.len() ==> #[trigger] self.tokens()[pos + 2 + 2 * i] is Ident
                    && r->Ok_0.0->parameters@[i]@ == self.tokens()[pos + 2 + 2 * i]->Ident_0@,
        decreases self.tokens().len() - pos, 5nat,
    {
        let p1 = match self.expect_peek(pos, Expected::LeftParen) {
            Ok(found) => found,
            Err(e) => {
                return Err(e);
            },
        };
        let (parameters, p2) = match self.parse_parameters(p1) {
            Ok(found) => found,
            Err(e) => {
                return Err(e);
            },
        };
        let p3 = match self.expect_peek(p2, Expected::LeftBrace) {
            Ok(found) => found,
            Err(e) => {
                return Err(e);
            },
        };
        match self.parse_block(p3) {
            Ok((body, p4)) => Ok((Expression::Function { parameters, body }, p4)),
            Err(e) => Err(e),
        }
    }

    /// Comma-separated parameter names after the `(` at `pos`, up to `)`.
    fn parse_parameters(&self, pos: usize) -> (r: Result<(Vec<String>, usize), ParseError>)
        requires
            self.wf(),
            pos < self.tokens().len(),
            self.tokens()[pos as int] is LeftParen,
        ensures
            r is Ok ==> pos <= r->Ok_0.1 < self.tokens().len(),
            r is Ok ==> ({
                let names = r->Ok_0.0@;
                let n = names.len() as int;
                let end = r->Ok_0.1 as int;
                &&& end == if n == 0 {
                    pos + 1
                } else {
                    pos + 2 * n
                }
                &&& self.tokens()[end] is RightParen
                &&& forall|i: int|
                    0 <= i < n ==> #[trigger] self.tokens()[pos + 1 + 2 * i] is Ident
                        && names[i]@ == self.tokens()[pos + 1 + 2 * i]->Ident_0@
                &&& forall|i: int| 0 <= i < n - 1 ==> #[trigger] self.tokens()[pos + 2 + 2 * i] is Comma
            }),
            forall|n: int|
                #[trigger] params_form(self.tokens(), pos as int, n) ==> r is Ok && r->Ok_0.0@.len()
                    == n,
    {
        let mut names: Vec<String> = Vec::new();
        let mut p = self.next(pos);
        if matches!(self.tokens[p], Token::RightParen) {
            proof {
                assert forall|n: int| params_form(self.tokens(), pos as int, n) implies n == 0 by {
                    if n > 0 {
                        assert(self.tokens()[pos + 1 + 2 * 0] is Ident);
                    }
                }
            }
            return Ok((names, p));
        }
        loop
            invariant
                self.wf(),
                pos < p < self.tokens().len(),
                p == pos + 1 + 2 * names@.len(),
                forall|i: int|
                    0 <= i < names@.len() ==> #[trigger] self.tokens()[pos + 1 + 2 * i] is Ident
                        && names@[i]@ == self.tokens()[pos + 1 + 2 * i]->Ident_0@,
                forall|i: int|
                    0 <= i < names@.len() ==> #[trigger] self.tokens()[pos + 2 + 2 * i] is Comma,
                forall|n: int| params_form(self.tokens(), pos as int, n) ==> names@.len() < n,
            decreases self.tokens().len() - p,
        {
            let ghost m = names@.len() as int;
            proof {
                assert forall|n: int| params_form(self.tokens(), pos as int, n) implies self.tokens()[p as int] is Ident
                    && (m < n - 1 ==> self.tokens()[p + 1] is Comma) && (m == n - 1 ==> self.tokens()[p + 1] is RightParen) by {
                    assert(self.tokens()[pos + 1 + 2 * m] is Ident);
                    if m < n - 1 {
                        assert(self.tokens()[pos + 2 + 2 * m] is Comma);
                    }
                }
            }
            match &self.tokens[p] {
                Token::Ident(name) => names.push(name.clone()),
                other => {
                    return Err(ParseError::Unexpected(other.duplicate()));
                },
            }
            if !matches!(self.peek(p), Token::Comma) {
                proof {
                    assert(!(self.tokens()[p as int] is Eof));
                    assert(next_pos(self.tokens().len() as int, p as int) == p + 1);
                    assert forall|n: int| #[trigger] params_form(self.tokens(), pos as int, n) implies names@.len()
                        == n && self.tokens()[p + 1] is RightParen by {
                        assert(m < n);
                        if m < n - 1 {
                            assert(self.tokens()[pos + 2 + 2 * m] is Comma);
                        }
                    }
                }
                return match self.expect_peek(p, Expected::RightParen) {
                    Ok(end) => Ok((names, end)),
                    Err(e) => Err(e),
                };
            }
            let comma = self.next(p);
            p = self.next(comma);
        }
    }

    /// Statements after the `{` at `pos`, up to `}` or the end of the input.
    fn parse_block(&self, pos: usize) -> (r: Result<(Vec<Statement>, usize), ParseError>)
        requires
            self.wf(),
            pos < self.tokens().len(),
            self.tokens()[pos as int] is LeftBrace,
        ensures
            r is Ok ==> pos <= r->Ok_0.1 < self.tokens().len(),
        decreases self.tokens().len() - pos, 4nat,
    {
        let mut statements: Vec<Statement> = Vec::new();
        let mut p = self.next(pos);
        while !matches!(self.tokens[p], Token::RightBrace | Token::Eof)
            invariant
                self.wf(),
                pos < p < self.tokens().len(),
            decreases self.tokens().len() - p,
        {
            match self.parse_statement(p) {
                Ok((statement, end)) => {
                    statements.push(statement);
                    let after = self.next(end);
                    if after == end {
                        return Ok((statements, end));
                    }
                    p = after;
                },
                Err(e) => {
                    return Err(e);
                },
            }
        }
        Ok((statements, p))
    }

    /// Continues the expression `lhs` with the infix operator, call or index at `pos`.
    pub fn parse_infix(&self, lhs: Expression, pos: usize) -> (r: Result<
        (Expression, usize),
        ParseError,
    >)
        requires
            self.wf(),
            pos < self.tokens().len(),
        ensures
            r is Ok ==> pos <= r->Ok_0.1 < self.tokens().len(),
            ({
                let t = self.tokens()[pos as int];
                let joined = (t is LessThan || t is GreaterThan) && self.tokens()[next_pos(
                    self.tokens().len() as int,
                    pos as int,
                )] is Assign;
                if t is LeftParen {
                    r is Ok ==> r->Ok_0.0 is Call && r->Ok_0.0->function == Box::new(lhs)
                } else if t is LeftBracket {
                    r is Ok ==> r->Ok_0.0 is Index && r->Ok_0.0->Index_lhs == Box::new(lhs)
                } else if let Some(op) = infix_of(t) {
                    r is Ok ==> r->Ok_0.0 is Infix && r->Ok_0.0->Infix_lhs == Box::new(lhs)
                        && r->Ok_0.0->Infix_operator == if joined {
                        if t is LessThan {
                            InfixOperator::LessThanOrEqual
                        } else {
                            InfixOperator::GreaterThanOrEqual
                        }
                    } else {
                        op
                    }
                } else {
                    r == Ok::<(Expression, usize), ParseError>((lhs, pos))
                }
            }),
            ({
                let ts = self.tokens();
                let t = ts[pos as int];
                let operand = pos + 1 < ts.len() && ts[pos + 1] is Int;
                let closed = operand && pos + 2 < ts.len();
                &&& (t is LeftParen && pos + 1 < ts.len() && ts[pos + 1] is RightParen) ==> r is Ok
                    && r->Ok_0.0 is Call && r->Ok_0.0->function == Box::new(lhs)
                    && r->Ok_0.0->arguments@.len() == 0 && r->Ok_0.1 == pos + 1
                &&& (t is LeftParen && closed && ts[pos + 2] is RightParen) ==> r is Ok
                    && r->Ok_0.0 is Call && r->Ok_0.0->function == Box::new(lhs)
                    && r->Ok_0.0->arguments@ == seq![Expression::Int(ts[pos + 1]->Int_0)]
                    && r->Ok_0.1 == pos + 2
                &&& (t is LeftBracket && closed && ts[pos + 2] is RightBracket) ==> r
                    == Ok::<(Expression, usize), ParseError>(
                    (
                        Expression::Index {
                            lhs: Box::new(lhs),
                            idx: Box::new(Expression::Int(ts[pos + 1]->Int_0)),
                        },
                        (pos + 2) as usize,
                    ),
                )
                &&& (infix_of(t) is Some && !(t is LessThan) && !(t is GreaterThan) && operand
                    && !continues_spec(ts, pos + 1, precedence_of(t))) ==> r == Ok::<
                    (Expression, usize),
                    ParseError,
                >(
                    (
                        Expression::Infix {
                            operator: infix_of(t)->Some_0,
                            lhs: Box::new(lhs),
                            rhs: Box::new(Expression::Int(ts[pos + 1]->Int_0)),
                        },
                        (pos + 1) as usize,
                    ),
                )
            }),
        decreases self.tokens().len() - pos, 6nat,
    {
        let (operator, p) = match &self.tokens[pos] {
            Token::Plus => (InfixOperator::Add, pos),
            Token::Minus => (InfixOperator::Sub, pos),
            Token::Asterisk => (InfixOperator::Mul, pos),
            Token::Slash => (InfixOperator::Div, pos),
            Token::Modulo => (InfixOperator::Modulo, pos),
            Token::Equal => (InfixOperator::Equal, pos),
            Token::NotEqual => (InfixOperator::NotEqual, pos),
            Token::LessThanOrEqual => (InfixOperator::LessThanOrEqual, pos),
            Token::GreaterThanOrEqual => (InfixOperator::GreaterThanOrEqual, pos),
            Token::LessThan => {
                if matches!(self.peek(pos), Token::Assign) {
                    (InfixOperator::LessThanOrEqual, self.next(pos))
                } else {
                    (InfixOperator::LessThan, pos)
                }
            },
            Token::GreaterThan => {
                if matches!(self.peek(pos), Token::Assign) {
                    (InfixOperator::GreaterThanOrEqual, self.next(pos))
                } else {
                    (InfixOperator::GreaterThan, pos)
                }
            },
            Token::LeftParen => {
                return match self.parse_list(pos, Expected::RightParen) {
                    Ok((arguments, end)) => Ok(
                        (Expression::Call { function: Box::new(lhs), arguments }, end),
                    ),
                    Err(e) => Err(e),
                };
            },
            Token::LeftBracket => {
                let p1 = self.next(pos);
                let (idx, p2) = match self.parse_expression(p1, Precedence::Lowest) {
                    Ok(found) => found,
                    Err(e) => {
                        return Err(e);
                    },
                };
                return match self.expect_peek(p2, Expected::RightBracket) {
                    Ok(end) => Ok((Expression::Index { lhs: Box::new(lhs), idx: Box::new(idx) }, end)),
                    Err(e) => Err(e),
                };
            },
            _ => {
                return Ok((lhs, pos));
            },
        };
        let precedence = self.tokens[pos].precedence();
        assert(!(self.tokens()[p as int] is Eof));
        let start = self.next(p);
        match self.parse_expression(start, precedence) {
            Ok((rhs, end)) => Ok(
                (Expression::Infix { operator, lhs: Box::new(lhs), rhs: Box::new(rhs) }, end),
            ),
            Err(e) => Err(e),
        }
    }
}

} // verus!
