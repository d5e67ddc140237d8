//! The lexer: turns source text into tokens, one at a time.
use vstd::prelude::*;

pub mod token;

use crate::text::{chars_of, digits_value, is_digit, read_magnitude, string_of};
use crate::token::Token as Kind;
use token::{Token, TokenSpan};

verus! {

/// Whitespace between tokens.
pub open spec fn is_space(c: char) -> bool {
    c == ' ' || c == '\t' || c == '\n' || c == '\r' || c == '\u{c}'
}

/// A character that may stand in an identifier.
pub open spec fn is_ident_char(c: char) -> bool {
    ('a' <= c && c <= 'z') || ('A' <= c && c <= 'Z') || c == '_'
}

/// The first position at or after `p` that holds no whitespace.
pub open spec fn skip_spaces(s: Seq<char>, p: int) -> int
    decreases s.len() - p,
{
    if 0 <= p < s.len() && is_space(s[p]) {
        skip_spaces(s, p + 1)
    } else {
        p
    }
}

/// The end of the run of identifier characters that starts at `p`.
pub open spec fn ident_end(s: Seq<char>, p: int) -> int
    decreases s.len() - p,
{
    if 0 <= p < s.len() && is_ident_char(s[p]) {
        ident_end(s, p + 1)
    } else {
        p
    }
}

/// The end of the run of digits that starts at `p`.
pub open spec fn digits_end(s: Seq<char>, p: int) -> int
    decreases s.len() - p,
{
    if 0 <= p < s.len() && is_digit(s[p]) {
        digits_end(s, p + 1)
    } else {
        p
    }
}

/// The position of the first `"` at or after `p`, or the end of the input.
pub open spec fn quote_end(s: Seq<char>, p: int) -> int
    decreases s.len() - p,
{
    if 0 <= p < s.len() && s[p] != '"' {
        quote_end(s, p + 1)
    } else {
        p
    }
}

pub open spec fn next_is_eq(s: Seq<char>, p: int) -> bool {
    p + 1 < s.len() && s[p + 1] == '='
}

/// The token that an operator, a delimiter or any other character at `p` starts.
pub open spec fn symbol_token(s: Seq<char>, p: int) -> Kind {
    let c = s[p];
    if c == '=' {
        if next_is_eq(s, p) { Kind::Equal } else { Kind::Assign }
    } else if c == '!' {
        if next_is_eq(s, p) { Kind::NotEqual } else { Kind::Bang }
    } else if c == '<' {
        if next_is_eq(s, p) { Kind::LessThanOrEqual } else { Kind::LessThan }
    } else if c == '>' {
        if next_is_eq(s, p) { Kind::GreaterThanOrEqual } else { Kind::GreaterThan }
    } else if c == '+' {
        Kind::Plus
    } else if c == '-' {
        Kind::Minus
    } else if c == '*' {
        Kind::Asterisk
    } else if c == '/' {
        Kind::Slash
    } else if c == '%' {
        Kind::Modulo
    } else if c == ',' {
        Kind::Comma
    } else if c == ':' {
        Kind::Colon
    } else if c == ';' {
        Kind::Semicolon
    } else if c == '(' {
        Kind::LeftParen
    } else if c == ')' {
        Kind::RightParen
    } else if c == '{' {
        Kind::LeftBrace
    } else if c == '}' {
        Kind::RightBrace
    } else if c == '[' {
        Kind::LeftBracket
    } else if c == ']' {
        Kind::RightBracket
    } else {
        Kind::Illegal(c)
    }
}

/// How many characters the symbol at `p` takes.
pub open spec fn symbol_len(s: Seq<char>, p: int) -> int {
    let c = s[p];
    if (c == '=' || c == '!' || c == '<' || c == '>') && next_is_eq(s, p) {
        2
    } else {
        1
    }
}

/// The keyword spelled by `w`, if it is one.
pub open spec fn keyword(w: Seq<char>) -> Option<Kind> {
    if w == seq!['f', 'n'] {
        Some(Kind::Function)
    } else if w == seq!['l', 'e', 't'] {
        Some(Kind::Let)
    } else if w == seq!['i', 'f'] {
        Some(Kind::If)
    } else if w == seq!['e', 'l', 's', 'e'] {
        Some(Kind::Else)
    } else if w == seq!['r', 'e', 't', 'u', 'r', 'n'] {
        Some(Kind::Return)
    } else if w == seq!['t', 'r', 'u', 'e'] {
        Some(Kind::True)
    } else if w == seq!['f', 'a', 'l', 's', 'e'] {
        Some(Kind::False)
    } else {
        None
    }
}

/// Where the token that starts at `p` ends.
pub open spec fn token_end(s: Seq<char>, p: int) -> int {
    let c = s[p];
    if is_ident_char(c) {
        ident_end(s, p)
    } else if is_digit(c) {
        digits_end(s, p)
    } else if c == '"' {
        let e = quote_end(s, p + 1);
        if e < s.len() { e + 1 } else { e }
    } else {
        p + symbol_len(s, p)
    }
}

/// The integer literal at `p` does not fit in 64 bits.
pub open spec fn overflows_at(s: Seq<char>, p: int) -> bool {
    is_digit(s[p]) && digits_value(s.subrange(p, digits_end(s, p))) > i64::MAX
}

/// `t` is the token that the lexer reads at `p`.
pub open spec fn token_at(s: Seq<char>, p: int, t: Kind) -> bool {
    let c = s[p];
    if is_ident_char(c) {
        let w = s.subrange(p, ident_end(s, p));
        match keyword(w) {
            Some(k) => t == k,
            None => t is Ident && t->Ident_0@ == w,
        }
    } else if is_digit(c) {
        t == Kind::Int(digits_value(s.subrange(p, digits_end(s, p))) as i64)
    } else if c == '"' {
        t is String && t->String_0@ == s.subrange(p + 1, quote_end(s, p + 1))
    } else {
        t == symbol_token(s, p)
    }
}

/// The line of position `p`, counted from 1.
pub open spec fn line_at(s: Seq<char>, p: int) -> int
    decreases p,
{
    if p <= 0 {
        1
    } else if s[p - 1] == '\n' {
        line_at(s, p - 1) + 1
    } else {
        line_at(s, p - 1)
    }
}

/// How many characters of its line come before position `p`.
pub open spec fn column_at(s: Seq<char>, p: int) -> int
    decreases p,
{
    if p <= 0 {
        0
    } else if s[p - 1] == '\n' {
        0
    } else {
        column_at(s, p - 1) + 1
    }
}

/// Where the end of the input is reported to be: just after its last character.
pub open spec fn eof_span(s: Seq<char>) -> TokenSpan {
    TokenSpan { line: line_at(s, s.len() as int) as usize, column: (column_at(s, s.len() as int) + 1) as usize }
}

/// Where the token read at `p` is reported to start.
pub open spec fn span_at(s: Seq<char>, p: int) -> TokenSpan {
    TokenSpan { line: line_at(s, p) as usize, column: column_at(s, p + 1) as usize }
}

pub proof fn lemma_line_column_bounds(s: Seq<char>, p: int)
    requires
        0 <= p <= s.len(),
    ensures
        1 <= line_at(s, p) <= p + 1,
        0 <= column_at(s, p) <= p,
    decreases p,
{
    if p > 0 {
        lemma_line_column_bounds(s, p - 1);
    }
}

/// The token kinds `ts` are what the lexer reads from position `p` to the end.
pub open spec fn lexes(s: Seq<char>, p: int, ts: Seq<Kind>) -> bool
    decreases s.len() - p, ts.len(),
{
    let q = skip_spaces(s, p);
    if q < p || q >= s.len() {
        ts.len() == 0
    } else if ts.len() == 0 || token_end(s, q) <= q || token_end(s, q) > s.len() {
        false
    } else {
        !overflows_at(s, q) && token_at(s, q, ts[0]) && lexes(s, token_end(s, q), ts.drop_first())
    }
}

/// Reading from position `p` on meets an integer literal that does not fit in 64 bits.
pub open spec fn lex_fails(s: Seq<char>, p: int) -> bool
    decreases s.len() - p,
{
    let q = skip_spaces(s, p);
    if q < p || q >= s.len() || token_end(s, q) <= q || token_end(s, q) > s.len() {
        false
    } else {
        overflows_at(s, q) || lex_fails(s, token_end(s, q))
    }
}

/// The classes of character that the lexer reads in runs.
#[derive(Debug, Clone, Copy, PartialEq, Eq, Structural)]
pub enum CharClass {
    Space,
    Ident,
    Digit,
    NotQuote,
}

impl CharClass {
    pub open spec fn has(self, c: char) -> bool {
        match self {
            CharClass::Space => is_space(c),
            CharClass::Ident => is_ident_char(c),
            CharClass::Digit => is_digit(c),
            CharClass::NotQuote => c != '"',
        }
    }

    pub fn contains(self, c: char) -> (r: bool)
        ensures
            r == self.has(c),
    {
        match self {
            CharClass::Space => c == ' ' || c == '\t' || c == '\n' || c == '\r' || c == '\u{c}',
            CharClass::Ident => ('a' <= c && c <= 'z') || ('A' <= c && c <= 'Z') || c == '_',
            CharClass::Digit => '0' <= c && c <= '9',
            CharClass::NotQuote => c != '"',
        }
    }
}

/// The only way lexing can fail.
#[derive(Debug, Clone, Copy, PartialEq, Eq, Structural)]
pub enum LexError {
    /// An integer literal that does not fit in 64 bits, and where it starts.
    IntegerOverflow(TokenSpan),
}

#[derive(Debug, Clone)]
pub struct Tokenizer {
    /// The source, as characters.
    input: Vec<char>,
    /// How many characters have been read.
    position: usize,
    /// The current line.
    line: usize,
    /// The current column.
    column: usize,
}

impl Tokenizer {
    pub closed spec fn input(&self) -> Seq<char> {
        self.input@
    }

    pub closed spec fn position(&self) -> int {
        self.position as int
    }

    pub closed spec fn wf(&self) -> bool {
        &&& self.position <= self.input@.len() < usize::MAX
        &&& self.line == line_at(self.input@, self.position as int)
        &&& self.column == column_at(self.input@, self.position as int)
    }

    pub proof fn lemma_wf(&self)
        requires
            self.wf(),
        ensures
            0 <= self.position() <= self.input().len() < usize::MAX,
    {
    }

    pub fn new(input: &str) -> (r: Tokenizer)
        requires
            input@.len() < usize::MAX,
        ensures
            r.wf(),
            r.input() == input@,
            r.position() == 0,
    {
        Tokenizer { input: chars_of(input), position: 0, line: 1, column: 0 }
    }

    /// Reads one character and keeps the line and column up to date.
    fn advance(&mut self) -> (c: char)
        requires
            old(self).wf(),
            old(self).position() < old(self).input().len(),
        ensures
            final(self).wf(),
            final(self).input() == old(self).input(),
            final(self).position() == old(self).position() + 1,
            c == old(self).input()[old(self).position()],
    {
        let c = self.input[self.position];
        proof {
            lemma_line_column_bounds(self.input@, self.position as int);
        }
        self.position = self.position + 1;
        if c == '\n' {
            self.line = self.line + 1;
            self.column = 0;
        } else {
            self.column = self.column + 1;
        }
        c
    }

    fn peek_is(&self, c: char) -> (r: bool)
        ensures
            r == (self.position() < self.input().len() && self.input()[self.position()] == c),
    {
        self.position < self.input.len() && self.input[self.position] == c
    }

    /// Whether the next character belongs to `class`.
    fn peek_matches(&self, class: CharClass) -> (r: bool)
        ensures
            r == (self.position() < self.input().len() && class.has(
                self.input()[self.position()],
            )),
    {
        self.position < self.input.len() && class.contains(self.input[self.position])
    }

    /// Reads past whitespace.
    fn skip_whitespace(&mut self)
        requires
            old(self).wf(),
        ensures
            final(self).wf(),
            final(self).input() == old(self).input(),
            final(self).position() == skip_spaces(old(self).input(), old(self).position()),
    {
        while self.peek_matches(CharClass::Space)
            invariant
                self.wf(),
                self.input() == old(self).input(),
                old(self).position() <= self.position(),
                skip_spaces(self.input(), self.position()) == skip_spaces(
                    old(self).input(),
                    old(self).position(),
                ),
            decreases self.input().len() - self.position(),
        {
            self.advance();
        }
    }

    /// Reads the longest run of characters of `class`, and returns it.
    fn read_run(&mut self, class: CharClass) -> (r: Vec<char>)
        requires
            old(self).wf(),
        ensures
            final(self).wf(),
            final(self).input() == old(self).input(),
            final(self).position() == run_end(old(self).input(), old(self).position(), class),
            r@ == old(self).input().subrange(old(self).position(), final(self).position()),
    {
        let ghost start = self.position();
        let mut run: Vec<char> = Vec::new();
        while self.peek_matches(class)
            invariant
                self.wf(),
                self.input() == old(self).input(),
                start == old(self).position(),
                start <= self.position(),
                run_end(self.input(), self.position(), class) == run_end(
                    self.input(),
                    start,
                    class,
                ),
                run@ == self.input().subrange(start, self.position()),
            decreases self.input().len() - self.position(),
        {
            let c = self.advance();
            run.push(c);
        }
        run
    }

    /// Reads the next token. Once only whitespace is left it gives `Eof`, on this
    /// call and on every later one.
    pub fn next_token(&mut self) -> (r: Result<Token, LexError>)
        requires
            old(self).wf(),
        ensures
            final(self).wf(),
            final(self).input() == old(self).input(),
            ({
                let s = old(self).input();
                let q = skip_spaces(s, old(self).position());
                if q >= s.len() {
                    &&& r == Ok::<Token, LexError>(Token { kind: Kind::Eof, span: eof_span(s) })
                    &&& final(self).position() == s.len()
                } else {
                    &&& final(self).position() == token_end(s, q)
                    &&& q < token_end(s, q)
                    &&& overflows_at(s, q) ==> r == Err::<Token, LexError>(
                        LexError::IntegerOverflow(span_at(s, q)),
                    )
                    &&& !overflows_at(s, q) ==> r is Ok && token_at(s, q, r->Ok_0.kind)
                        && r->Ok_0.span == span_at(s, q)
                    &&& !overflows_at(s, q) ==> !(r->Ok_0.kind is Eof)
                }
            }),
    {
        self.skip_whitespace();
        proof {
            lemma_skip_spaces(self.input(), old(self).position());
        }
        if self.position >= self.input.len() {
            proof {
                lemma_line_column_bounds(self.input(), self.position());
            }
            return Ok(Token::new(Kind::Eof, TokenSpan::new(self.line, self.column + 1)));
        }
        let ghost s = self.input();
        let ghost q = self.position();
        let c = self.input[self.position];
        let line = self.line;
        proof {
            lemma_line_column_bounds(s, q + 1);
            assert(c == s[q]);
            assert(!is_space(c));
            assert(column_at(s, q + 1) == column_at(s, q) + 1);
        }
        if ('a' <= c && c <= 'z') || ('A' <= c && c <= 'Z') || c == '_' {
            let span = TokenSpan::new(line, self.column + 1);
            let word = self.read_run(CharClass::Ident);
            proof {
                lemma_run_end_is(s, q, CharClass::Ident);
            }
            let kind = match keyword_of(word.as_slice()) {
                Some(k) => k,
                None => Kind::Ident(string_of(word.as_slice())),
            };
            return Ok(Token::new(kind, span));
        }
        if '0' <= c && c <= '9' {
            let span = TokenSpan::new(line, self.column + 1);
            let digits = self.read_run(CharClass::Digit);
            proof {
                lemma_run_end_is(s, q, CharClass::Digit);
                assert forall|i: int| 0 <= i < digits@.len() implies is_digit(#[trigger] digits@[i]) by {
                    lemma_run_all(s, q, CharClass::Digit, q + i);
                }
            }
            return match read_magnitude(digits.as_slice(), 9223372036854775807u64) {
                Some(v) => Ok(Token::new(Kind::Int(v as i64), span)),
                None => Err(LexError::IntegerOverflow(span)),
            };
        }
        if c == '"' {
            let span = TokenSpan::new(line, self.column + 1);
            self.advance();
            let content = self.read_run(CharClass::NotQuote);
            proof {
                lemma_run_end_is(s, q + 1, CharClass::NotQuote);
            }
            if self.position < self.input.len() {
                self.advance();
            }
            return Ok(Token::new(Kind::String(string_of(content.as_slice())), span));
        }
        let span = TokenSpan::new(line, self.column + 1);
        self.advance();
        let eq_next = self.peek_is('=');
        let kind = if c == '=' {
            if eq_next { Kind::Equal } else { Kind::Assign }
        } else if c == '!' {
            if eq_next { Kind::NotEqual } else { Kind::Bang }
        } else if c == '<' {
            if eq_next { Kind::LessThanOrEqual } else { Kind::LessThan }
        } else if c == '>' {
            if eq_next { Kind::GreaterThanOrEqual } else { Kind::GreaterThan }
        } else if c == '+' {
            Kind::Plus
        } else if c == '-' {
            Kind::Minus
        } else if c == '*' {
            Kind::Asterisk
        } else if c == '/' {
            Kind::Slash
        } else if c == '%' {
            Kind::Modulo
        } else if c == ',' {
            Kind::Comma
        } else if c == ':' {
            Kind::Colon
        } else if c == ';' {
            Kind::Semicolon
        } else if c == '(' {
            Kind::LeftParen
        } else if c == ')' {
            Kind::RightParen
        } else if c == '{' {
            Kind::LeftBrace
        } else if c == '}' {
            Kind::RightBrace
        } else if c == '[' {
            Kind::LeftBracket
        } else if c == ']' {
            Kind::RightBracket
        } else {
            Kind::Illegal(c)
        };
        if eq_next && (c == '=' || c == '!' || c == '<' || c == '>') {
            self.advance();
        }
        Ok(Token::new(kind, span))
    }
}

/// The end of the run of characters of `class` that starts at `p`.
pub open spec fn run_end(s: Seq<char>, p: int, class: CharClass) -> int
    decreases s.len() - p,
{
    if 0 <= p < s.len() && class.has(s[p]) {
        run_end(s, p + 1, class)
    } else {
        p
    }
}

proof fn lemma_run_end_is(s: Seq<char>, p: int, class: CharClass)
    requires
        0 <= p <= s.len(),
    ensures
        p <= run_end(s, p, class) <= s.len(),
        p < s.len() && class.has(s[p]) ==> p < run_end(s, p, class),
        class == CharClass::Ident ==> run_end(s, p, class) == ident_end(s, p),
        class == CharClass::Digit ==> run_end(s, p, class) == digits_end(s, p),
        class == CharClass::NotQuote ==> run_end(s, p, class) == quote_end(s, p),
    decreases s.len() - p,
{
    if p < s.len() && class.has(s[p]) {
        lemma_run_end_is(s, p + 1, class);
    }
}

proof fn lemma_run_all(s: Seq<char>, p: int, class: CharClass, i: int)
    requires
        0 <= p <= i < run_end(s, p, class),
    ensures
        class.has(s[i]),
    decreases s.len() - p,
{
    if i > p {
        lemma_run_all(s, p + 1, class, i);
    }
}

pub proof fn lemma_skip_spaces(s: Seq<char>, p: int)
    requires
        0 <= p <= s.len(),
    ensures
        p <= skip_spaces(s, p) <= s.len(),
        skip_spaces(s, p) < s.len() ==> !is_space(s[skip_spaces(s, p)]),
    decreases s.len() - p,
{
    if p < s.len() && is_space(s[p]) {
        lemma_skip_spaces(s, p + 1);
    }
}

/// The keyword spelled by `w`, if it is one.
fn keyword_of(w: &[char]) -> (r: Option<Kind>)
    ensures
        r == keyword(w@),
{
    let n = w.len();
    if n == 2 && w[0] == 'f' && w[1] == 'n' {
        assert(w@ == seq!['f', 'n']);
        Some(Kind::Function)
    } else if n == 3 && w[0] == 'l' && w[1] == 'e' && w[2] == 't' {
        assert(w@ == seq!['l', 'e', 't']);
        Some(Kind::Let)
    } else if n == 2 && w[0] == 'i' && w[1] == 'f' {
        assert(w@ == seq!['i', 'f']);
        Some(Kind::If)
    } else if n == 4 && w[0] == 'e' && w[1] == 'l' && w[2] == 's' && w[3] == 'e' {
        assert(w@ == seq!['e', 'l', 's', 'e']);
        Some(Kind::Else)
    } else if n == 6 && w[0] == 'r' && w[1] == 'e' && w[2] == 't' && w[3] == 'u' && w[4] == 'r'
        && w[5] == 'n' {
        assert(w@ == seq!['r', 'e', 't', 'u', 'r', 'n']);
        Some(Kind::Return)
    } else if n == 4 && w[0] == 't' && w[1] == 'r' && w[2] == 'u' && w[3] == 'e' {
        assert(w@ == seq!['t', 'r', 'u', 'e']);
        Some(Kind::True)
    } else if n == 5 && w[0] == 'f' && w[1] == 'a' && w[2] == 'l' && w[3] == 's' && w[4] == 'e' {
        assert(w@ == seq!['f', 'a', 'l', 's', 'e']);
        Some(Kind::False)
    } else {
        None
    }
}

} // verus!
