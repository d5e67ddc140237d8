use monkey::tokenizer::token::{Token, TokenKind, TokenSpan};
use monkey::{LexError, Precedence, Token as Kind, Tokenizer};

fn at(kind: TokenKind, line: usize, column: usize) -> Token {
    Token::new(kind, TokenSpan::new(line, column))
}

fn ident(name: &str) -> TokenKind {
    TokenKind::Ident(String::from(name))
}

fn check(input: &str, expected: &[Token]) {
    let mut tokenizer = Tokenizer::new(input);
    let mut i = 0;
    loop {
        let token = tokenizer.next_token().unwrap();
        if token.kind == TokenKind::Eof {
            break;
        }
        assert_eq!(token, expected[i], "Failed at #{i}");
        i += 1;
    }
    assert_eq!(i, expected.len());
}

fn program_head() -> Vec<Token> {
    vec![
        at(TokenKind::Let, 2, 3),
        at(ident("five"), 2, 7),
        at(TokenKind::Assign, 2, 12),
        at(TokenKind::Int(5), 2, 14),
        at(TokenKind::Semicolon, 2, 15),
        at(TokenKind::Let, 3, 3),
        at(ident("ten"), 3, 7),
        at(TokenKind::Assign, 3, 11),
        at(TokenKind::Int(10), 3, 13),
        at(TokenKind::Semicolon, 3, 15),
        at(TokenKind::Let, 5, 3),
        at(ident("add"), 5, 7),
        at(TokenKind::Assign, 5, 11),
        at(TokenKind::Function, 5, 13),
        at(TokenKind::LeftParen, 5, 15),
        at(ident("x"), 5, 16),
        at(TokenKind::Comma, 5, 17),
        at(ident("y"), 5, 19),
        at(TokenKind::RightParen, 5, 20),
        at(TokenKind::LeftBrace, 5, 22),
        at(ident("x"), 6, 4),
        at(TokenKind::Plus, 6, 6),
        at(ident("y"), 6, 8),
        at(TokenKind::RightBrace, 7, 3),
        at(TokenKind::Semicolon, 7, 4),
        at(TokenKind::Let, 9, 3),
        at(ident("result"), 9, 7),
        at(TokenKind::Assign, 9, 14),
        at(ident("add"), 9, 16),
        at(TokenKind::LeftParen, 9, 19),
        at(ident("five"), 9, 20),
        at(TokenKind::Comma, 9, 24),
        at(ident("ten"), 9, 26),
        at(TokenKind::RightParen, 9, 29),
        at(TokenKind::Semicolon, 9, 30),
    ]
}

fn operators_tail() -> Vec<Token> {
    vec![
        at(TokenKind::Bang, 10, 3),
        at(TokenKind::Minus, 10, 4),
        at(TokenKind::Slash, 10, 5),
        at(TokenKind::Asterisk, 10, 6),
        at(TokenKind::Int(5), 10, 7),
        at(TokenKind::Semicolon, 10, 8),
        at(TokenKind::Int(5), 11, 3),
        at(TokenKind::LessThan, 11, 5),
        at(TokenKind::Int(10), 11, 7),
        at(TokenKind::GreaterThan, 11, 10),
        at(TokenKind::Int(5), 11, 12),
        at(TokenKind::Semicolon, 11, 13),
    ]
}

fn keywords_tail() -> Vec<Token> {
    vec![
        at(TokenKind::If, 13, 3),
        at(TokenKind::LeftParen, 13, 6),
        at(TokenKind::Int(5), 13, 7),
        at(TokenKind::LessThan, 13, 9),
        at(TokenKind::Int(10), 13, 11),
        at(TokenKind::RightParen, 13, 13),
        at(TokenKind::LeftBrace, 13, 15),
        at(TokenKind::Return, 14, 4),
        at(TokenKind::True, 14, 11),
        at(TokenKind::Semicolon, 14, 15),
        at(TokenKind::RightBrace, 15, 3),
        at(TokenKind::Else, 15, 5),
        at(TokenKind::LeftBrace, 15, 10),
        at(TokenKind::Return, 16, 4),
        at(TokenKind::False, 16, 11),
        at(TokenKind::Semicolon, 16, 16),
        at(TokenKind::RightBrace, 17, 3),
    ]
}

const PROGRAM: &str = "\n\t\tlet five = 5;\n\t\tlet ten = 10;\n\n\t\tlet add = fn(x, y) {\n\t\t\tx + y\n\t\t};\n\n\t\tlet result = add(five, ten);\n";

#[test]
fn special_characters() {
    let input = "\n\t\t=+(){},;\n\t";
    let expected = [
        at(TokenKind::Assign, 2, 3),
        at(TokenKind::Plus, 2, 4),
        at(TokenKind::LeftParen, 2, 5),
        at(TokenKind::RightParen, 2, 6),
        at(TokenKind::LeftBrace, 2, 7),
        at(TokenKind::RightBrace, 2, 8),
        at(TokenKind::Comma, 2, 9),
        at(TokenKind::Semicolon, 2, 10),
    ];
    check(input, &expected);
}

#[test]
fn basic_program() {
    let input = format!("{PROGRAM}\t");
    check(&input, &program_head());
}

#[test]
fn more_operators() {
    let input = format!("{PROGRAM}\t\t!-/*5;\n\t\t5 < 10 > 5;\n\t");
    let mut expected = program_head();
    expected.extend(operators_tail());
    check(&input, &expected);
}

#[test]
fn more_keywords() {
    let input = format!(
        "{PROGRAM}\t\t!-/*5;\n\t\t5 < 10 > 5;\n\n\t\tif (5 < 10) {{\n\t\t\treturn true;\n\t\t}} else {{\n\t\t\treturn false;\n\t\t}}\n\t"
    );
    let mut expected = program_head();
    expected.extend(operators_tail());
    expected.extend(keywords_tail());
    check(&input, &expected);
}

#[test]
fn even_more_operators() {
    let input = format!(
        "{PROGRAM}\t\t!-/*5;\n\t\t5 < 10 > 5;\n\n\t\tif (5 < 10) {{\n\t\t\treturn true;\n\t\t}} else {{\n\t\t\treturn false;\n\t\t}}\n\n\t\t10 == 10;\n\t\t10 != 9;\n\t"
    );
    let mut expected = program_head();
    expected.extend(operators_tail());
    expected.extend(keywords_tail());
    expected.extend(vec![
        at(TokenKind::Int(10), 19, 3),
        at(TokenKind::Equal, 19, 6),
        at(TokenKind::Int(10), 19, 9),
        at(TokenKind::Semicolon, 19, 11),
        at(TokenKind::Int(10), 20, 3),
        at(TokenKind::NotEqual, 20, 6),
        at(TokenKind::Int(9), 20, 9),
        at(TokenKind::Semicolon, 20, 10),
    ]);
    check(&input, &expected);
}

#[test]
fn two_character_operators_and_delimiters() {
    let expected = [
        at(TokenKind::LessThanOrEqual, 1, 1),
        at(TokenKind::GreaterThanOrEqual, 1, 4),
        at(TokenKind::Modulo, 1, 7),
        at(TokenKind::Colon, 1, 8),
        at(TokenKind::LeftBracket, 1, 9),
        at(TokenKind::RightBracket, 1, 10),
    ];
    check("<= >= %:[]", &expected);
}

#[test]
fn strings_identifiers_and_illegal_characters() {
    let expected = [
        at(TokenKind::String(String::from("a b")), 1, 1),
        at(ident("snake_case"), 1, 7),
        at(TokenKind::Int(12), 1, 18),
        at(ident("x"), 1, 20),
        at(TokenKind::Illegal('@'), 1, 22),
    ];
    check("\"a b\" snake_case 12x @", &expected);
}

#[test]
fn unterminated_string_runs_to_the_end() {
    check("\"open", &[at(TokenKind::String(String::from("open")), 1, 1)]);
}

#[test]
fn integer_overflow_is_an_error() {
    let mut tokenizer = Tokenizer::new("  9223372036854775808");
    assert_eq!(tokenizer.next_token(), Err(LexError::IntegerOverflow(TokenSpan::new(1, 3))));
    let mut tokenizer = Tokenizer::new("9223372036854775807");
    assert_eq!(tokenizer.next_token(), Ok(at(TokenKind::Int(i64::MAX), 1, 1)));
    assert_eq!(tokenizer.next_token(), Ok(at(TokenKind::Eof, 1, 20)));
    assert_eq!(tokenizer.next_token(), Ok(at(TokenKind::Eof, 1, 20)));
}

#[test]
fn token_constructors_and_precedence() {
    assert_eq!(Kind::integer(7), Kind::Int(7));
    assert_eq!(Kind::ident(String::from("a")), Kind::Ident(String::from("a")));
    assert_eq!(Kind::string(String::from("s")), Kind::String(String::from("s")));
    assert_eq!(Kind::illegal('$'), Kind::Illegal('$'));
    assert_eq!(Kind::Plus.precedence(), Precedence::Sum);
    assert_eq!(Kind::Modulo.precedence(), Precedence::Product);
    assert_eq!(Kind::LeftBracket.precedence(), Precedence::Call);
    assert_eq!(Kind::LessThanOrEqual.precedence(), Precedence::LessGreater);
    assert_eq!(Kind::NotEqual.precedence(), Precedence::Equals);
    assert_eq!(Kind::Comma.precedence(), Precedence::Lowest);
}

#[test]
fn tokens_are_written_as_in_the_source() {
    assert_eq!(Kind::Int(-3).to_string(), "-3");
    assert_eq!(Kind::ident(String::from("abc")).to_string(), "abc");
    assert_eq!(Kind::string(String::from("s t")).to_string(), "\"s t\"");
    assert_eq!(Kind::GreaterThanOrEqual.to_string(), ">=");
    assert_eq!(Kind::LeftBrace.to_string(), "{");
    assert_eq!(Kind::Return.to_string(), "return");
    assert_eq!(Kind::Eof.to_string(), "EOF");
    assert_eq!(Kind::Illegal('#').to_string(), "#");
}

#[test]
fn end_of_input_gives_eof_again_and_again() {
    let mut tokenizer = Tokenizer::new("x \n ");
    assert_eq!(tokenizer.next_token(), Ok(at(ident("x"), 1, 1)));
    for _ in 0..3 {
        assert_eq!(tokenizer.next_token(), Ok(at(TokenKind::Eof, 2, 2)));
    }
    let mut empty = Tokenizer::new("");
    assert_eq!(empty.next_token(), Ok(at(TokenKind::Eof, 1, 1)));
}
