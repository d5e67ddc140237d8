use monkey::{Expression, InfixOperator, ParseError, Parser, PrefixOperator, Program, Statement, Token, Tokenizer};

fn parse(input: &str) -> (Program, Vec<ParseError>) {
    let mut parser = Parser::new(Tokenizer::new(input)).unwrap();
    let program = parser.parse_program();
    let errors = std::mem::take(&mut parser.errors);
    (program, errors)
}

fn lit(n: i64) -> Box<Expression> {
    Box::new(Expression::Int(n))
}

fn name(s: &str) -> Expression {
    Expression::Identifier(String::from(s))
}

fn infix(operator: InfixOperator, lhs: Expression, rhs: Expression) -> Expression {
    Expression::Infix { operator, lhs: Box::new(lhs), rhs: Box::new(rhs) }
}

fn single_expression(input: &str) -> Expression {
    let (mut program, errors) = parse(input);
    println!("Parser had {} error(s): {:#?}", errors.len(), errors);
    assert_eq!(program.statements.len(), 1);
    let statement = program.statements.remove(0);
    match statement {
        Statement::Expression(expression) => expression,
        statement => panic!("Statement was not an expression ({statement:?})"),
    }
}

#[test]
fn let_statements() {
    let (program, errors) = parse("\n\t\tlet x = 5;\n\t\tlet y = 10;\n\t\tlet foobar = 838383;\n\t");
    assert_eq!(errors.len(), 0, "Parser had {} errors: {:#?}", errors.len(), errors);
    assert_eq!(program.statements.len(), 3);
    assert_eq!(program.statements[0], Statement::let_(String::from("x"), Expression::Int(5)));
    assert_eq!(program.statements[1], Statement::let_(String::from("y"), Expression::Int(10)));
    assert_eq!(
        program.statements[2],
        Statement::let_(String::from("foobar"), Expression::Int(838383))
    );
}

#[test]
fn return_statements() {
    let (program, errors) = parse("\n\t\treturn 5;\n\t\treturn 10;\n\t\treturn 993322;\n\t");
    assert_eq!(errors.len(), 0, "Parser had {} errors: {:#?}", errors.len(), errors);
    assert_eq!(program.statements.len(), 3);
    assert_eq!(program.statements[0], Statement::return_(Expression::Int(5)));
    assert_eq!(program.statements[1], Statement::return_(Expression::Int(10)));
    assert_eq!(program.statements[2], Statement::return_(Expression::Int(993322)));
}

#[test]
fn identifier_expression() {
    let (program, errors) = parse("foobar;");
    assert_eq!(errors.len(), 0, "Parser had {} errors: {:#?}", errors.len(), errors);
    assert_eq!(program.statements.len(), 1);
    assert_eq!(program.statements[0], Statement::expression(name("foobar")));
}

#[test]
fn integer_literal_expression() {
    let (program, errors) = parse("5;");
    assert_eq!(errors.len(), 0, "Parser had {} errors: {:#?}", errors.len(), errors);
    assert_eq!(program.statements.len(), 1);
    assert_eq!(program.statements[0], Statement::expression(Expression::Int(5)));
}

#[test]
fn boolean_literal_expression() {
    let test_cases = [("true;", Expression::Bool(true)), ("false;", Expression::Bool(false))];
    for (input, expected) in test_cases {
        let (program, errors) = parse(input);
        assert_eq!(errors.len(), 0, "Parser had {} errors: {:#?}", errors.len(), errors);
        assert_eq!(program.statements.len(), 1);
        assert_eq!(program.statements[0], Statement::Expression(expected));
    }
}

#[test]
fn string_expression() {
    let (program, errors) = parse("\"foobar\";");
    assert_eq!(errors.len(), 0, "Parser had {} errors: {:#?}", errors.len(), errors);
    assert_eq!(program.statements.len(), 1);
    assert_eq!(
        program.statements[0],
        Statement::Expression(Expression::String(String::from("foobar")))
    );
}

#[test]
fn array_expression() {
    let (program, errors) = parse("[1, 2 * 2, 3 + 3]");
    assert_eq!(errors.len(), 0, "Parser had {} errors: {:#?}", errors.len(), errors);
    assert_eq!(program.statements.len(), 1);
    assert_eq!(
        program.statements[0],
        Statement::Expression(Expression::Array(vec![
            Expression::Int(1),
            Expression::Infix { operator: InfixOperator::Mul, lhs: lit(2), rhs: lit(2) },
            Expression::Infix { operator: InfixOperator::Add, lhs: lit(3), rhs: lit(3) },
        ]))
    );
}

#[test]
fn map_expression() {
    let key = |s: &str| Expression::String(String::from(s));
    let test_cases = [
        ("{}", Expression::Hash(Vec::new())),
        (
            "\n\t\t\t\t{\n\t\t\t\t\t\"one\": 1,\n\t\t\t\t\t\"two\": 2,\n\t\t\t\t\t\"three\": 3\n\t\t\t\t}\n\t\t\t",
            Expression::Hash(vec![
                (key("one"), Expression::Int(1)),
                (key("two"), Expression::Int(2)),
                (key("three"), Expression::Int(3)),
            ]),
        ),
        (
            "\n\t\t\t\t{\n\t\t\t\t\t\"one\": 0 + 1,\n\t\t\t\t\t\"two\": 10 - 8,\n\t\t\t\t\t\"three\": 15 / 5\n\t\t\t\t}\n\t\t\t",
            Expression::Hash(vec![
                (key("one"), Expression::Infix { operator: InfixOperator::Add, lhs: lit(0), rhs: lit(1) }),
                (key("two"), Expression::Infix { operator: InfixOperator::Sub, lhs: lit(10), rhs: lit(8) }),
                (key("three"), Expression::Infix { operator: InfixOperator::Div, lhs: lit(15), rhs: lit(5) }),
            ]),
        ),
    ];
    for (input, expected) in test_cases {
        let (mut program, errors) = parse(input);
        println!("Parser had {} error(s): {:#?}", errors.len(), errors);
        assert_eq!(program.statements.len(), 1);
        assert_eq!(program.statements.remove(0), Statement::Expression(expected));
    }
}

#[test]
fn parsing_prefix_expressions() {
    let test_cases = [
        ("!5;", Expression::Prefix { operator: PrefixOperator::Not, rhs: lit(5) }),
        ("-15;", Expression::Prefix { operator: PrefixOperator::Neg, rhs: lit(15) }),
        (
            "!true;",
            Expression::Prefix { operator: PrefixOperator::Not, rhs: Box::new(Expression::Bool(true)) },
        ),
        (
            "!false;",
            Expression::Prefix { operator: PrefixOperator::Not, rhs: Box::new(Expression::Bool(false)) },
        ),
    ];
    for (input, expected) in test_cases {
        assert_eq!(single_expression(input), expected);
    }
}

#[test]
fn parsing_infix_expressions() {
    let five = || Expression::Int(5);
    let t = || Expression::Bool(true);
    let f = || Expression::Bool(false);
    let test_cases = [
        ("5 + 5;", infix(InfixOperator::Add, five(), five())),
        ("5 - 5;", infix(InfixOperator::Sub, five(), five())),
        ("5 * 5;", infix(InfixOperator::Mul, five(), five())),
        ("5 / 5;", infix(InfixOperator::Div, five(), five())),
        ("5 > 5;", infix(InfixOperator::GreaterThan, five(), five())),
        ("5 < 5;", infix(InfixOperator::LessThan, five(), five())),
        ("5 == 5;", infix(InfixOperator::Equal, five(), five())),
        ("5 != 5;", infix(InfixOperator::NotEqual, five(), five())),
        ("true == true", infix(InfixOperator::Equal, t(), t())),
        ("true != false", infix(InfixOperator::NotEqual, t(), f())),
        ("false == false", infix(InfixOperator::Equal, f(), f())),
    ];
    for (input, expected) in test_cases {
        assert_eq!(single_expression(input), expected);
    }
}

#[test]
fn operator_precedence() {
    let test_cases = [
        ("-a * b", "((-a) * b)"),
        ("!-a", "(!(-a))"),
        ("a + b + c", "((a + b) + c)"),
        ("a + b - c", "((a + b) - c)"),
        ("a * b * c", "((a * b) * c)"),
        ("a * b / c", "((a * b) / c)"),
        ("a + b / c", "(a + (b / c))"),
        ("a + b * c + d / e - f", "(((a + (b * c)) + (d / e)) - f)"),
        ("3 + 4; -5 * 5", "(3 + 4)((-5) * 5)"),
        ("5 > 4 == 3 < 4", "((5 > 4) == (3 < 4))"),
        ("5 < 4 != 3 > 4", "((5 < 4) != (3 > 4))"),
        ("3 + 4 * 5 == 3 * 1 + 4 * 5", "((3 + (4 * 5)) == ((3 * 1) + (4 * 5)))"),
        ("true", "true"),
        ("false", "false"),
        ("3 > 5 == false", "((3 > 5) == false)"),
        ("3 < 5 == true", "((3 < 5) == true)"),
        ("1 + (2 + 3) + 4", "((1 + (2 + 3)) + 4)"),
        ("(5 + 5) * 2", "((5 + 5) * 2)"),
        ("2 / (5 + 5)", "(2 / (5 + 5))"),
        ("-(5 + 5)", "(-(5 + 5))"),
        ("!(true == true)", "(!(true == true))"),
        ("a + add(b * c) + d", "((a + add((b * c))) + d)"),
        (
            "add(a, b, 1, 2 * 3, 4 + 5, add(6, 7 * 8))",
            "add(a, b, 1, (2 * 3), (4 + 5), add(6, (7 * 8)))",
        ),
        ("add(a + b + c * d / f + g)", "add((((a + b) + ((c * d) / f)) + g))"),
        ("a * [1, 2, 3, 4][b * c] * d", "((a * ([1, 2, 3, 4][(b * c)])) * d)"),
        ("add(a * b[2], b[1], 2 * [1, 2][1])", "add((a * (b[2])), (b[1]), (2 * ([1, 2][1])))"),
    ];
    for (input, expected) in test_cases {
        let (program, errors) = parse(input);
        println!("Parser had {} error(s): {:#?}", errors.len(), errors);
        assert_eq!(program.to_string(), expected);
    }
}

#[test]
fn parsing_if_expressions() {
    assert_eq!(
        single_expression("if (x < y) { x }"),
        Expression::Condition {
            condition: Box::new(infix(InfixOperator::LessThan, name("x"), name("y"))),
            consequence: vec![Statement::expression(name("x"))],
            alternative: None,
        }
    );
}

#[test]
fn parsing_if_else_expressions() {
    assert_eq!(
        single_expression("if (x < y) { x } else { y }"),
        Expression::Condition {
            condition: Box::new(infix(InfixOperator::LessThan, name("x"), name("y"))),
            consequence: vec![Statement::expression(name("x"))],
            alternative: Some(vec![Statement::expression(name("y"))]),
        }
    );
}

#[test]
fn parsing_function_expressions() {
    assert_eq!(
        single_expression("fn(x, y) { x + y; }"),
        Expression::Function {
            parameters: vec![String::from("x"), String::from("y")],
            body: vec![Statement::Expression(infix(InfixOperator::Add, name("x"), name("y")))],
        }
    );
}

#[test]
fn parsing_function_parameters() {
    let test_cases = [
        ("fn() {};", vec![]),
        ("fn(x) {};", vec![String::from("x")]),
        ("fn(x, y, z) {};", vec![String::from("x"), String::from("y"), String::from("z")]),
    ];
    for (input, expected) in test_cases {
        assert_eq!(
            single_expression(input),
            Expression::Function { parameters: expected, body: vec![] }
        );
    }
}

#[test]
fn parsing_call_expressions() {
    assert_eq!(
        single_expression("add(1, 2 * 3, 4 + 5);"),
        Expression::Call {
            function: Box::new(name("add")),
            arguments: vec![
                Expression::Int(1),
                Expression::Infix { operator: InfixOperator::Mul, lhs: lit(2), rhs: lit(3) },
                Expression::Infix { operator: InfixOperator::Add, lhs: lit(4), rhs: lit(5) },
            ],
        }
    );
}

#[test]
fn parsing_index_expressions() {
    assert_eq!(
        single_expression("my_array[1 + 1]"),
        Expression::Index {
            lhs: Box::new(name("my_array")),
            idx: Box::new(Expression::Infix { operator: InfixOperator::Add, lhs: lit(1), rhs: lit(1) }),
        }
    );
}

#[test]
fn parsing_call_parameters() {
    let test_cases = [
        ("add();", "add", vec![]),
        ("add(1);", "add", vec![Expression::Int(1)]),
        (
            "add(1, 2 * 3, 4 + 5);",
            "add",
            vec![
                Expression::Int(1),
                Expression::Infix { operator: InfixOperator::Mul, lhs: lit(2), rhs: lit(3) },
                Expression::Infix { operator: InfixOperator::Add, lhs: lit(4), rhs: lit(5) },
            ],
        ),
    ];
    for (input, identifier, arguments) in test_cases {
        assert_eq!(
            single_expression(input),
            Expression::Call { function: Box::new(name(identifier)), arguments }
        );
    }
}

#[test]
fn less_equal_written_with_a_space() {
    assert_eq!(single_expression("1 < = 2"), infix(InfixOperator::LessThanOrEqual, Expression::Int(1), Expression::Int(2)));
    assert_eq!(single_expression("1 >= 2"), infix(InfixOperator::GreaterThanOrEqual, Expression::Int(1), Expression::Int(2)));
    assert_eq!(single_expression("7 % 2"), infix(InfixOperator::Modulo, Expression::Int(7), Expression::Int(2)));
}

#[test]
fn indirect_callees_are_accepted() {
    assert_eq!(
        single_expression("fs[0](1)"),
        Expression::Call {
            function: Box::new(Expression::Index { lhs: Box::new(name("fs")), idx: lit(0) }),
            arguments: vec![Expression::Int(1)],
        }
    );
}

#[test]
fn parse_errors_are_collected() {
    let (program, errors) = parse("let = 5; 7");
    assert!(!errors.is_empty());
    assert_eq!(errors[0], ParseError::Unexpected(Token::Assign));
    assert_eq!(program.statements.last(), Some(&Statement::expression(Expression::Int(7))));
    let (_, errors) = parse(")");
    assert_eq!(errors, vec![ParseError::NoPrefix(Token::RightParen)]);
    let (_, errors) = parse("(1");
    assert_eq!(errors, vec![ParseError::Unexpected(Token::Eof)]);
}

#[test]
fn lexing_errors_stop_the_parser() {
    assert!(Parser::new(Tokenizer::new("1 + 99999999999999999999")).is_err());
}

#[test]
fn test_print() {
    let program = Program {
        statements: vec![Statement::let_(String::from("my_var"), name("another_var"))],
    };
    assert_eq!(program.to_string(), "let my_var = another_var;");
}

#[test]
fn printing_covers_every_construct() {
    let (program, _) = parse("if (a) { return [1, \"s\"]; } else { {\"k\": fn(x, y) { x }} }");
    assert_eq!(
        program.to_string(),
        "if (a) { return [1, \"s\"]; } else { {\"k\": fn (x, y) { x }} }"
    );
}

#[test]
fn printing_then_parsing_gives_the_same_tree() {
    let sources = [
        "((a + (b * c)) - (-d))",
        "fn (x, y) { (x + y) }",
        "if ((x < y)) { x } else { y }",
        "add(1, (2 * 3), [4, \"five\"])",
        "({\"k\": 1}[\"k\"])",
        "(!(a == b))",
    ];
    for source in sources {
        let (first, errors) = parse(source);
        assert!(errors.is_empty(), "{source}: {errors:?}");
        let printed = first.to_string();
        let (second, errors) = parse(&printed);
        assert!(errors.is_empty(), "{printed}: {errors:?}");
        assert_eq!(first, second, "{source}");
    }
}

#[test]
fn conversions_build_literals_and_names() {
    assert_eq!(Expression::from(5i64), Expression::Int(5));
    let t: Expression = true.into();
    assert_eq!(t, Expression::Bool(true));
    assert_eq!(Expression::from(String::from("x")), name("x"));
    assert_eq!(
        monkey::tokenizer::token::TokenSpan::from((2, 3)),
        monkey::tokenizer::token::TokenSpan::new(2, 3)
    );
}
