use monkey::{
    Environment, EvalError, Expression, InfixOperator, Parser, Program, Statement, Tokenizer, Value,
};

fn parse(input: &str) -> Program {
    let mut parser = Parser::new(Tokenizer::new(input)).unwrap();
    let program = parser.parse_program();
    let errors = parser.errors.len();
    assert_eq!(errors, 0, "Parser had {errors} errors: {:#?}", parser.errors);
    program
}

fn run(input: &str) -> Result<Value, EvalError> {
    let program = parse(input);
    let mut environment = Environment::default();
    program.eval(&mut environment)
}

fn run_global(input: &str) -> (Result<Value, EvalError>, Vec<String>) {
    let program = parse(input);
    let mut environment = Environment::new_global();
    let result = program.eval(&mut environment);
    (result, environment.take_output())
}

fn string(s: &str) -> Value {
    Value::String(String::from(s))
}

#[test]
fn eval_int_expression() {
    let test_cases = [
        ("5", 5),
        ("10", 10),
        ("-5", -5),
        ("-10", -10),
        ("5 + 5 + 5 + 5 - 10", 10),
        ("2 * 2 * 2 * 2 * 2", 32),
        ("-50 + 100 + -50", 0),
        ("5 * 2 + 10", 20),
        ("5 + 2 * 10", 25),
        ("20 + 2 * -10", 0),
        ("50 / 2 * 2 + 10", 60),
        ("2 * (5 + 10)", 30),
        ("3 * 3 * 3 + 10", 37),
        ("3 * (3 * 3) + 10", 37),
        ("(5 + 10 * 2 + 15 / 3) * 2 + -10", 50),
    ];
    for (input, value) in test_cases {
        let program = parse(input);
        assert_eq!(program.statements.len(), 1);
        let mut environment = Environment::default();
        assert_eq!(program.eval(&mut environment).unwrap(), Value::Int(value));
    }
}

#[test]
fn eval_bool_expression() {
    let test_cases = [
        ("true", true),
        ("false", false),
        ("!true", false),
        ("!false", true),
        ("!5", false),
        ("!!true", true),
        ("!!false", false),
        ("!!5", true),
        ("1 < 2", true),
        ("1 > 2", false),
        ("1 < 1", false),
        ("1 > 1", false),
        ("1 == 1", true),
        ("1 != 1", false),
        ("1 == 2", false),
        ("1 != 2", true),
        ("true == true", true),
        ("false == false", true),
        ("true == false", false),
        ("true != false", true),
        ("false != true", true),
        ("(1 < 2) == true", true),
        ("(1 < 2) == false", false),
        ("(1 > 2) == true", false),
        ("(1 > 2) == false", true),
    ];
    for (input, value) in test_cases {
        let program = parse(input);
        assert_eq!(program.statements.len(), 1);
        let mut environment = Environment::default();
        assert_eq!(program.eval(&mut environment).unwrap(), Value::Bool(value));
    }
}

#[test]
fn eval_string_expression() {
    let program = parse("\"Hello, world!\"");
    assert_eq!(program.statements.len(), 1);
    let mut environment = Environment::default();
    assert_eq!(program.eval(&mut environment).unwrap(), string("Hello, world!"));
}

#[test]
fn eval_array_expression() {
    let program = parse("[1, 2 * 2, 3 + 3]");
    assert_eq!(program.statements.len(), 1);
    let mut environment = Environment::default();
    assert_eq!(
        program.eval(&mut environment).unwrap(),
        Value::Array(vec![Value::Int(1), Value::Int(4), Value::Int(6)])
    );
}

#[test]
fn eval_map_expression() {
    let input = "\n\t\tlet two = \"two\";\n\t\t{\n\t\t\t\"one\": 10 - 9,\n\t\t\t\"two\": 1 + 1,\n\t\t\t\"thr\" + \"ee\": 6 / 2\n\t\t}\n\t";
    let program = parse(input);
    assert_eq!(program.statements.len(), 2);
    let mut environment = Environment::default();
    assert_eq!(
        program.eval(&mut environment).unwrap(),
        Value::Hash(vec![
            (String::from("one"), Value::Int(1)),
            (String::from("two"), Value::Int(2)),
            (String::from("three"), Value::Int(3)),
        ])
    );
}

#[test]
fn eval_index_expression() {
    let test_cases = [
        ("[1, 2, 3][0]", Value::Int(1)),
        ("[1, 2, 3][1]", Value::Int(2)),
        ("[1, 2, 3][2]", Value::Int(3)),
        ("let i = 0; [1][i];", Value::Int(1)),
        ("[1, 2, 3][1 + 1];", Value::Int(3)),
        ("let myArray = [1, 2, 3]; myArray[2];", Value::Int(3)),
        ("let myArray = [1, 2, 3]; myArray[0] + myArray[1] + myArray[2];", Value::Int(6)),
        ("let myArray = [1, 2, 3]; let i = myArray[0]; myArray[i]", Value::Int(2)),
        ("[1, 2, 3][3]", Value::Null),
        ("[1, 2, 3][-1]", Value::Int(3)),
        ("{\"foo\": 5}[\"foo\"]", Value::Int(5)),
        ("{\"foo\": 5}[\"bar\"]", Value::Null),
        ("let key = \"foo\"; {\"foo\": 5}[key]", Value::Int(5)),
        ("{}[\"foo\"]", Value::Null),
    ];
    for (input, expected) in test_cases {
        assert_eq!(run(input).unwrap(), expected, "Failed on `{input}`");
    }
}

#[test]
fn eval_if_else_expression() {
    let test_cases = [
        ("if (true) { 10 }", Value::Int(10)),
        ("if (false) { 10 }", Value::Null),
        ("if (1) { 10 }", Value::Int(10)),
        ("if (1 < 2) { 10 }", Value::Int(10)),
        ("if (1 > 2) { 10 }", Value::Null),
        ("if (1 > 2) { 10 } else { 20 }", Value::Int(20)),
        ("if (1 < 2) { 10 } else { 20 }", Value::Int(10)),
    ];
    for (input, value) in test_cases {
        assert_eq!(parse(input).statements.len(), 1);
        assert_eq!(run(input).unwrap(), value);
    }
}

#[test]
fn eval_return_expression() {
    let test_cases = [
        ("return 10;", 10),
        ("return 10; 9;", 10),
        ("return 2 * 5; 9;", 10),
        ("9; return 2 * 5; 9;", 10),
        ("if (10 > 1) { if (10 > 1) { return 10; }; return 1; }", 10),
    ];
    for (input, value) in test_cases {
        assert_eq!(run(input).unwrap(), Value::Int(value));
    }
}

#[test]
fn let_bindings() {
    let test_cases = [
        ("let a = 5; a;", 5),
        ("let a = 5 * 5; a;", 25),
        ("let a = 5; let b = a; b;", 5),
        ("let a = 5; let b = a; let c = a + b + 5; c;", 15),
    ];
    for (input, value) in test_cases {
        assert_eq!(run(input).unwrap(), Value::Int(value));
    }
}

#[test]
fn function_values() {
    let evaluated = run("fn(x) { x + 2; };").unwrap();
    let Value::Function { parameters, body, .. } = evaluated else {
        panic!("Value was not a function but `{evaluated:?}`");
    };
    assert_eq!(parameters, vec![String::from("x")]);
    assert_eq!(
        body,
        vec![Statement::Expression(Expression::Infix {
            operator: InfixOperator::Add,
            lhs: Box::new(Expression::Identifier(String::from("x"))),
            rhs: Box::new(Expression::Int(2)),
        })]
    );
}

#[test]
fn function_call_values() {
    let test_cases = [
        ("let identity = fn(x) { x; }; identity(5);", 5),
        ("let identity = fn(x) { return x; }; identity(5);", 5),
        ("let double = fn(x) { x * 2; }; double(5);", 10),
        ("let add = fn(x, y) { x + y; }; add(5, 5);", 10),
        ("let add = fn(x, y) { x + y; }; add(5 + 5, add(5, 5));", 20),
        ("fn(x) { x; }(5)", 5),
    ];
    for (input, expected) in test_cases {
        assert_eq!(run(input).unwrap(), Value::Int(expected), "Failed on `{input}`");
    }
}

#[test]
fn closures() {
    let input = "\n\t\tlet adder = fn(x) {\n\t\t  fn(y) { x + y };\n\t\t};\n\n\t\tlet add_two = adder(2);\n\t\tadd_two(2);\n\t";
    assert_eq!(run(input).unwrap(), Value::Int(4));
}

#[test]
fn scenarios_of_the_language() {
    assert_eq!(run("5 + 5 * 2").unwrap(), Value::Int(15));
    assert_eq!(run("if (1 < 2) { 10 } else { 20 }").unwrap(), Value::Int(10));
    assert_eq!(run("let a = 5; let b = a; let c = a + b + 5; c").unwrap(), Value::Int(15));
    assert_eq!(
        run("let adder = fn(x){ fn(y){ x + y } }; let addTwo = adder(2); addTwo(2)").unwrap(),
        Value::Int(4)
    );
    assert_eq!(run("let m = {\"one\": 1, \"two\": 2}; m[\"two\"]").unwrap(), Value::Int(2));
    assert_eq!(run_global("measure(\"abc\")").0.unwrap(), Value::Int(3));
    assert_eq!(run_global("first([1,2,3])").0.unwrap(), Value::Int(1));
    assert_eq!(run("[1,2,3][-1]").unwrap(), Value::Int(3));
    assert_eq!(run("\"hi\" * 3").unwrap(), string("hihihi"));
    let mut environment = Environment::new_global();
    match monkey::interpret("let print = 1", &mut environment) {
        Err(monkey::RunError::Parse(errors)) => {
            assert_eq!(errors[0], monkey::ParseError::BuiltinOverride(String::from("print")))
        },
        other => panic!("expected a parse error, got {other:?}"),
    }
    let rebind = Statement::let_(String::from("print"), Expression::Int(1));
    assert_eq!(rebind.eval(&mut environment, 0, 10), Err(EvalError::BuiltinOverride));
    assert_eq!(
        environment.get(0, &String::from("print")),
        Value::BuiltinFunction(monkey::Builtin::Print)
    );
}

#[test]
fn integer_literals_and_their_negation() {
    for n in [0i64, 1, 42, 9223372036854775807] {
        assert_eq!(run(&format!("{n}")).unwrap(), Value::Int(n));
        assert_eq!(run(&format!("-{n}")).unwrap(), Value::Int(-n));
    }
}

#[test]
fn double_negation_gives_truthiness() {
    assert_eq!(run("!!0").unwrap(), Value::Bool(false));
    assert_eq!(run("!!7").unwrap(), Value::Bool(true));
    assert_eq!(run("!!null").unwrap(), Value::Bool(false));
    assert_eq!(run("!!\"\"").unwrap(), Value::Bool(true));
    assert_eq!(run("!![]").unwrap(), Value::Bool(true));
    assert_eq!(run("!!fn(){}").unwrap(), Value::Bool(true));
}

#[test]
fn calling_a_function_substitutes_its_arguments() {
    assert_eq!(run("fn(a, b) { a * 10 + b }(4, 2)").unwrap(), run("4 * 10 + 2").unwrap());
    assert_eq!(run("fn(s) { s + \"!\" }(\"hey\")").unwrap(), string("hey!"));
}

#[test]
fn array_index_ranges() {
    let cases = [
        (0, Value::Int(10)),
        (2, Value::Int(30)),
        (3, Value::Null),
        (-1, Value::Int(30)),
        (-3, Value::Int(10)),
        (-4, Value::Null),
    ];
    for (i, expected) in cases {
        assert_eq!(run(&format!("[10, 20, 30][{i}]")).unwrap(), expected, "index {i}");
    }
    assert_eq!(run("[][-1]").unwrap(), Value::Null);
}

#[test]
fn arguments_are_evaluated_left_to_right() {
    let (result, output) = run_global(
        "let trace = fn(x) { print(x); x }; let f = fn(a, b) { a - b }; f(trace(1), trace(2))",
    );
    assert_eq!(result.unwrap(), Value::Int(-1));
    assert_eq!(output, vec![String::from("1"), String::from("2")]);
}

#[test]
fn print_joins_display_forms() {
    let (result, output) = run_global("print(1, \"a\", [true, null], fn(x) { x + 1; }, first)");
    assert_eq!(result.unwrap(), Value::Null);
    assert_eq!(output, vec![String::from("1, a, [true, null], fn(x) {\n  (x + 1)\n}, first")]);
    let (_, output) = run_global("print({\"k\": 2})");
    assert_eq!(output, vec![String::from("{\n  k => 2,\n}")]);
}

#[test]
fn measure_and_first() {
    assert_eq!(run_global("measure()").0.unwrap(), Value::Null);
    assert_eq!(run_global("measure(5)").0.unwrap(), Value::Null);
    assert_eq!(run_global("measure([1, 2], \"héllo\")").0.unwrap(), Value::Array(vec![Value::Int(2), Value::Int(6)]));
    assert_eq!(run_global("measure(\"a\", 1)").0.unwrap(), Value::Null);
    assert_eq!(run_global("first()").0.unwrap(), Value::Null);
    assert_eq!(run_global("first([])").0.unwrap(), Value::Null);
    assert_eq!(run_global("first(3)").0.unwrap(), Value::Null);
    assert_eq!(
        run_global("first([1, 2], [], [\"x\"])").0.unwrap(),
        Value::Array(vec![Value::Int(1), Value::Null, string("x")])
    );
    assert_eq!(run_global("first([1], 2)").0.unwrap(), Value::Null);
}

#[test]
fn string_operations() {
    assert_eq!(run("\"a\" + \"b\"").unwrap(), string("ab"));
    assert_eq!(run("\"abc\" < \"abd\"").unwrap(), Value::Bool(true));
    assert_eq!(run("\"b\" >= \"abc\"").unwrap(), Value::Bool(true));
    assert_eq!(run("\"ab\" <= \"a\"").unwrap(), Value::Bool(false));
    assert_eq!(run("\"x\" == \"x\"").unwrap(), Value::Bool(true));
    assert_eq!(run("\"x\" + 1").unwrap(), string("x1"));
    assert_eq!(run("1 + \"x\"").unwrap(), string("1x"));
    assert_eq!(run("\"12\" + 1").unwrap(), Value::Int(13));
    assert_eq!(run("10 - \"3\"").unwrap(), Value::Int(7));
    assert_eq!(run("\"ab\" * 0").unwrap(), string(""));
    assert_eq!(run("2 * \"ab\"").unwrap(), string("abab"));
    assert_eq!(run("\"ab\" * -1"), Err(EvalError::TypeMismatch));
    assert_eq!(run("\"a\" - \"b\""), Err(EvalError::TypeMismatch));
    assert_eq!(run("\"a\" < 1"), Err(EvalError::TypeMismatch));
}

#[test]
fn mixed_and_null_comparisons() {
    assert_eq!(run("1 == true").unwrap(), Value::Bool(true));
    assert_eq!(run("false != 0").unwrap(), Value::Bool(false));
    assert_eq!(run("null == null").unwrap(), Value::Bool(true));
    assert_eq!(run("null != null").unwrap(), Value::Bool(false));
    assert_eq!(run("null + null"), Err(EvalError::TypeMismatch));
    assert_eq!(run("true + true"), Err(EvalError::TypeMismatch));
    assert_eq!(run("1 < true"), Err(EvalError::TypeMismatch));
    assert_eq!(run("[1] + [2]"), Err(EvalError::TypeMismatch));
}

#[test]
fn integer_arithmetic_edges() {
    assert_eq!(run("7 % 3").unwrap(), Value::Int(1));
    assert_eq!(run("-7 / 2").unwrap(), Value::Int(-3));
    assert_eq!(run("-7 % 2").unwrap(), Value::Int(-1));
    assert_eq!(run("1 / 0"), Err(EvalError::Arithmetic));
    assert_eq!(run("9223372036854775807 + 1"), Err(EvalError::Arithmetic));
    assert_eq!(run("3 >= 3").unwrap(), Value::Bool(true));
    assert_eq!(run("3 <= 2").unwrap(), Value::Bool(false));
}

#[test]
fn evaluation_errors() {
    assert_eq!(run("fn(x) { x }(1, 2)"), Err(EvalError::WrongArity));
    assert_eq!(run("fn(x, y) { x }(1)"), Err(EvalError::WrongArity));
    assert_eq!(run("5(1)"), Err(EvalError::TypeMismatch));
    assert_eq!(run("if (\"s\") { 1 }"), Err(EvalError::TypeMismatch));
    assert_eq!(run("{1: 2}"), Err(EvalError::TypeMismatch));
    assert_eq!(run("[1][\"a\"]"), Err(EvalError::TypeMismatch));
    assert_eq!(run("-true"), Err(EvalError::TypeMismatch));
    let mut environment = Environment::default();
    let rebind = Statement::let_(String::from("first"), Expression::Int(2));
    assert_eq!(rebind.eval(&mut environment, 0, 10), Err(EvalError::BuiltinOverride));
    assert_eq!(run("let f = fn() { f() }; f()"), Err(EvalError::CallDepth));
}

#[test]
fn names_and_scopes() {
    assert_eq!(run("missing").unwrap(), Value::Null);
    assert_eq!(run("null").unwrap(), Value::Null);
    assert_eq!(run("let x = 1; let f = fn() { let x = 2; x }; f() + x").unwrap(), Value::Int(3));
    assert_eq!(run("let m = {\"a\": 1, \"a\": 2}; m[\"a\"]").unwrap(), Value::Int(2));
    // Arguments are evaluated in the scope of the callee, inside the scope it captured.
    assert_eq!(
        run("let x = 1; let g = fn(y) { y }; let h = fn() { let x = 5; g(x) }; h()").unwrap(),
        Value::Int(1)
    );
    assert_eq!(
        run("let count = fn(k) { if (k > 0) { count(k - 1) + 1 } else { 0 } }; count(3)"),
        Err(EvalError::TypeMismatch)
    );
}

#[test]
fn environment_operations() {
    let mut environment = Environment::new_global();
    assert_eq!(environment.get(0, &String::from("print")), Value::BuiltinFunction(monkey::Builtin::Print));
    let inner = environment.with_outer(0);
    assert_eq!(environment.set(inner, String::from("x"), Value::Int(1)), Value::Int(1));
    assert_eq!(environment.get(inner, &String::from("x")), Value::Int(1));
    assert_eq!(environment.get(0, &String::from("x")), Value::Null);
    environment.set(0, String::from("y"), Value::Int(2));
    assert_eq!(environment.get(inner, &String::from("y")), Value::Int(2));
    environment.set(inner, String::from("y"), Value::Int(3));
    assert_eq!(environment.get(inner, &String::from("y")), Value::Int(3));
    assert_eq!(environment.get(0, &String::from("y")), Value::Int(2));
}

#[test]
fn display_forms() {
    assert_eq!(Value::Null.to_string(), "null");
    assert_eq!(Value::Int(-12).to_string(), "-12");
    assert_eq!(Value::Bool(false).to_string(), "false");
    assert_eq!(string("raw").to_string(), "raw");
    assert_eq!(Value::Array(vec![Value::Int(1), string("b")]).to_string(), "[1, b]");
    assert_eq!(Value::Return(Box::new(Value::Int(4))).to_string(), "4");
    assert_eq!(Value::BuiltinFunction(monkey::Builtin::Measure).to_string(), "measure");
}

#[test]
fn interpreting_source_text() {
    let mut environment = Environment::new_global();
    assert_eq!(monkey::interpret("42", &mut environment), Ok(Value::Int(42)));
    assert_eq!(monkey::interpret("-42", &mut environment), Ok(Value::Int(-42)));
    assert_eq!(monkey::interpret("let a = 2;", &mut environment), Ok(Value::Int(2)));
    assert_eq!(monkey::interpret("a * 21", &mut environment), Ok(Value::Int(42)));
    assert_eq!(
        monkey::interpret("99999999999999999999", &mut environment),
        Err(monkey::RunError::Lex(monkey::LexError::IntegerOverflow(
            monkey::tokenizer::token::TokenSpan::new(1, 1)
        )))
    );
    assert_eq!(
        monkey::interpret("let = 1", &mut environment),
        Err(monkey::RunError::Parse(vec![
            monkey::ParseError::Unexpected(monkey::Token::Assign),
            monkey::ParseError::NoPrefix(monkey::Token::Assign),
        ]))
    );
    assert_eq!(
        monkey::interpret("1 / 0", &mut environment),
        Err(monkey::RunError::Eval(EvalError::Arithmetic))
    );
    assert_eq!(monkey::interpret("print(a)", &mut environment), Ok(Value::Null));
    assert_eq!(environment.take_output(), vec![String::from("2")]);
}

#[test]
fn nested_returns_and_blocks() {
    assert_eq!(run("if (10 > 1) { if (10 > 1) { return 10; }; return 1; }").unwrap(), Value::Int(10));
    assert_eq!(run("let f = fn() { 1; return 2; 3 }; f()").unwrap(), Value::Int(2));
    assert_eq!(run("1; 1 / 0; let x = 5; x"), Err(EvalError::Arithmetic));
    assert_eq!(run("-(fn() { return 3; })()").unwrap(), Value::Int(-3));
}
