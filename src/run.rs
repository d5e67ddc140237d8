//! The whole pipeline: source text to tokens, to a program, to a value.
use vstd::prelude::*;

use crate::ast::{Expression, Statement};
use crate::eval::{grows, pure_eval, Environment, EvalError};
use crate::laws::law_integer_literal_lexes;
use crate::parser::{literal_program, ParseError, Parser};
use crate::text::decimal;
use crate::token::Token;
use crate::tokenizer::{
    is_ident_char, lex_fails, lexes, skip_spaces, token_at, token_end, LexError,
    Tokenizer,
};
use crate::value::{Value, ValueModel};

verus! {

/// Why running a piece of source text failed.
#[derive(Debug, PartialEq, Eq)]
pub enum RunError {
    /// The source holds an integer literal that does not fit in 64 bits.
    Lex(LexError),
    /// Statements that could not be parsed; nothing was evaluated.
    Parse(Vec<ParseError>),
    /// Evaluation stopped.
    Eval(EvalError),
}

/// Reading a source that lexes to some tokens meets no integer that is too large.
proof fn lemma_lexes_not_fails(s: Seq<char>, p: int, ts: Seq<Token>)
    requires
        lexes(s, p, ts),
    ensures
        !lex_fails(s, p),
    decreases s.len() - p,
{
    let q = skip_spaces(s, p);
    if !(q < p || q >= s.len()) && ts.len() > 0 && q < token_end(s, q) <= s.len() {
        lemma_lexes_not_fails(s, token_end(s, q), ts.drop_first());
    }
}

/// A source reads as at most one sequence of integer and minus tokens.
proof fn lemma_lexes_unique(s: Seq<char>, p: int, ts: Seq<Token>, us: Seq<Token>)
    requires
        lexes(s, p, ts),
        lexes(s, p, us),
        forall|i: int| 0 <= i < us.len() ==> (#[trigger] us[i] is Int || us[i] is Minus),
    ensures
        ts == us,
    decreases s.len() - p,
{
    let q = skip_spaces(s, p);
    if q < p || q >= s.len() {
        assert(ts.len() == 0 && us.len() == 0);
        assert(ts == us);
    } else {
        let u = us[0];
        assert(u is Int || u is Minus);
        if is_ident_char(s[q]) {
            assert(token_at(s, q, u));
            assert(false);
        }
        assert(ts[0] == us[0]);
        let rest_u = us.drop_first();
        assert forall|i: int| 0 <= i < rest_u.len() implies (#[trigger] rest_u[i] is Int
            || rest_u[i] is Minus) by {
            assert(rest_u[i] == us[i + 1]);
        }
        lemma_lexes_unique(s, token_end(s, q), ts.drop_first(), rest_u);
        assert(ts == seq![ts[0]] + ts.drop_first());
        assert(us == seq![us[0]] + us.drop_first());
    }
}

/// Runs `source` in the outermost scope of `env`: reads its tokens, parses it, and
/// evaluates it if every statement parsed. An integer literal in range gives that
/// integer, and a negated one its negation.
pub fn interpret(source: &str, env: &mut Environment) -> (r: Result<Value, RunError>)
    requires
        old(env).wf(),
        source@.len() < usize::MAX,
    ensures
        grows(*old(env), *final(env)),
        (r matches Err(RunError::Lex(_))) <==> lex_fails(source@, 0),
        (r matches Err(RunError::Lex(_))) || (r matches Err(RunError::Parse(_))) ==> *final(env)
            == *old(env),
        forall|n: i64|
            n >= 0 && source@ == #[trigger] decimal(n as int) ==> r == Ok::<Value, RunError>(
                Value::Int(n),
            ),
        forall|n: i64|
            n >= 0 && source@ == seq!['-'] + #[trigger] decimal(n as int) ==> r == Ok::<
                Value,
                RunError,
            >(Value::Int((-n) as i64)),
{
    let ghost s = source@;
    let tokenizer = Tokenizer::new(source);
    proof {
        crate::eval::lemma_grows_refl(*env);
    }
    let mut parser = match Parser::new(tokenizer) {
        Ok(parser) => parser,
        Err(e) => {
            proof {
                assert forall|n: i64| n >= 0 && s == decimal(n as int) implies false by {
                    law_integer_literal_lexes(n);
                    lemma_lexes_not_fails(s, 0, seq![Token::Int(n)]);
                }
                assert forall|n: i64| n >= 0 && s == seq!['-'] + decimal(n as int) implies false by {
                    law_integer_literal_lexes(n);
                    lemma_lexes_not_fails(s, 0, seq![Token::Minus, Token::Int(n)]);
                }
            }
            return Err(RunError::Lex(e));
        },
    };
    let ghost tokens = parser.tokens();
    proof {
        assert forall|n: i64| n >= 0 && s == decimal(n as int) implies literal_program(tokens)
            == Some(Expression::Int(n)) by {
            law_integer_literal_lexes(n);
            let us = seq![Token::Int(n)];
            lemma_lexes_unique(s, 0, tokens.drop_last(), us);
            assert(tokens == tokens.drop_last().push(tokens.last()));
        }
        assert forall|n: i64| n >= 0 && s == seq!['-'] + decimal(n as int) implies literal_program(
            tokens,
        ) == Some(
            Expression::Prefix {
                operator: crate::ast::PrefixOperator::Neg,
                rhs: Box::new(Expression::Int(n)),
            },
        ) by {
            law_integer_literal_lexes(n);
            let us = seq![Token::Minus, Token::Int(n)];
            assert forall|i: int| 0 <= i < us.len() implies (#[trigger] us[i] is Int || us[i] is Minus) by {}
            lemma_lexes_unique(s, 0, tokens.drop_last(), us);
            assert(tokens == tokens.drop_last().push(tokens.last()));
        }
    }
    let program = parser.parse_program();
    if parser.error_count() > 0 {
        return Err(RunError::Parse(parser.take_errors()));
    }
    let ghost scopes = env.scopes();
    match program.eval(env) {
        Ok(v) => {
            proof {
                assert forall|n: i64| n >= 0 && s == decimal(n as int) implies v == Value::Int(n) by {
                    assert(program.statements@[0] == Statement::Expression(Expression::Int(n)));
                    assert(pure_eval(Expression::Int(n), scopes, 0) == Some(
                        Ok::<ValueModel, EvalError>(ValueModel::Int(n)),
                    ));
                }
                assert forall|n: i64| n >= 0 && s == seq!['-'] + decimal(n as int) implies v
                    == Value::Int((-n) as i64) by {
                    let e = Expression::Prefix {
                        operator: crate::ast::PrefixOperator::Neg,
                        rhs: Box::new(Expression::Int(n)),
                    };
                    assert(program.statements@[0] == Statement::Expression(e));
                    crate::laws::law_integer_literal(n, scopes, 0);
                    assert(pure_eval(e, scopes, 0) == Some(
                        Ok::<ValueModel, EvalError>(ValueModel::Int((-n) as i64)),
                    ));
                }
            }
            Ok(v)
        },
        Err(e) => {
            proof {
                assert forall|n: i64| n >= 0 && s == seq!['-'] + decimal(n as int) implies false by {
                    let e = Expression::Prefix {
                        operator: crate::ast::PrefixOperator::Neg,
                        rhs: Box::new(Expression::Int(n)),
                    };
                    assert(program.statements@[0] == Statement::Expression(e));
                    crate::laws::law_integer_literal(n, scopes, 0);
                }
                assert forall|n: i64| n >= 0 && s == decimal(n as int) implies false by {
                    assert(program.statements@[0] == Statement::Expression(Expression::Int(n)));
                }
            }
            Err(RunError::Eval(e))
        },
    }
}

} // verus!
