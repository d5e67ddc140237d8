//! Laws of the language that follow from the contracts of the lexer and the
//! evaluator. They are stated over `pure_eval`, what a read-only expression
//! evaluates to, which `Expression::eval` is proved to meet.
use vstd::prelude::*;

use crate::ast::{Expression, PrefixOperator, Statement};
use crate::eval::environment::Scope;
use crate::eval::{
    bind, lemma_pure_list_no_return, null_name, pure_block, pure_eval, pure_eval_in, pure_hash, pure_list,
    pure_list_in,
};
use crate::eval::operators::{array_index_spec, bang_spec};
use crate::text::{all_digits, decimal, digit_char, digit_value, digits_of, digits_value, is_digit};
use crate::token::Token;
use crate::tokenizer::{digits_end, lexes, skip_spaces};
use crate::value::ValueModel;

verus! {

proof fn lemma_digits_of(n: nat)
    ensures
        digits_of(n).len() >= 1,
        all_digits(digits_of(n)),
        digits_value(digits_of(n)) == n,
    decreases n,
{
    let k = (n % 10) as int;
    assert(digit_value(digit_char(k)) == k);
    assert(is_digit(digit_char(k)));
    if n >= 10 {
        lemma_digits_of(n / 10);
        let d = digits_of(n / 10);
        assert(digits_of(n).drop_last() == d);
        assert(digits_value(digits_of(n)) == digits_value(d) * 10 + (n % 10));
        assert((n / 10) * 10 + n % 10 == n) by (nonlinear_arith);
        assert(digits_value(d) == n / 10);
    } else {
        assert(n % 10 == n);
        assert(digits_of(n).drop_last() == Seq::<char>::empty());
        assert(digits_of(n).last() == digit_char(k));
        assert(digits_value(digits_of(n)) == digits_value(Seq::<char>::empty()) * 10 + digit_value(
            digit_char(k),
        ));
    }
}

proof fn lemma_digits_end(s: Seq<char>, p: int)
    requires
        0 <= p <= s.len(),
        forall|i: int| p <= i < s.len() ==> is_digit(#[trigger] s[i]),
    ensures
        digits_end(s, p) == s.len(),
    decreases s.len() - p,
{
    if p < s.len() {
        lemma_digits_end(s, p + 1);
    }
}

proof fn lemma_lex_digits(s: Seq<char>, p: int, n: nat)
    requires
        0 <= p < s.len(),
        s.subrange(p, s.len() as int) == digits_of(n),
        n <= i64::MAX,
    ensures
        lexes(s, p, seq![Token::Int(n as i64)]),
{
    lemma_digits_of(n);
    let d = digits_of(n);
    assert forall|i: int| p <= i < s.len() implies is_digit(#[trigger] s[i]) by {
        assert(s[i] == d[i - p]);
    }
    lemma_digits_end(s, p);
    assert(is_digit(s[p]));
    assert(skip_spaces(s, p) == p);
    assert(skip_spaces(s, s.len() as int) == s.len());
    assert(crate::tokenizer::token_end(s, p) == s.len());
    assert(s.subrange(p, digits_end(s, p)) == d);
    assert(crate::tokenizer::token_at(s, p, Token::Int(n as i64)));
    assert(!crate::tokenizer::overflows_at(s, p));
    assert(lexes(s, s.len() as int, Seq::<Token>::empty()));
    assert(seq![Token::Int(n as i64)].drop_first() == Seq::<Token>::empty());
}

/// An integer literal in range reads as one integer token, and its negation as a
/// minus sign followed by that token.
pub proof fn law_integer_literal_lexes(n: i64)
    requires
        n >= 0,
    ensures
        lexes(decimal(n as int), 0, seq![Token::Int(n)]),
        lexes(seq!['-'] + decimal(n as int), 0, seq![Token::Minus, Token::Int(n)]),
{
    let d = decimal(n as int);
    lemma_digits_of(n as nat);
    assert(d.subrange(0, d.len() as int) == d);
    lemma_lex_digits(d, 0, n as nat);
    let s = seq!['-'] + d;
    assert(s.subrange(1, s.len() as int) == d);
    lemma_lex_digits(s, 1, n as nat);
    assert(skip_spaces(s, 0) == 0);
    let ts = seq![Token::Minus, Token::Int(n)];
    assert(ts.drop_first() == seq![Token::Int(n)]);
}

/// An integer literal evaluates to itself, and its negation to the negated integer.
pub proof fn law_integer_literal(n: i64, scopes: Seq<Scope>, scope: int)
    requires
        n >= 0,
    ensures
        pure_eval(Expression::Int(n), scopes, scope) == Some(Ok::<ValueModel, crate::EvalError>(ValueModel::Int(n))),
        pure_eval(
            Expression::Prefix { operator: PrefixOperator::Neg, rhs: Box::new(Expression::Int(n)) },
            scopes,
            scope,
        )
            == Some(Ok::<ValueModel, crate::EvalError>(ValueModel::Int((-n) as i64))),
{
}

/// `!!x` is the truthiness of `x`: false for `null`, `0` and `false`, true for every
/// other value; an error in `x` stays that error.
pub proof fn law_double_bang(x: Expression, scopes: Seq<Scope>, scope: int)
    ensures
        pure_eval(
            Expression::Prefix {
                operator: PrefixOperator::Not,
                rhs: Box::new(Expression::Prefix { operator: PrefixOperator::Not, rhs: Box::new(x) }),
            },
            scopes,
            scope,
        ) == match pure_eval(x, scopes, scope) {
            Some(Ok(m)) => Some(Ok::<ValueModel, crate::EvalError>(ValueModel::Bool(!bang_spec(m)))),
            other => other,
        },
{
    let inner = Expression::Prefix { operator: PrefixOperator::Not, rhs: Box::new(x) };
    assert(pure_eval(inner, scopes, scope) == match pure_eval(x, scopes, scope) {
        Some(Ok(m)) => Some(Ok::<ValueModel, crate::EvalError>(ValueModel::Bool(bang_spec(m)))),
        other => other,
    });
}

/// Indexing an array literal with an integer `i` gives element `i` when
/// `0 <= i < n`, element `i + n` when `-n <= i < 0`, and `null` otherwise.
pub proof fn law_array_index(
    items: Vec<Expression>,
    idx: Expression,
    ms: Seq<ValueModel>,
    i: i64,
    scopes: Seq<Scope>,
    scope: int,
)
    requires
        pure_list(items@, scopes, scope) == Some(Ok::<Seq<ValueModel>, crate::EvalError>(ms)),
        pure_eval(idx, scopes, scope) == Some(Ok::<ValueModel, crate::EvalError>(ValueModel::Int(i))),
    ensures
        pure_eval(
            Expression::Index { lhs: Box::new(Expression::Array(items)), idx: Box::new(idx) },
            scopes,
            scope,
        ) == Some(Ok::<ValueModel, crate::EvalError>(array_index_spec(ms, i))),
        0 <= i < ms.len() ==> array_index_spec(ms, i) == ms[i as int],
        -ms.len() <= i < 0 ==> array_index_spec(ms, i) == ms[i + ms.len()],
        (i >= ms.len() || i < -ms.len()) ==> array_index_spec(ms, i) == ValueModel::Null,
{
    let array = Expression::Array(items);
    assert(pure_eval(array, scopes, scope) == Some(Ok::<ValueModel, crate::EvalError>(ValueModel::Array(ms))));
}

/// Where `name` last stands among `names`.
pub open spec fn last_index(names: Seq<String>, name: Seq<char>) -> Option<int>
    decreases names.len(),
{
    if names.len() == 0 {
        None
    } else if names.last()@ == name {
        Some(names.len() - 1)
    } else {
        last_index(names.drop_last(), name)
    }
}

/// `b2` is `b` with each name of `xs` replaced by the argument expression at the
/// same place (the last place, for a name given twice). `null` is never replaced.
pub open spec fn substituted(b: Expression, xs: Seq<String>, args: Seq<Expression>, b2: Expression) -> bool
    decreases b,
{
    match b {
        Expression::Identifier(name) => if name@ != null_name() && last_index(xs, name@) is Some {
            b2 == args[last_index(xs, name@)->Some_0]
        } else {
            b2 == b
        },
        Expression::Array(items) => b2 is Array && substituted_list(items@, xs, args, b2->Array_0@),
        Expression::Hash(pairs) => b2 is Hash && substituted_pairs(pairs@, xs, args, b2->Hash_0@),
        Expression::Prefix { operator, rhs } => b2 is Prefix && b2->Prefix_operator == operator
            && substituted(*rhs, xs, args, *b2->Prefix_rhs),
        Expression::Infix { operator, lhs, rhs } => b2 is Infix && b2->Infix_operator == operator
            && substituted(*lhs, xs, args, *b2->Infix_lhs) && substituted(*rhs, xs, args, *b2->Infix_rhs),
        Expression::Index { lhs, idx } => b2 is Index && substituted(*lhs, xs, args, *b2->Index_lhs)
            && substituted(*idx, xs, args, *b2->idx),
        Expression::Condition { condition, consequence, alternative } => {
            &&& b2 is Condition
            &&& substituted(*condition, xs, args, *b2->condition)
            &&& substituted_block(consequence@, xs, args, b2->consequence@)
            &&& match alternative {
                Some(alt) => b2->alternative is Some && substituted_block(
                    alt@,
                    xs,
                    args,
                    b2->alternative->Some_0@,
                ),
                None => b2->alternative is None,
            }
        },
        _ => b2 == b,
    }
}

/// `substituted` for the one expression statement of a block.
pub open spec fn substituted_block(
    ss: Seq<Statement>,
    xs: Seq<String>,
    args: Seq<Expression>,
    ss2: Seq<Statement>,
) -> bool
    decreases ss,
{
    &&& ss2.len() == ss.len()
    &&& ss.len() == 1 ==> match ss[0] {
        Statement::Expression(e) => ss2[0] is Expression && substituted(
            e,
            xs,
            args,
            ss2[0]->Expression_0,
        ),
        _ => !(ss2[0] is Expression),
    }
}

/// `substituted`, for keys and values of map entries one by one.
pub open spec fn substituted_pairs(
    ps: Seq<(Expression, Expression)>,
    xs: Seq<String>,
    args: Seq<Expression>,
    ps2: Seq<(Expression, Expression)>,
) -> bool
    decreases ps,
{
    if ps.len() == 0 {
        ps2.len() == 0
    } else {
        ps2.len() == ps.len() && substituted_pairs(ps.drop_last(), xs, args, ps2.drop_last())
            && substituted(ps.last().0, xs, args, ps2.last().0) && substituted(
            ps.last().1,
            xs,
            args,
            ps2.last().1,
        )
    }
}

/// `substituted`, element by element.
pub open spec fn substituted_list(
    bs: Seq<Expression>,
    xs: Seq<String>,
    args: Seq<Expression>,
    bs2: Seq<Expression>,
) -> bool
    decreases bs,
{
    if bs.len() == 0 {
        bs2.len() == 0
    } else {
        bs2.len() == bs.len() && substituted_list(bs.drop_last(), xs, args, bs2.drop_last())
            && substituted(bs.last(), xs, args, bs2.last())
    }
}

proof fn lemma_bind(xs: Seq<String>, vs: Seq<ValueModel>, name: Seq<char>)
    requires
        xs.len() == vs.len(),
    ensures
        bind(xs, vs).contains_key(name) <==> last_index(xs, name) is Some,
        last_index(xs, name) matches Some(i) ==> 0 <= i < xs.len() && bind(xs, vs)[name] == vs[i],
    decreases xs.len(),
{
    if xs.len() > 0 {
        lemma_bind(xs.drop_last(), vs.drop_last(), name);
    }
}

proof fn lemma_pure_list_items(
    args: Seq<Expression>,
    vs: Seq<ValueModel>,
    scopes: Seq<Scope>,
    scope: int,
)
    requires
        pure_list(args, scopes, scope) == Some(Ok::<Seq<ValueModel>, crate::EvalError>(vs)),
    ensures
        vs.len() == args.len(),
        forall|i: int|
            0 <= i < args.len() ==> #[trigger] pure_eval(args[i], scopes, scope) == Some(
                Ok::<ValueModel, crate::EvalError>(vs[i]),
            ),
    decreases args.len(),
{
    if args.len() > 0 {
        let ms = vs.drop_last();
        let prev = pure_list(args.drop_last(), scopes, scope);
        let last = pure_eval(args.last(), scopes, scope);
        assert(prev is Some && prev->Some_0 is Ok);
        assert(last is Some && last->Some_0 is Ok);
        assert(vs == prev->Some_0->Ok_0.push(last->Some_0->Ok_0));
        assert(prev->Some_0->Ok_0 == ms);
        lemma_pure_list_items(args.drop_last(), ms, scopes, scope);
        assert forall|i: int| 0 <= i < args.len() implies #[trigger] pure_eval(args[i], scopes, scope)
            == Some(Ok::<ValueModel, crate::EvalError>(vs[i])) by {
            if i < args.len() - 1 {
                assert(args[i] == args.drop_last()[i]);
                assert(vs[i] == ms[i]);
            }
        }
    }
}

proof fn lemma_substitution(
    b: Expression,
    xs: Seq<String>,
    args: Seq<Expression>,
    vs: Seq<ValueModel>,
    b2: Expression,
    scopes: Seq<Scope>,
    scope: int,
)
    requires
        pure_list(args, scopes, scope) == Some(Ok::<Seq<ValueModel>, crate::EvalError>(vs)),
        vs.len() == xs.len(),
        substituted(b, xs, args, b2),
    ensures
        pure_eval_in(b, bind(xs, vs), scopes, scope) == pure_eval(b2, scopes, scope),
    decreases b,
{
    lemma_pure_list_items(args, vs, scopes, scope);
    match b {
        Expression::Identifier(name) => {
            lemma_bind(xs, vs, name@);
            if name@ != null_name() {
                if let Some(i) = last_index(xs, name@) {
                    lemma_pure_list_no_return(args, Map::empty(), scopes, scope);
                    assert(pure_list_in(args, Map::empty(), scopes, scope) == Some(
                        Ok::<Seq<ValueModel>, crate::EvalError>(vs),
                    ));
                    assert(0 <= i < vs.len());
                    let ms = pure_list_in(args, Map::empty(), scopes, scope)->Some_0->Ok_0;
                    assert(ms == vs);
                    assert(crate::eval::no_return(ms[i]));
                    assert(pure_eval(args[i], scopes, scope) == Some(
                        Ok::<ValueModel, crate::EvalError>(vs[i]),
                    ));
                    assert(crate::eval::no_return(vs[i]));
                    assert(b2 == args[i]);
                    assert(crate::eval::resolve(bind(xs, vs), scopes, scope, name@) == vs[i]);
                } else {
                    assert(b2 == b);
                    assert(!bind(xs, vs).contains_key(name@));
                    assert(crate::eval::resolve(bind(xs, vs), scopes, scope, name@)
                        == crate::eval::resolve(Map::empty(), scopes, scope, name@));
                }
            } else {
                assert(b2 == b);
            }
        },
        Expression::Array(items) => {
            lemma_substitution_list(items@, xs, args, vs, b2->Array_0@, scopes, scope);
        },
        Expression::Hash(pairs) => {
            lemma_substitution_pairs(pairs@, xs, args, vs, b2->Hash_0@, scopes, scope);
        },
        Expression::Prefix { operator, rhs } => {
            lemma_substitution(*rhs, xs, args, vs, *b2->Prefix_rhs, scopes, scope);
        },
        Expression::Infix { operator, lhs, rhs } => {
            lemma_substitution(*lhs, xs, args, vs, *b2->Infix_lhs, scopes, scope);
            lemma_substitution(*rhs, xs, args, vs, *b2->Infix_rhs, scopes, scope);
        },
        Expression::Index { lhs, idx } => {
            lemma_substitution(*lhs, xs, args, vs, *b2->Index_lhs, scopes, scope);
            lemma_substitution(*idx, xs, args, vs, *b2->idx, scopes, scope);
        },
        Expression::Condition { condition, consequence, alternative } => {
            lemma_substitution(*condition, xs, args, vs, *b2->condition, scopes, scope);
            lemma_substitution_block(consequence@, xs, args, vs, b2->consequence@, scopes, scope);
            if let Some(alt) = alternative {
                lemma_substitution_block(
                    alt@,
                    xs,
                    args,
                    vs,
                    b2->alternative->Some_0@,
                    scopes,
                    scope,
                );
            }
        },
        _ => {},
    }
}

proof fn lemma_substitution_block(
    ss: Seq<Statement>,
    xs: Seq<String>,
    args: Seq<Expression>,
    vs: Seq<ValueModel>,
    ss2: Seq<Statement>,
    scopes: Seq<Scope>,
    scope: int,
)
    requires
        pure_list(args, scopes, scope) == Some(Ok::<Seq<ValueModel>, crate::EvalError>(vs)),
        vs.len() == xs.len(),
        substituted_block(ss, xs, args, ss2),
    ensures
        pure_block(ss, bind(xs, vs), scopes, scope) == pure_block(ss2, Map::empty(), scopes, scope),
    decreases ss,
{
    if ss.len() == 1 {
        if let Statement::Expression(e) = ss[0] {
            lemma_substitution(e, xs, args, vs, ss2[0]->Expression_0, scopes, scope);
        }
    }
}

proof fn lemma_substitution_pairs(
    ps: Seq<(Expression, Expression)>,
    xs: Seq<String>,
    args: Seq<Expression>,
    vs: Seq<ValueModel>,
    ps2: Seq<(Expression, Expression)>,
    scopes: Seq<Scope>,
    scope: int,
)
    requires
        pure_list(args, scopes, scope) == Some(Ok::<Seq<ValueModel>, crate::EvalError>(vs)),
        vs.len() == xs.len(),
        substituted_pairs(ps, xs, args, ps2),
    ensures
        pure_hash(ps, bind(xs, vs), scopes, scope) == pure_hash(ps2, Map::empty(), scopes, scope),
    decreases ps,
{
    if ps.len() > 0 {
        lemma_substitution_pairs(ps.drop_last(), xs, args, vs, ps2.drop_last(), scopes, scope);
        lemma_substitution(ps.last().0, xs, args, vs, ps2.last().0, scopes, scope);
        lemma_substitution(ps.last().1, xs, args, vs, ps2.last().1, scopes, scope);
    }
}

proof fn lemma_substitution_list(
    bs: Seq<Expression>,
    xs: Seq<String>,
    args: Seq<Expression>,
    vs: Seq<ValueModel>,
    bs2: Seq<Expression>,
    scopes: Seq<Scope>,
    scope: int,
)
    requires
        pure_list(args, scopes, scope) == Some(Ok::<Seq<ValueModel>, crate::EvalError>(vs)),
        vs.len() == xs.len(),
        substituted_list(bs, xs, args, bs2),
    ensures
        pure_list_in(bs, bind(xs, vs), scopes, scope) == pure_list(bs2, scopes, scope),
    decreases bs,
{
    if bs.len() > 0 {
        lemma_substitution_list(bs.drop_last(), xs, args, vs, bs2.drop_last(), scopes, scope);
        lemma_substitution(bs.last(), xs, args, vs, bs2.last(), scopes, scope);
    }
}

/// Calling a function literal on arguments that evaluate to values evaluates its
/// body with each parameter replaced by its argument: for a body `b` and `b2` that
/// is `b` with the parameters `xs` replaced by the arguments `args`, what the body
/// gives with the parameters bound to the arguments' values is what `b2` gives.
/// The evaluator's contract for calls of function literals gives the left side.
pub proof fn law_call_substitutes(
    xs: Seq<String>,
    args: Seq<Expression>,
    vs: Seq<ValueModel>,
    b: Expression,
    b2: Expression,
    scopes: Seq<Scope>,
    scope: int,
)
    requires
        pure_list(args, scopes, scope) == Some(Ok::<Seq<ValueModel>, crate::EvalError>(vs)),
        vs.len() == xs.len(),
        substituted(b, xs, args, b2),
    ensures
        pure_eval_in(b, bind(xs, vs), scopes, scope) == pure_eval(b2, scopes, scope),
{
    lemma_substitution(b, xs, args, vs, b2, scopes, scope);
}

} // verus!
