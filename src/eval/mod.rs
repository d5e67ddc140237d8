//! The evaluator: walks the syntax tree in an environment of scopes.
use vstd::prelude::*;

pub mod builtins;
pub mod environment;
pub mod operators;
pub mod semantics;

pub use environment::Environment;

use semantics::{
    binds_rel, block_rel, call_rel, eval_rel, hash_rel, list_rel, step, stmt_rel, unwrapped,
};

use crate::ast::{duplicate_names, Expression, Program, Statement};
use crate::text::chars_of;
use crate::value::{entry_models, lemma_models, model, models, names_model, Value, ValueModel};
use builtins::{builtin_model, builtin_named, is_builtin_name};
use environment::{lookup, lookup_model, Scope};
use operators::{
    array_index_spec, eval_array, eval_hash, eval_infix, eval_prefix, infix_spec, meets,
    position_of, prefix_spec,
};

verus! {

/// Why evaluation stopped.
#[derive(Debug, Clone, Copy, PartialEq, Eq, Structural)]
pub enum EvalError {
    /// An operator, a condition, an index or a call met values of the wrong kind.
    TypeMismatch,
    /// A function was called with too few or too many arguments.
    WrongArity,
    /// A `let` tried to bind the name of a built-in function.
    BuiltinOverride,
    /// Integer overflow, or division by zero.
    Arithmetic,
    /// Calls nested deeper than the interpreter allows.
    CallDepth,
}

/// How deeply calls of user functions may nest.
pub const MAX_CALL_DEPTH: usize = 1000;

pub open spec fn null_name() -> Seq<char> {
    seq!['n', 'u', 'l', 'l']
}

/// Whether an identifier is the literal `null`.
fn is_null_name(name: &String) -> (r: bool)
    ensures
        r == (name@ == null_name()),
{
    let cs = chars_of(name.as_str());
    let r = cs.len() == 4 && cs[0] == 'n' && cs[1] == 'u' && cs[2] == 'l' && cs[3] == 'l';
    proof {
        if cs@.len() == 4 {
            if r {
                assert(cs@ == null_name());
            } else {
                assert(cs@ != null_name());
            }
        }
    }
    r
}

/// What evaluation keeps of the environment: it stays well formed, no scope is
/// removed (bindings inside scopes may change), and printed lines are only appended.
pub open spec fn grows(before: Environment, after: Environment) -> bool {
    &&& after.wf()
    &&& after.scopes().len() >= before.scopes().len()
    &&& after.output().len() >= before.output().len()
    &&& after.output().take(before.output().len() as int) == before.output()
}

pub proof fn lemma_grows_trans(a: Environment, b: Environment, c: Environment)
    requires
        grows(a, b),
        grows(b, c),
    ensures
        grows(a, c),
{
    assert(c.output().take(a.output().len() as int) == c.output().take(
        b.output().len() as int,
    ).take(a.output().len() as int));
}

pub proof fn lemma_grows_refl(a: Environment)
    requires
        a.wf(),
    ensures
        grows(a, a),
{
    assert(a.output().take(a.output().len() as int) == a.output());
}

pub proof fn lemma_grows_step(a: Environment, b: Environment, c: Environment)
    requires
        grows(a, b),
        c.wf(),
        c.scopes().len() >= b.scopes().len(),
        c.output() == b.output(),
    ensures
        grows(a, c),
{
}

/// How a name reads: as `bound` binds it, or else from scope `scope` outward.
pub open spec fn resolve(
    bound: Map<Seq<char>, ValueModel>,
    scopes: Seq<Scope>,
    scope: int,
    name: Seq<char>,
) -> ValueModel {
    if bound.contains_key(name) {
        bound[name]
    } else {
        lookup_model(scopes, scope, name)
    }
}

/// What an expression evaluates to when it only reads: built from literals, names,
/// arrays, map literals, operators, indexing, and conditions whose chosen branch is
/// empty or one such expression. It leaves the environment as it is, and each name
/// reads as `resolve` gives it. `None` for an expression that calls functions or
/// builds closures, for other blocks, and for one that reads a `return` wrapper.
pub open spec fn pure_eval_in(
    e: Expression,
    bound: Map<Seq<char>, ValueModel>,
    scopes: Seq<Scope>,
    scope: int,
) -> Option<Result<ValueModel, EvalError>>
    decreases e,
{
    match e {
        Expression::Int(n) => Some(Ok(ValueModel::Int(n))),
        Expression::Bool(b) => Some(Ok(ValueModel::Bool(b))),
        Expression::String(s) => Some(Ok(ValueModel::Str(s@))),
        Expression::Identifier(name) => if name@ == null_name() {
            Some(Ok(ValueModel::Null))
        } else if no_return(resolve(bound, scopes, scope, name@)) {
            Some(Ok(resolve(bound, scopes, scope, name@)))
        } else {
            None
        },
        Expression::Array(items) => match pure_list_in(items@, bound, scopes, scope) {
            Some(Ok(ms)) => Some(Ok(ValueModel::Array(ms))),
            Some(Err(err)) => Some(Err(err)),
            None => None,
        },
        Expression::Hash(pairs) => match pure_hash(pairs@, bound, scopes, scope) {
            Some(Ok(es)) => Some(Ok(ValueModel::Hash(es))),
            Some(Err(err)) => Some(Err(err)),
            None => None,
        },
        Expression::Prefix { operator, rhs } => match pure_eval_in(*rhs, bound, scopes, scope) {
            Some(Ok(m)) => Some(prefix_spec(operator, m)),
            other => other,
        },
        Expression::Infix { operator, lhs, rhs } => match pure_eval_in(*lhs, bound, scopes, scope) {
            Some(Ok(a)) => match pure_eval_in(*rhs, bound, scopes, scope) {
                Some(Ok(b)) => Some(infix_spec(operator, a, b)),
                other => other,
            },
            other => other,
        },
        Expression::Index { lhs, idx } => match pure_eval_in(*lhs, bound, scopes, scope) {
            Some(Ok(a)) => match pure_eval_in(*idx, bound, scopes, scope) {
                Some(Ok(b)) => match (a, b) {
                    (ValueModel::Array(ms), ValueModel::Int(i)) => Some(
                        Ok(array_index_spec(ms, i)),
                    ),
                    (ValueModel::Hash(es), ValueModel::Str(k)) => Some(Ok(hash_get(es, k))),
                    _ => Some(Err(EvalError::TypeMismatch)),
                },
                other => other,
            },
            other => other,
        },
        Expression::Condition { condition, consequence, alternative } => match pure_eval_in(
            *condition,
            bound,
            scopes,
            scope,
        ) {
            Some(Ok(c)) => match truthy(c) {
                Some(true) => pure_block(consequence@, bound, scopes, scope),
                Some(false) => match alternative {
                    Some(alt) => pure_block(alt@, bound, scopes, scope),
                    None => Some(Ok(ValueModel::Null)),
                },
                None => Some(Err(EvalError::TypeMismatch)),
            },
            other => other,
        },
        _ => None,
    }
}

/// What the entries of a map literal evaluate to, in order: each key must be a
/// string, and a later entry replaces an earlier one with the same key.
pub open spec fn pure_hash(
    ps: Seq<(Expression, Expression)>,
    bound: Map<Seq<char>, ValueModel>,
    scopes: Seq<Scope>,
    scope: int,
) -> Option<Result<Seq<(Seq<char>, ValueModel)>, EvalError>>
    decreases ps,
{
    if ps.len() == 0 {
        Some(Ok(seq![]))
    } else {
        match pure_hash(ps.drop_last(), bound, scopes, scope) {
            Some(Ok(es)) => match pure_eval_in(ps.last().0, bound, scopes, scope) {
                Some(Ok(ValueModel::Str(k))) => match pure_eval_in(ps.last().1, bound, scopes, scope) {
                    Some(Ok(v)) => Some(Ok(hash_insert(es, k, v))),
                    Some(Err(err)) => Some(Err(err)),
                    None => None,
                },
                Some(Ok(_)) => Some(Err(EvalError::TypeMismatch)),
                Some(Err(err)) => Some(Err(err)),
                None => None,
            },
            other => other,
        }
    }
}

/// What a block evaluates to when it is empty, or one read-only expression.
pub open spec fn pure_block(
    ss: Seq<Statement>,
    bound: Map<Seq<char>, ValueModel>,
    scopes: Seq<Scope>,
    scope: int,
) -> Option<Result<ValueModel, EvalError>>
    decreases ss,
{
    if ss.len() == 0 {
        Some(Ok(ValueModel::Null))
    } else if ss.len() == 1 {
        match ss[0] {
            Statement::Expression(e) => pure_eval_in(e, bound, scopes, scope),
            _ => None,
        }
    } else {
        None
    }
}

/// `pure_eval_in` with no names bound apart from the scopes.
pub open spec fn pure_eval(e: Expression, scopes: Seq<Scope>, scope: int) -> Option<
    Result<ValueModel, EvalError>,
> {
    pure_eval_in(e, Map::empty(), scopes, scope)
}

/// `pure_list_in` with no names bound apart from the scopes.
pub open spec fn pure_list(es: Seq<Expression>, scopes: Seq<Scope>, scope: int) -> Option<
    Result<Seq<ValueModel>, EvalError>,
> {
    pure_list_in(es, Map::empty(), scopes, scope)
}

/// What such expressions evaluate to, left to right: all their values, or the
/// first error.
pub open spec fn pure_list_in(
    es: Seq<Expression>,
    bound: Map<Seq<char>, ValueModel>,
    scopes: Seq<Scope>,
    scope: int,
) -> Option<Result<Seq<ValueModel>, EvalError>>
    decreases es,
{
    if es.len() == 0 {
        Some(Ok(seq![]))
    } else {
        match pure_list_in(es.drop_last(), bound, scopes, scope) {
            Some(Ok(ms)) => match pure_eval_in(es.last(), bound, scopes, scope) {
                Some(Ok(m)) => Some(Ok(ms.push(m))),
                Some(Err(err)) => Some(Err(err)),
                None => None,
            },
            other => other,
        }
    }
}

/// The names bound to values, a later name replacing an earlier equal one.
pub open spec fn bind(names: Seq<String>, values: Seq<ValueModel>) -> Map<Seq<char>, ValueModel>
    decreases names.len(),
{
    if names.len() == 0 || values.len() == 0 {
        Map::empty()
    } else {
        bind(names.drop_last(), values.drop_last()).insert(names.last()@, values.last())
    }
}

/// Two expressions that read alike: in every context they evaluate the same way.
pub open spec fn reads_alike(a: Expression, b: Expression) -> bool {
    forall|bound: Map<Seq<char>, ValueModel>, scopes: Seq<Scope>, scope: int|
        #[trigger] pure_eval_in(a, bound, scopes, scope) == pure_eval_in(b, bound, scopes, scope)
}

/// Two statements that read alike: `b` is an expression statement reading like `a`
/// when `a` is one.
pub open spec fn stmt_reads_alike(a: Statement, b: Statement) -> bool {
    match a {
        Statement::Expression(x) => b is Expression && reads_alike(x, b->Expression_0),
        _ => !(b is Expression),
    }
}

/// Evaluation only depends on how names read.
pub proof fn lemma_same_reading(
    e: Expression,
    b1: Map<Seq<char>, ValueModel>,
    sc1: Seq<Scope>,
    sp1: int,
    b2: Map<Seq<char>, ValueModel>,
    sc2: Seq<Scope>,
    sp2: int,
)
    requires
        forall|n: Seq<char>| #[trigger] resolve(b1, sc1, sp1, n) == resolve(b2, sc2, sp2, n),
    ensures
        pure_eval_in(e, b1, sc1, sp1) == pure_eval_in(e, b2, sc2, sp2),
    decreases e,
{
    match e {
        Expression::Identifier(name) => {
            assert(resolve(b1, sc1, sp1, name@) == resolve(b2, sc2, sp2, name@));
        },
        Expression::Array(items) => {
            lemma_same_reading_list(items@, b1, sc1, sp1, b2, sc2, sp2);
        },
        Expression::Hash(pairs) => {
            lemma_same_reading_hash(pairs@, b1, sc1, sp1, b2, sc2, sp2);
        },
        Expression::Prefix { operator, rhs } => {
            lemma_same_reading(*rhs, b1, sc1, sp1, b2, sc2, sp2);
        },
        Expression::Infix { operator, lhs, rhs } => {
            lemma_same_reading(*lhs, b1, sc1, sp1, b2, sc2, sp2);
            lemma_same_reading(*rhs, b1, sc1, sp1, b2, sc2, sp2);
        },
        Expression::Index { lhs, idx } => {
            lemma_same_reading(*lhs, b1, sc1, sp1, b2, sc2, sp2);
            lemma_same_reading(*idx, b1, sc1, sp1, b2, sc2, sp2);
        },
        Expression::Condition { condition, consequence, alternative } => {
            lemma_same_reading(*condition, b1, sc1, sp1, b2, sc2, sp2);
            lemma_same_reading_block(consequence@, b1, sc1, sp1, b2, sc2, sp2);
            if let Some(alt) = alternative {
                lemma_same_reading_block(alt@, b1, sc1, sp1, b2, sc2, sp2);
            }
        },
        _ => {},
    }
}

pub proof fn lemma_same_reading_block(
    ss: Seq<Statement>,
    b1: Map<Seq<char>, ValueModel>,
    sc1: Seq<Scope>,
    sp1: int,
    b2: Map<Seq<char>, ValueModel>,
    sc2: Seq<Scope>,
    sp2: int,
)
    requires
        forall|n: Seq<char>| #[trigger] resolve(b1, sc1, sp1, n) == resolve(b2, sc2, sp2, n),
    ensures
        pure_block(ss, b1, sc1, sp1) == pure_block(ss, b2, sc2, sp2),
    decreases ss,
{
    if ss.len() == 1 {
        if let Statement::Expression(e) = ss[0] {
            lemma_same_reading(e, b1, sc1, sp1, b2, sc2, sp2);
        }
    }
}

pub proof fn lemma_same_reading_hash(
    ps: Seq<(Expression, Expression)>,
    b1: Map<Seq<char>, ValueModel>,
    sc1: Seq<Scope>,
    sp1: int,
    b2: Map<Seq<char>, ValueModel>,
    sc2: Seq<Scope>,
    sp2: int,
)
    requires
        forall|n: Seq<char>| #[trigger] resolve(b1, sc1, sp1, n) == resolve(b2, sc2, sp2, n),
    ensures
        pure_hash(ps, b1, sc1, sp1) == pure_hash(ps, b2, sc2, sp2),
    decreases ps,
{
    if ps.len() > 0 {
        lemma_same_reading_hash(ps.drop_last(), b1, sc1, sp1, b2, sc2, sp2);
        lemma_same_reading(ps.last().0, b1, sc1, sp1, b2, sc2, sp2);
        lemma_same_reading(ps.last().1, b1, sc1, sp1, b2, sc2, sp2);
    }
}

pub proof fn lemma_same_reading_list(
    es: Seq<Expression>,
    b1: Map<Seq<char>, ValueModel>,
    sc1: Seq<Scope>,
    sp1: int,
    b2: Map<Seq<char>, ValueModel>,
    sc2: Seq<Scope>,
    sp2: int,
)
    requires
        forall|n: Seq<char>| #[trigger] resolve(b1, sc1, sp1, n) == resolve(b2, sc2, sp2, n),
    ensures
        pure_list_in(es, b1, sc1, sp1) == pure_list_in(es, b2, sc2, sp2),
    decreases es,
{
    if es.len() > 0 {
        lemma_same_reading_list(es.drop_last(), b1, sc1, sp1, b2, sc2, sp2);
        lemma_same_reading(es.last(), b1, sc1, sp1, b2, sc2, sp2);
    }
}

/// Blocks whose statements read alike one by one evaluate alike.
pub proof fn lemma_block_reads_alike(a: Seq<Statement>, b: Seq<Statement>)
    requires
        a.len() == b.len(),
        forall|i: int| 0 <= i < a.len() ==> stmt_reads_alike(#[trigger] a[i], b[i]),
    ensures
        forall|bound: Map<Seq<char>, ValueModel>, scopes: Seq<Scope>, scope: int|
            #[trigger] pure_block(a, bound, scopes, scope) == pure_block(b, bound, scopes, scope),
{
    assert forall|bound: Map<Seq<char>, ValueModel>, scopes: Seq<Scope>, scope: int|
        #[trigger] pure_block(a, bound, scopes, scope) == pure_block(b, bound, scopes, scope) by {
        if a.len() == 1 {
            assert(stmt_reads_alike(a[0], b[0]));
            if let Statement::Expression(x) = a[0] {
                assert(pure_eval_in(x, bound, scopes, scope) == pure_eval_in(
                    b[0]->Expression_0,
                    bound,
                    scopes,
                    scope,
                ));
            }
        }
    }
}

/// Map entries whose keys and values read alike one by one evaluate alike.
pub proof fn lemma_hash_reads_alike(a: Seq<(Expression, Expression)>, b: Seq<(Expression, Expression)>)
    requires
        a.len() == b.len(),
        forall|i: int|
            0 <= i < a.len() ==> reads_alike((#[trigger] a[i]).0, b[i].0) && reads_alike(a[i].1, b[i].1),
    ensures
        forall|bound: Map<Seq<char>, ValueModel>, scopes: Seq<Scope>, scope: int|
            #[trigger] pure_hash(a, bound, scopes, scope) == pure_hash(b, bound, scopes, scope),
    decreases a.len(),
{
    if a.len() > 0 {
        lemma_hash_reads_alike(a.drop_last(), b.drop_last());
        assert(reads_alike(a.last().0, b.last().0) && reads_alike(a.last().1, b.last().1));
        assert forall|bound: Map<Seq<char>, ValueModel>, scopes: Seq<Scope>, scope: int|
            #[trigger] pure_hash(a, bound, scopes, scope) == pure_hash(b, bound, scopes, scope) by {
            assert(pure_hash(a.drop_last(), bound, scopes, scope) == pure_hash(b.drop_last(), bound, scopes, scope));
            assert(pure_eval_in(a.last().0, bound, scopes, scope) == pure_eval_in(b.last().0, bound, scopes, scope));
            assert(pure_eval_in(a.last().1, bound, scopes, scope) == pure_eval_in(b.last().1, bound, scopes, scope));
        }
    }
}

/// Lists of expressions that read alike one by one evaluate alike.
pub proof fn lemma_list_reads_alike(a: Seq<Expression>, b: Seq<Expression>)
    requires
        a.len() == b.len(),
        forall|i: int| 0 <= i < a.len() ==> reads_alike(#[trigger] a[i], b[i]),
    ensures
        forall|bound: Map<Seq<char>, ValueModel>, scopes: Seq<Scope>, scope: int|
            #[trigger] pure_list_in(a, bound, scopes, scope) == pure_list_in(b, bound, scopes, scope),
    decreases a.len(),
{
    if a.len() > 0 {
        lemma_list_reads_alike(a.drop_last(), b.drop_last());
        assert(reads_alike(a.last(), b.last()));
        assert forall|bound: Map<Seq<char>, ValueModel>, scopes: Seq<Scope>, scope: int|
            #[trigger] pure_list_in(a, bound, scopes, scope) == pure_list_in(b, bound, scopes, scope) by {
            assert(pure_list_in(a.drop_last(), bound, scopes, scope) == pure_list_in(b.drop_last(), bound, scopes, scope));
            assert(pure_eval_in(a.last(), bound, scopes, scope) == pure_eval_in(b.last(), bound, scopes, scope));
        }
    }
}

/// Scopes added at the end of the arena change no lookup from an earlier scope.
pub proof fn lemma_lookup_push(scopes: Seq<Scope>, extra: Scope, id: int, name: Seq<char>)
    requires
        0 <= id < scopes.len(),
    ensures
        lookup(scopes.push(extra), id, name) == lookup(scopes, id, name),
    decreases id,
{
    let grown = scopes.push(extra);
    assert(grown[id] == scopes[id]);
    match scopes[id].outer {
        Some(o) => {
            if o < id {
                lemma_lookup_push(scopes, extra, o as int, name);
            }
        },
        None => {},
    }
}

/// A value model with no `return` wrapper in it.
pub open spec fn no_return(m: ValueModel) -> bool
    decreases m,
{
    match m {
        ValueModel::Return(_) => false,
        ValueModel::Array(ms) => forall|i: int| 0 <= i < ms.len() ==> no_return(#[trigger] ms[i]),
        ValueModel::Hash(es) => forall|i: int| 0 <= i < es.len() ==> no_return(#[trigger] es[i].1),
        _ => true,
    }
}

/// Such expressions never give a `return` wrapper.
pub proof fn lemma_pure_no_return(
    e: Expression,
    bound: Map<Seq<char>, ValueModel>,
    scopes: Seq<Scope>,
    scope: int,
)
    ensures
        pure_eval_in(e, bound, scopes, scope) matches Some(Ok(m)) ==> no_return(m),
    decreases e,
{
    match e {
        Expression::Array(items) => {
            lemma_pure_list_no_return(items@, bound, scopes, scope);
        },
        Expression::Hash(pairs) => {
            lemma_pure_hash_no_return(pairs@, bound, scopes, scope);
        },
        Expression::Prefix { operator, rhs } => {
            lemma_pure_no_return(*rhs, bound, scopes, scope);
        },
        Expression::Infix { operator, lhs, rhs } => {
            lemma_pure_no_return(*lhs, bound, scopes, scope);
            lemma_pure_no_return(*rhs, bound, scopes, scope);
        },
        Expression::Index { lhs, idx } => {
            lemma_pure_no_return(*lhs, bound, scopes, scope);
            lemma_pure_no_return(*idx, bound, scopes, scope);
            if let Some(Ok(ValueModel::Hash(es))) = pure_eval_in(*lhs, bound, scopes, scope) {
                if let Some(Ok(ValueModel::Str(k))) = pure_eval_in(*idx, bound, scopes, scope) {
                    lemma_find_model_key(es, k);
                }
            }
        },
        Expression::Condition { condition, consequence, alternative } => {
            lemma_block_no_return(consequence@, bound, scopes, scope);
            if let Some(alt) = alternative {
                lemma_block_no_return(alt@, bound, scopes, scope);
            }
        },
        _ => {},
    }
}

proof fn lemma_block_unfold(ss: Seq<Statement>, scopes: Seq<Scope>, scope: int)
    ensures
        ss.len() == 0 ==> pure_block(ss, Map::empty(), scopes, scope) == Some(
            Ok::<ValueModel, EvalError>(ValueModel::Null),
        ),
        ss.len() == 1 ==> pure_block(ss, Map::empty(), scopes, scope) == match ss[0] {
            Statement::Expression(e) => pure_eval(e, scopes, scope),
            _ => None,
        },
        ss.len() > 1 ==> pure_block(ss, Map::empty(), scopes, scope) is None,
{
}

/// Where `find_model_key` finds a key, it is there, and nowhere before.
pub proof fn lemma_find_model_key(es: Seq<(Seq<char>, ValueModel)>, key: Seq<char>)
    ensures
        match find_model_key(es, key) {
            Some(j) => 0 <= j < es.len() && es[j].0 == key && forall|k: int|
                0 <= k < j ==> #[trigger] es[k].0 != key,
            None => forall|k: int| 0 <= k < es.len() ==> #[trigger] es[k].0 != key,
        },
    decreases es.len(),
{
    if es.len() > 0 {
        lemma_find_model_key(es.drop_first(), key);
        assert forall|k: int| 1 <= k < es.len() implies #[trigger] es[k].0 == es.drop_first()[k - 1].0 by {}
    }
}

proof fn lemma_pure_hash_no_return(
    ps: Seq<(Expression, Expression)>,
    bound: Map<Seq<char>, ValueModel>,
    scopes: Seq<Scope>,
    scope: int,
)
    ensures
        pure_hash(ps, bound, scopes, scope) matches Some(Ok(es)) ==> forall|i: int|
            0 <= i < es.len() ==> no_return(#[trigger] es[i].1),
    decreases ps,
{
    if ps.len() > 0 {
        lemma_pure_hash_no_return(ps.drop_last(), bound, scopes, scope);
        lemma_pure_no_return(ps.last().1, bound, scopes, scope);
        if let Some(Ok(es)) = pure_hash(ps.drop_last(), bound, scopes, scope) {
            if let Some(Ok(ValueModel::Str(k))) = pure_eval_in(ps.last().0, bound, scopes, scope) {
                if let Some(Ok(v)) = pure_eval_in(ps.last().1, bound, scopes, scope) {
                    lemma_find_model_key(es, k);
                    let es2 = hash_insert(es, k, v);
                    assert forall|i: int| 0 <= i < es2.len() implies no_return(#[trigger] es2[i].1) by {
                        if i < es.len() && es2[i] == es[i] {
                        }
                    }
                }
            }
        }
    }
}

proof fn lemma_block_no_return(
    ss: Seq<Statement>,
    bound: Map<Seq<char>, ValueModel>,
    scopes: Seq<Scope>,
    scope: int,
)
    ensures
        pure_block(ss, bound, scopes, scope) matches Some(Ok(m)) ==> no_return(m),
    decreases ss,
{
    if ss.len() == 1 {
        if let Statement::Expression(x) = ss[0] {
            lemma_pure_no_return(x, bound, scopes, scope);
        }
    }
}

pub proof fn lemma_pure_list_no_return(
    es: Seq<Expression>,
    bound: Map<Seq<char>, ValueModel>,
    scopes: Seq<Scope>,
    scope: int,
)
    ensures
        pure_list_in(es, bound, scopes, scope) matches Some(Ok(ms)) ==> forall|i: int|
            0 <= i < ms.len() ==> no_return(#[trigger] ms[i]),
    decreases es,
{
    if es.len() > 0 {
        lemma_pure_list_no_return(es.drop_last(), bound, scopes, scope);
        lemma_pure_no_return(es.last(), bound, scopes, scope);
    }
}

/// Lookups from a scope only depend on that scope and the ones before it.
pub proof fn lemma_lookup_same_prefix(a: Seq<Scope>, b: Seq<Scope>, id: int, name: Seq<char>)
    requires
        0 <= id < a.len(),
        id < b.len(),
        forall|j: int| 0 <= j <= id ==> #[trigger] a[j] == b[j],
    ensures
        lookup(a, id, name) == lookup(b, id, name),
    decreases id,
{
    assert(a[id] == b[id]);
    match a[id].outer {
        Some(o) => {
            if o < id {
                lemma_lookup_same_prefix(a, b, o as int, name);
            }
        },
        None => {},
    }
}

/// Replacing an entry by one with the same key moves no key.
proof fn lemma_find_key_update(es: Seq<(String, Value)>, j: int, entry: (String, Value), key: Seq<char>)
    requires
        0 <= j < es.len(),
        entry.0@ == es[j].0@,
    ensures
        operators::find_key(es.update(j, entry), key) == operators::find_key(es, key),
    decreases es.len(),
{
    let up = es.update(j, entry);
    if j == 0 {
        assert(up.drop_first() == es.drop_first());
    } else {
        assert(up.drop_first() == es.drop_first().update(j - 1, entry));
        lemma_find_key_update(es.drop_first(), j - 1, entry, key);
    }
}

/// Appending an entry moves no key already there.
proof fn lemma_find_key_push(es: Seq<(String, Value)>, entry: (String, Value), key: Seq<char>)
    ensures
        operators::find_key(es, key) is Some ==> operators::find_key(es.push(entry), key)
            == operators::find_key(es, key),
        (operators::find_key(es, key) is None && entry.0@ == key) ==> operators::find_key(
            es.push(entry),
            key,
        ) == Some(es.len() as int),
        (operators::find_key(es, key) is None && entry.0@ != key) ==> operators::find_key(
            es.push(entry),
            key,
        ) is None,
    decreases es.len(),
{
    if es.len() > 0 {
        assert(es.push(entry).drop_first() == es.drop_first().push(entry));
        lemma_find_key_push(es.drop_first(), entry, key);
    } else {
        assert(es.push(entry).drop_first() == es);
    }
}

/// `values` are what `exprs` evaluate to, as `pure_list` gives them.
pub open spec fn list_meets(
    r: Result<Vec<Value>, EvalError>,
    spec: Result<Seq<ValueModel>, EvalError>,
) -> bool {
    match spec {
        Ok(ms) => r is Ok && models(r->Ok_0@) == ms,
        Err(e) => r == Err::<Vec<Value>, EvalError>(e),
    }
}

proof fn lemma_pure_list_prefix(es: Seq<Expression>, scopes: Seq<Scope>, scope: int, k: int)
    requires
        0 <= k <= es.len(),
        pure_list(es, scopes, scope) is Some,
    ensures
        pure_list(es.take(k), scopes, scope) is Some,
        pure_list(es.take(k), scopes, scope) matches Some(Err(e)) ==> pure_list(es, scopes, scope) == Some(
            Err::<Seq<ValueModel>, EvalError>(e),
        ),
    decreases es.len(),
{
    if es.len() > 0 {
        if k == es.len() {
            assert(es.take(k) == es);
        } else {
            assert(es.drop_last().take(k) == es.take(k));
            lemma_pure_list_prefix(es.drop_last(), scopes, scope, k);
        }
    } else {
        assert(es.take(k) == es);
    }
}

/// The values of a list result, as a sequence.
pub open spec fn seq_of(r: Result<Vec<Value>, EvalError>) -> Result<Seq<Value>, EvalError> {
    match r {
        Ok(vs) => Ok(vs@),
        Err(e) => Err(e),
    }
}

/// Evaluates expressions left to right.
fn eval_list(exprs: &Vec<Expression>, env: &mut Environment, scope: usize, depth: usize) -> (r:
    Result<Vec<Value>, EvalError>)
    requires
        old(env).wf(),
        scope < old(env).scopes().len(),
    ensures
        grows(*old(env), *final(env)),
        r is Ok ==> r->Ok_0@.len() == exprs@.len(),
        list_rel(
            exprs@,
            *old(env),
            scope as int,
            depth as nat,
            *final(env),
            match r {
                Ok(vs) => Ok::<Seq<Value>, EvalError>(vs@),
                Err(e) => Err::<Seq<Value>, EvalError>(e),
            },
        ),
        pure_list(exprs@, old(env).scopes(), scope as int) matches Some(spec) ==> list_meets(r, spec)
            && final(env).scopes() == old(env).scopes() && final(env).output() == old(env).output(),
    decreases depth, exprs,
{
    proof {
        lemma_grows_refl(*env);
        assert(exprs@.take(0) == Seq::<Expression>::empty());
        assert(list_rel(exprs@.take(0), *old(env), scope as int, depth as nat, *env, Ok::<Seq<Value>, EvalError>(Seq::<Value>::empty())));
    }
    let mut values: Vec<Value> = Vec::new();
    let mut i: usize = 0;
    while i < exprs.len()
        invariant
            i <= exprs@.len(),
            values@.len() == i,
            grows(*old(env), *env),
            scope < env.scopes().len(),
            pure_list(exprs@, old(env).scopes(), scope as int) is Some ==> pure_list(
                exprs@.take(i as int),
                old(env).scopes(),
                scope as int,
            ) == Some(Ok::<Seq<ValueModel>, EvalError>(models(values@))) && env.scopes() == old(env).scopes() && env.output() == old(env).output(),
            list_rel(
                exprs@.take(i as int),
                *old(env),
                scope as int,
                depth as nat,
                *env,
                Ok::<Seq<Value>, EvalError>(values@),
            ),
        decreases exprs@.len() - i,
    {
        let ghost before = *env;
        proof {
            if pure_list(exprs@, old(env).scopes(), scope as int) is Some {
                lemma_pure_list_prefix(exprs@, old(env).scopes(), scope as int, i + 1);
                assert(exprs@.take(i + 1).drop_last() == exprs@.take(i as int));
                assert(exprs@.take(i + 1).last() == exprs@[i as int]);
            }
        }
        let ghost prefix = exprs@.take(i + 1);
        proof {
            assert(prefix.drop_last() == exprs@.take(i as int));
            assert(prefix.last() == exprs@[i as int]);
        }
        let er = exprs[i].eval(env, scope, depth);
        proof {
            assert(step(before, Ok::<Seq<Value>, EvalError>(values@)));
            assert(step(er, er));
        }
        match er {
            Ok(v) => {
                proof {
                    assert(values@.push(v).drop_last() == values@);
                    assert(list_rel(prefix, *old(env), scope as int, depth as nat, *env, Ok::<Seq<Value>, EvalError>(values@.push(v))));
                }
                values.push(v);
            },
            Err(e) => {
                proof {
                    lemma_grows_trans(*old(env), before, *env);
                    assert(list_rel(prefix, *old(env), scope as int, depth as nat, *env, Err::<Seq<Value>, EvalError>(e)));
                    semantics::lemma_list_stops(exprs@, i + 1, *old(env), scope as int, depth as nat, *env, e);
                }
                return Err(e);
            },
        }
        proof {
            lemma_grows_trans(*old(env), before, *env);
        }
        i = i + 1;
    }
    proof {
        assert(exprs@.take(exprs@.len() as int) == exprs@);
    }
    Ok(values)
}


/// Evaluates statements in order in one scope. The first `return` stops the block
/// and its value comes out still wrapped, for the enclosing call to unwrap.
pub fn eval_block(stmts: &Vec<Statement>, env: &mut Environment, scope: usize, depth: usize) -> (r:
    Result<Value, EvalError>)
    requires
        old(env).wf(),
        scope < old(env).scopes().len(),
    ensures
        grows(*old(env), *final(env)),
        block_rel(stmts@, *old(env), scope as int, depth as nat, *final(env), r),
        stmts@.len() == 0 ==> r == Ok::<Value, EvalError>(Value::Null) && final(env).scopes()
            == old(env).scopes() && final(env).output() == old(env).output(),
        stmts@.len() == 1 ==> match stmts@[0] {
            Statement::Expression(e) => pure_eval(e, old(env).scopes(), scope as int) matches Some(
                spec,
            ) ==> meets(r, spec) && final(env).scopes() == old(env).scopes() && final(env).output()
                == old(env).output(),
            _ => true,
        },
    decreases depth, stmts,
{
    proof {
        lemma_grows_refl(*env);
        assert(stmts@.take(0) == Seq::<Statement>::empty());
    }
    let mut result = Value::Null;
    let mut i: usize = 0;
    while i < stmts.len()
        invariant
            i <= stmts@.len(),
            grows(*old(env), *env),
            scope < env.scopes().len(),
            stmts@.len() == 0 ==> result == Value::Null,
            i == 0 ==> env.scopes() == old(env).scopes() && env.output() == old(env).output(),
            (stmts@.len() == 1 && i == 1) ==> match stmts@[0] {
                Statement::Expression(e) => match pure_eval(e, old(env).scopes(), scope as int) {
                    Some(Ok(m)) => model(result) == m && env.scopes() == old(env).scopes()
                        && env.output() == old(env).output(),
                    Some(Err(_)) => false,
                    None => true,
                },
                _ => true,
            },
            !(result is Return),
            block_rel(stmts@.take(i as int), *old(env), scope as int, depth as nat, *env, Ok::<Value, EvalError>(result)),
        decreases stmts@.len() - i,
    {
        let ghost before = *env;
        let ghost prefix = stmts@.take(i + 1);
        let ghost prev = result;
        proof {
            assert(prefix.drop_last() == stmts@.take(i as int));
            assert(prefix.last() == stmts@[i as int]);
        }
        let v = stmts[i].eval(env, scope, depth);
        proof {
            assert(step(before, Ok::<Value, EvalError>(prev)));
            assert(block_rel(prefix, *old(env), scope as int, depth as nat, *env, v));
            lemma_grows_trans(*old(env), before, *env);
            if let Statement::Expression(e) = stmts@[i as int] {
                if let Some(Ok(m)) = pure_eval(e, old(env).scopes(), scope as int) {
                    lemma_pure_no_return(e, Map::empty(), old(env).scopes(), scope as int);
                }
            }
        }
        match v {
            Ok(v) => {
                if matches!(v, Value::Return(_)) {
                    proof {
                        semantics::lemma_block_stops(stmts@, i + 1, *old(env), scope as int, depth as nat, *env, Ok::<Value, EvalError>(v));
                    }
                    return Ok(v);
                }
                result = v;
            },
            Err(e) => {
                proof {
                    semantics::lemma_block_stops(stmts@, i + 1, *old(env), scope as int, depth as nat, *env, Err::<Value, EvalError>(e));
                }
                return Err(e);
            },
        }
        i = i + 1;
    }
    proof {
        assert(stmts@.take(stmts@.len() as int) == stmts@);
    }
    Ok(result)
}

impl Statement {
    /// Evaluates a statement in scope `scope`.
    pub fn eval(&self, env: &mut Environment, scope: usize, depth: usize) -> (r: Result<
        Value,
        EvalError,
    >)
        requires
            old(env).wf(),
            scope < old(env).scopes().len(),
        ensures
            grows(*old(env), *final(env)),
            stmt_rel(*self, *old(env), scope as int, depth as nat, *final(env), r),
            match *self {
                Statement::Let { name, value } => {
                    &&& is_builtin_name(name@) ==> r == Err::<Value, EvalError>(
                        EvalError::BuiltinOverride,
                    ) && *final(env) == *old(env)
                    &&& r is Ok ==> lookup_model(final(env).scopes(), scope as int, name@) == model(
                        r->Ok_0,
                    )
                    &&& !is_builtin_name(name@) ==> (pure_eval(value, old(env).scopes(), scope as int)
                        matches Some(spec) ==> match spec {
                        Ok(m) => {
                            &&& r is Ok
                            &&& model(r->Ok_0) == m
                            &&& final(env).output() == old(env).output()
                            &&& final(env).scopes().len() == old(env).scopes().len()
                            &&& forall|n: Seq<char>|
                                #[trigger] lookup_model(final(env).scopes(), scope as int, n) == if n
                                    == name@ {
                                    m
                                } else {
                                    lookup_model(old(env).scopes(), scope as int, n)
                                }
                        },
                        Err(e) => r == Err::<Value, EvalError>(e),
                    })
                },
                Statement::Return { value } => pure_eval(value, old(env).scopes(), scope as int)
                    matches Some(spec) ==> match spec {
                    Ok(m) => r is Ok && r->Ok_0 is Return && model(*r->Ok_0->Return_0) == m,
                    Err(e) => r == Err::<Value, EvalError>(e),
                },
                Statement::Return { value } => r is Ok ==> r->Ok_0 is Return,
                Statement::Block(stmts) => {
                    &&& stmts@.len() == 0 ==> r == Ok::<Value, EvalError>(Value::Null)
                    &&& stmts@.len() == 1 ==> match stmts@[0] {
                        Statement::Expression(e) => pure_eval(e, old(env).scopes(), scope as int)
                            matches Some(spec) ==> meets(r, spec),
                        _ => true,
                    }
                },
                Statement::Expression(e) => pure_eval(e, old(env).scopes(), scope as int) matches Some(
                    spec,
                ) ==> meets(r, spec) && final(env).scopes() == old(env).scopes() && final(env).output() == old(env).output(),
            },
        decreases depth, self,
    {
        proof {
            lemma_grows_refl(*env);
        }
        match self {
            Statement::Expression(e) => e.eval(env, scope, depth),
            Statement::Let { name, value } => {
                if builtin_named(name) {
                    return Err(EvalError::BuiltinOverride);
                }
                let ghost before = *env;
                let vr = value.eval(env, scope, depth);
                proof {
                    assert(step(*env, vr));
                }
                match vr {
                    Ok(v) => {
                        let ghost mid = *env;
                        let key = name.clone();
                        let ghost key_g = key;
                        let ghost bound = v;
                        let stored = env.set(scope, key, v);
                        proof {
                            lemma_grows_step(before, mid, *env);
                            let vars = env.scopes()[scope as int].variables@;
                            let old_vars = mid.scopes()[scope as int].variables@;
                            operators::lemma_find_key(old_vars, name@);
                            operators::lemma_find_key(vars, name@);
                            match operators::find_key(old_vars, name@) {
                                Some(j) => {
                                    assert(vars[j].0@ == name@);
                                    assert(forall|k: int| 0 <= k < j ==> #[trigger] vars[k] == old_vars[k]);
                                },
                                None => {
                                    assert(vars[old_vars.len() as int].0@ == name@);
                                    assert(forall|k: int| 0 <= k < old_vars.len() ==> #[trigger] vars[k] == old_vars[k]);
                                },
                            }
                            let sc_old = mid.scopes();
                            let sc_new = env.scopes();
                            assert forall|n: Seq<char>| n != name@ implies #[trigger] lookup_model(
                                sc_new,
                                scope as int,
                                n,
                            ) == lookup_model(sc_old, scope as int, n) by {
                                operators::lemma_find_key(old_vars, n);
                                operators::lemma_find_key(vars, n);
                                match operators::find_key(old_vars, name@) {
                                    Some(j) => {
                                        lemma_find_key_update(old_vars, j, (key_g, bound), n);
                                    },
                                    None => {
                                        lemma_find_key_push(old_vars, (key_g, bound), n);
                                    },
                                }
                                match sc_old[scope as int].outer {
                                    Some(o) => {
                                        if o < scope {
                                            assert forall|t: int| 0 <= t <= o implies #[trigger] sc_new[t]
                                                == sc_old[t] by {}
                                            lemma_lookup_same_prefix(sc_new, sc_old, o as int, n);
                                        }
                                    },
                                    None => {},
                                }
                            }
                        }
                        Ok(stored)
                    },
                    Err(e) => Err(e),
                }
            },
            Statement::Return { value } => match {
                let vr = value.eval(env, scope, depth);
                proof {
                    assert(step(vr, vr));
                }
                vr
            } {
                Ok(v) => Ok(Value::Return(Box::new(v))),
                Err(e) => Err(e),
            },
            Statement::Block(stmts) => eval_block(stmts, env, scope, depth),
        }
    }
}

/// Whether a condition holds: `true`, or an integer other than 0. Other values are
/// no condition.
pub open spec fn truthy(v: ValueModel) -> Option<bool> {
    match v {
        ValueModel::Bool(b) => Some(b),
        ValueModel::Int(n) => Some(n != 0),
        _ => None,
    }
}

/// Whether an evaluated condition holds, or why it is no condition.
fn condition_of(cv: Result<Value, EvalError>) -> (c: Result<bool, EvalError>)
    ensures
        match cv {
            Ok(v) => match truthy(model(v)) {
                Some(b) => c == Ok::<bool, EvalError>(b),
                None => c == Err::<bool, EvalError>(EvalError::TypeMismatch),
            },
            Err(e) => c == Err::<bool, EvalError>(e),
        },
{
    match cv {
        Ok(v) => condition_holds(&v),
        Err(e) => Err(e),
    }
}

fn condition_holds(v: &Value) -> (r: Result<bool, EvalError>)
    ensures
        match truthy(model(*v)) {
            Some(b) => r == Ok::<bool, EvalError>(b),
            None => r == Err::<bool, EvalError>(EvalError::TypeMismatch),
        },
{
    match v {
        Value::Bool(b) => Ok(*b),
        Value::Int(n) => Ok(*n != 0),
        _ => Err(EvalError::TypeMismatch),
    }
}

/// Evaluates the entries of a map literal in order; every key must be a string, and
/// a later entry replaces an earlier one with the same key.
fn eval_hash_literal(
    pairs: &Vec<(Expression, Expression)>,
    env: &mut Environment,
    scope: usize,
    depth: usize,
) -> (r: Result<Value, EvalError>)
    requires
        old(env).wf(),
        scope < old(env).scopes().len(),
    ensures
        grows(*old(env), *final(env)),
        r is Ok ==> r->Ok_0 is Hash && distinct_keys(entry_models(r->Ok_0->Hash_0@)),
        exists|hr: Result<Seq<(String, Value)>, EvalError>|
            #[trigger] hash_rel(pairs@, *old(env), scope as int, depth as nat, *final(env), hr)
                && match hr {
                Ok(es) => r is Ok && r->Ok_0 is Hash && r->Ok_0->Hash_0@ == es,
                Err(err) => r == Err::<Value, EvalError>(err),
            },
        pure_hash(pairs@, Map::empty(), old(env).scopes(), scope as int) matches Some(spec) ==> (match spec {
            Ok(es) => r is Ok && model(r->Ok_0) == ValueModel::Hash(es),
            Err(e) => r == Err::<Value, EvalError>(e),
        }) && final(env).scopes() == old(env).scopes() && final(env).output() == old(env).output(),
    decreases depth, pairs,
{
    proof {
        lemma_grows_refl(*env);
        assert(pairs@.take(0) == Seq::<(Expression, Expression)>::empty());
        assert(hash_rel(pairs@.take(0), *old(env), scope as int, depth as nat, *env, Ok::<Seq<(String, Value)>, EvalError>(Seq::empty())));
    }
    let ghost sc = old(env).scopes();
    let ghost pure = pure_hash(pairs@, Map::empty(), sc, scope as int) is Some;
    let mut entries: Vec<(String, Value)> = Vec::new();
    let mut i: usize = 0;
    while i < pairs.len()
        invariant
            i <= pairs@.len(),
            grows(*old(env), *env),
            scope < env.scopes().len(),
            sc == old(env).scopes(),
            pure == pure_hash(pairs@, Map::empty(), sc, scope as int) is Some,
            distinct_keys(entry_models(entries@)),
            pure ==> pure_hash(pairs@.take(i as int), Map::empty(), sc, scope as int) == Some(
                Ok::<Seq<(Seq<char>, ValueModel)>, EvalError>(entry_models(entries@)),
            ) && env.scopes() == sc && env.output() == old(env).output(),
            hash_rel(
                pairs@.take(i as int),
                *old(env),
                scope as int,
                depth as nat,
                *env,
                Ok::<Seq<(String, Value)>, EvalError>(entries@),
            ),
        decreases pairs@.len() - i,
    {
        let ghost before = *env;
        let ghost prefix = pairs@.take(i + 1);
        let ghost es0 = entries@;
        proof {
            assert(prefix.drop_last() == pairs@.take(i as int));
            assert(prefix.last() == pairs@[i as int]);
            assert(step(before, Ok::<Seq<(String, Value)>, EvalError>(es0)));
        }
        proof {
            if pure {
                lemma_pure_hash_prefix(pairs@, sc, scope as int, i + 1);
                assert(pairs@.take(i + 1).drop_last() == pairs@.take(i as int));
                assert(pairs@.take(i + 1).last() == pairs@[i as int]);
            }
        }
        let key = pairs[i].0.eval(env, scope, depth);
        proof {
            lemma_grows_trans(*old(env), before, *env);
            assert(step(*env, key));
        }
        let key = match key {
            Ok(Value::String(k)) => k,
            Ok(_) => {
                proof {
                    let err = Err::<Seq<(String, Value)>, EvalError>(EvalError::TypeMismatch);
                    assert(hash_rel(prefix, *old(env), scope as int, depth as nat, *env, err));
                    semantics::lemma_hash_stops(pairs@, i + 1, *old(env), scope as int, depth as nat, *env, EvalError::TypeMismatch);
                    assert(step(err, err));
                }
                return Err(EvalError::TypeMismatch);
            },
            Err(e) => {
                proof {
                    let err = Err::<Seq<(String, Value)>, EvalError>(e);
                    assert(hash_rel(prefix, *old(env), scope as int, depth as nat, *env, err));
                    semantics::lemma_hash_stops(pairs@, i + 1, *old(env), scope as int, depth as nat, *env, e);
                    assert(step(err, err));
                }
                return Err(e);
            },
        };
        let ghost mid = *env;
        let value = pairs[i].1.eval(env, scope, depth);
        proof {
            lemma_grows_trans(*old(env), mid, *env);
            assert(step(value, value));
        }
        match value {
            Ok(v) => {
                let ghost kg = key;
                insert_entry(&mut entries, key, v);
                proof {
                    assert(hash_rel(prefix, *old(env), scope as int, depth as nat, *env, Ok::<Seq<(String, Value)>, EvalError>(entries@)));
                }
            },
            Err(e) => {
                proof {
                    let err = Err::<Seq<(String, Value)>, EvalError>(e);
                    assert(hash_rel(prefix, *old(env), scope as int, depth as nat, *env, err));
                    semantics::lemma_hash_stops(pairs@, i + 1, *old(env), scope as int, depth as nat, *env, e);
                    assert(step(err, err));
                }
                return Err(e);
            },
        }
        i = i + 1;
    }
    proof {
        assert(pairs@.take(pairs@.len() as int) == pairs@);
        assert(step(Ok::<Seq<(String, Value)>, EvalError>(entries@), Ok::<Seq<(String, Value)>, EvalError>(entries@)));
    }
    Ok(Value::Hash(entries))
}

proof fn lemma_pure_hash_prefix(ps: Seq<(Expression, Expression)>, scopes: Seq<Scope>, scope: int, k: int)
    requires
        0 <= k <= ps.len(),
        pure_hash(ps, Map::empty(), scopes, scope) is Some,
    ensures
        pure_hash(ps.take(k), Map::empty(), scopes, scope) is Some,
        pure_hash(ps.take(k), Map::empty(), scopes, scope) matches Some(Err(e)) ==> pure_hash(
            ps,
            Map::empty(),
            scopes,
            scope,
        ) == Some(Err::<Seq<(Seq<char>, ValueModel)>, EvalError>(e)),
    decreases ps.len(),
{
    if ps.len() > 0 {
        if k == ps.len() {
            assert(ps.take(k) == ps);
        } else {
            assert(ps.drop_last().take(k) == ps.take(k));
            lemma_pure_hash_prefix(ps.drop_last(), scopes, scope, k);
        }
    } else {
        assert(ps.take(k) == ps);
    }
}

/// Where `key` first stands among map entries.
pub open spec fn find_model_key(es: Seq<(Seq<char>, ValueModel)>, key: Seq<char>) -> Option<int>
    decreases es.len(),
{
    if es.len() == 0 {
        None
    } else if es[0].0 == key {
        Some(0)
    } else {
        match find_model_key(es.drop_first(), key) {
            Some(j) => Some(j + 1),
            None => None,
        }
    }
}

/// Map entries with `key` set to `v`: replaced where the key stands, else appended.
pub open spec fn hash_insert(es: Seq<(Seq<char>, ValueModel)>, key: Seq<char>, v: ValueModel) -> Seq<
    (Seq<char>, ValueModel),
> {
    match find_model_key(es, key) {
        Some(j) => es.update(j, (key, v)),
        None => es.push((key, v)),
    }
}

/// What a map holds under `key`: the value, or `null`.
pub open spec fn hash_get(es: Seq<(Seq<char>, ValueModel)>, key: Seq<char>) -> ValueModel {
    match find_model_key(es, key) {
        Some(j) => es[j].1,
        None => ValueModel::Null,
    }
}

/// No key stands twice among map entries.
pub open spec fn distinct_keys(es: Seq<(Seq<char>, ValueModel)>) -> bool {
    forall|i: int, j: int| 0 <= i < j < es.len() ==> #[trigger] es[i].0 != #[trigger] es[j].0
}

/// `find_key` on entries agrees with `find_model_key` on their models.
pub proof fn lemma_find_key_models(es: Seq<(String, Value)>, key: Seq<char>)
    ensures
        operators::find_key(es, key) == find_model_key(entry_models(es), key),
    decreases es.len(),
{
    crate::value::lemma_entry_models(es);
    if es.len() > 0 {
        crate::value::lemma_entry_models(es.drop_first());
        assert(entry_models(es).drop_first() =~= entry_models(es.drop_first()));
        lemma_find_key_models(es.drop_first(), key);
    }
}

/// Adds or replaces the entry for `key`.
fn insert_entry(entries: &mut Vec<(String, Value)>, key: String, value: Value)
    ensures
        final(entries)@ == semantics::insert_seq(old(entries)@, key, value),
        entry_models(final(entries)@) == hash_insert(entry_models(old(entries)@), key@, model(value)),
        distinct_keys(entry_models(old(entries)@)) ==> distinct_keys(entry_models(final(entries)@)),
{
    let ghost k = key@;
    let ghost v = value;
    proof {
        lemma_find_key_models(entries@, k);
        operators::lemma_find_key(entries@, k);
        crate::value::lemma_entry_models(entries@);
    }
    match position_of(entries, &key) {
        Some(j) => {
            entries.set(j, (key, value));
            proof {
                crate::value::lemma_entry_models(entries@);
                assert(entry_models(entries@) =~= entry_models(old(entries)@).update(
                    j as int,
                    (k, model(v)),
                ));
                let before = entry_models(old(entries)@);
                let after = entry_models(entries@);
                assert forall|i: int| 0 <= i < after.len() implies #[trigger] after[i].0 == before[i].0 by {}
            }
        },
        None => {
            entries.push((key, value));
            proof {
                crate::value::lemma_entry_models(entries@);
                assert(entries@.drop_last() == old(entries)@);
                assert(entry_models(entries@) =~= entry_models(old(entries)@).push((k, model(v))));
                let before = entry_models(old(entries)@);
                let after = entry_models(entries@);
                assert forall|i: int| 0 <= i < before.len() implies #[trigger] before[i].0 != k by {
                    assert(before[i].0 == old(entries)@[i].0@);
                }
                if distinct_keys(before) {
                    assert forall|a: int, b: int| 0 <= a < b < after.len() implies #[trigger] after[a].0
                        != #[trigger] after[b].0 by {
                        if b == before.len() {
                            assert(after[a].0 == before[a].0);
                        } else {
                            assert(after[a] == before[a] && after[b] == before[b]);
                        }
                    }
                }
            }
        },
    }
}

impl Expression {
    /// Evaluates an expression in scope `scope`. `depth` bounds how deeply calls of
    /// user functions may still nest.
    #[verifier::rlimit(100)]
    #[verifier::spinoff_prover]
    pub fn eval(&self, env: &mut Environment, scope: usize, depth: usize) -> (r: Result<
        Value,
        EvalError,
    >)
        requires
            old(env).wf(),
            scope < old(env).scopes().len(),
        ensures
            grows(*old(env), *final(env)),
            eval_rel(*self, *old(env), scope as int, depth as nat, *final(env), r),
            match *self {
                Expression::Int(n) => r == Ok::<Value, EvalError>(Value::Int(n)),
                Expression::Bool(b) => r == Ok::<Value, EvalError>(Value::Bool(b)),
                Expression::String(s) => r is Ok && model(r->Ok_0) == ValueModel::Str(s@),
                Expression::Identifier(name) => {
                    &&& r is Ok
                    &&& model(r->Ok_0) == if name@ == null_name() {
                        ValueModel::Null
                    } else {
                        lookup_model(old(env).scopes(), scope as int, name@)
                    }
                    &&& final(env).scopes() == old(env).scopes()
                    &&& final(env).output() == old(env).output()
                },
                Expression::Function { parameters, body } => {
                    &&& r is Ok
                    &&& model(r->Ok_0) == ValueModel::Function {
                        parameters: names_model(parameters@),
                        environment: old(env).scopes().len(),
                    }
                    &&& r->Ok_0 is Function
                    &&& crate::ast::print::print_stmts(r->Ok_0->body@)
                        == crate::ast::print::print_stmts(body@)
                    &&& r->Ok_0->parameters@ == parameters@
                    &&& r->Ok_0->environment == old(env).scopes().len()
                    &&& r->Ok_0->body@.len() == body@.len()
                    &&& forall|i: int|
                        0 <= i < body@.len() ==> stmt_reads_alike(
                            #[trigger] body@[i],
                            r->Ok_0->body@[i],
                        )
                    &&& final(env).scopes().len() == old(env).scopes().len() + 1
                    &&& final(env).scopes().take(old(env).scopes().len() as int) == old(env).scopes()
                    &&& final(env).scopes().last().variables@.len() == 0
                    &&& final(env).scopes().last().outer == Some(scope)
                    &&& final(env).output() == old(env).output()
                },
                Expression::Call { function, arguments } => (pure_eval(
                    *function,
                    old(env).scopes(),
                    scope as int,
                ) matches Some(callee) ==> match callee {
                    Err(e) => r == Err::<Value, EvalError>(e),
                    Ok(m) => {
                        &&& !(m is Function || m is Builtin) ==> r == Err::<Value, EvalError>(
                            EvalError::TypeMismatch,
                        )
                        &&& (m is Function && depth == 0) ==> r == Err::<Value, EvalError>(
                            EvalError::CallDepth,
                        )
                        &&& m matches ValueModel::Builtin(b) ==> (pure_list(
                            arguments@,
                            old(env).scopes(),
                            scope as int,
                        ) matches Some(args) ==> match args {
                            Ok(vs) => r is Ok && model(r->Ok_0) == builtin_model(b, vs),
                            Err(e) => r == Err::<Value, EvalError>(e),
                        })
                        &&& m matches ValueModel::Function { parameters: ps, environment: c } ==> (
                        (depth > 0 && c < old(env).scopes().len()) ==> (pure_list(
                            arguments@,
                            old(env).scopes(),
                            c as int,
                        ) matches Some(Ok(vs)) ==> (vs.len() != ps.len() ==> r == Err::<
                            Value,
                            EvalError,
                        >(EvalError::WrongArity))))
                    },
                }) && match *function {
                    Expression::Function { parameters, body } => depth > 0 ==> (pure_list(
                        arguments@,
                        old(env).scopes(),
                        scope as int,
                    ) matches Some(Ok(vs)) ==> if vs.len() != parameters@.len() {
                        r == Err::<Value, EvalError>(EvalError::WrongArity)
                    } else {
                        (body@.len() == 1 && body@[0] is Expression) ==> (pure_eval_in(
                            body@[0]->Expression_0,
                            bind(parameters@, vs),
                            old(env).scopes(),
                            scope as int,
                        ) matches Some(spec) ==> meets(r, spec))
                    }),
                    _ => true,
                },
                _ => true,
            },
            pure_eval(*self, old(env).scopes(), scope as int) matches Some(spec) ==> meets(r, spec)
                && final(env).scopes() == old(env).scopes() && final(env).output() == old(env).output(),
        decreases depth, self,
    {
        proof {
            lemma_grows_refl(*env);
        }
        match self {
            Expression::Int(n) => {
                let res = Ok(Value::Int(*n));
                proof {
                    assert(eval_rel(*self, *old(env), scope as int, depth as nat, *env, res));
                }
                res
            },
            Expression::Bool(b) => {
                let res = Ok(Value::Bool(*b));
                proof {
                    assert(eval_rel(*self, *old(env), scope as int, depth as nat, *env, res));
                }
                res
            },
            Expression::String(s) => {
                let res = Ok(Value::String(s.clone()));
                proof {
                    assert(eval_rel(*self, *old(env), scope as int, depth as nat, *env, res));
                }
                res
            },
            Expression::Identifier(name) => {
                let res = if is_null_name(name) {
                    Ok(Value::Null)
                } else {
                    Ok(env.get(scope, name))
                };
                proof {
                    assert(eval_rel(*self, *old(env), scope as int, depth as nat, *env, res));
                }
                res
            },
            Expression::Array(items) => {
                let lr = eval_list(items, env, scope, depth);
                proof {
                    assert(step(seq_of(lr), seq_of(lr)));
                }
                let res = match lr {
                    Ok(values) => Ok(Value::Array(values)),
                    Err(e) => Err(e),
                };
                proof {
                    assert(eval_rel(*self, *old(env), scope as int, depth as nat, *env, res));
                }
                res
            },
            Expression::Hash(pairs) => {
                let ghost before = *env;
                let res = eval_hash_literal(pairs, env, scope, depth);
                proof {
                    let hr = choose|hr: Result<Seq<(String, Value)>, EvalError>|
                        #[trigger] hash_rel(pairs@, before, scope as int, depth as nat, *env, hr)
                            && match hr {
                            Ok(es) => res is Ok && res->Ok_0 is Hash && res->Ok_0->Hash_0@ == es,
                            Err(err) => res == Err::<Value, EvalError>(err),
                        };
                    assert(step(hr, hr));
                    assert(eval_rel(*self, *old(env), scope as int, depth as nat, *env, res));
                }
                res
            },
            Expression::Condition { condition, consequence, alternative } => {
                let res = self.eval_condition_form(env, scope, depth);
                proof {
                    assert(eval_rel(*self, *old(env), scope as int, depth as nat, *env, res));
                }
                res
            },
            Expression::Function { parameters, body } => {
                let captured = env.with_outer(scope);
                proof {
                    assert(env.output().take(old(env).output().len() as int) == env.output());
                }
                let res = Ok(
                    Value::Function {
                        parameters: duplicate_names(parameters),
                        body: crate::ast::expression::duplicate_stmts(body),
                        environment: captured,
                    },
                );
                proof {
                    assert(eval_rel(*self, *old(env), scope as int, depth as nat, *env, res));
                }
                res
            },
            Expression::Call { function, arguments } => {
                let res = self.eval_call_form(env, scope, depth);
                proof {
                    assert(eval_rel(*self, *old(env), scope as int, depth as nat, *env, res));
                }
                res
            },
            Expression::Prefix { operator, rhs } => {
                let vr = rhs.eval(env, scope, depth);
                proof {
                    assert(step(vr, vr));
                }
                let res = match vr {
                    Ok(v) => eval_prefix(*operator, &v),
                    Err(e) => Err(e),
                };
                proof {
                    assert(eval_rel(*self, *old(env), scope as int, depth as nat, *env, res));
                }
                res
            },
            Expression::Infix { operator, lhs, rhs } => {
                let res = self.eval_infix_form(env, scope, depth);
                proof {
                    assert(eval_rel(*self, *old(env), scope as int, depth as nat, *env, res));
                }
                res
            },
            Expression::Index { lhs, idx } => {
                let res = self.eval_index_form(env, scope, depth);
                proof {
                    assert(eval_rel(*self, *old(env), scope as int, depth as nat, *env, res));
                }
                res
            },
        }
    }

    /// Evaluates a `condition` expression; see `eval`.
    #[verifier::rlimit(100)]
    fn eval_condition_form(&self, env: &mut Environment, scope: usize, depth: usize) -> (r: Result<
        Value,
        EvalError,
    >)
        requires
            old(env).wf(),
            scope < old(env).scopes().len(),
            *self is Condition,
        ensures
            grows(*old(env), *final(env)),
            eval_rel(*self, *old(env), scope as int, depth as nat, *final(env), r),
            match *self {
                Expression::Int(n) => r == Ok::<Value, EvalError>(Value::Int(n)),
                Expression::Bool(b) => r == Ok::<Value, EvalError>(Value::Bool(b)),
                Expression::String(s) => r is Ok && model(r->Ok_0) == ValueModel::Str(s@),
                Expression::Identifier(name) => {
                    &&& r is Ok
                    &&& model(r->Ok_0) == if name@ == null_name() {
                        ValueModel::Null
                    } else {
                        lookup_model(old(env).scopes(), scope as int, name@)
                    }
                    &&& final(env).scopes() == old(env).scopes()
                    &&& final(env).output() == old(env).output()
                },
                Expression::Function { parameters, body } => {
                    &&& r is Ok
                    &&& model(r->Ok_0) == ValueModel::Function {
                        parameters: names_model(parameters@),
                        environment: old(env).scopes().len(),
                    }
                    &&& r->Ok_0 is Function
                    &&& crate::ast::print::print_stmts(r->Ok_0->body@)
                        == crate::ast::print::print_stmts(body@)
                    &&& r->Ok_0->parameters@ == parameters@
                    &&& r->Ok_0->environment == old(env).scopes().len()
                    &&& r->Ok_0->body@.len() == body@.len()
                    &&& forall|i: int|
                        0 <= i < body@.len() ==> stmt_reads_alike(
                            #[trigger] body@[i],
                            r->Ok_0->body@[i],
                        )
                    &&& final(env).scopes().len() == old(env).scopes().len() + 1
                    &&& final(env).scopes().take(old(env).scopes().len() as int) == old(env).scopes()
                    &&& final(env).scopes().last().variables@.len() == 0
                    &&& final(env).scopes().last().outer == Some(scope)
                    &&& final(env).output() == old(env).output()
                },
                Expression::Call { function, arguments } => (pure_eval(
                    *function,
                    old(env).scopes(),
                    scope as int,
                ) matches Some(callee) ==> match callee {
                    Err(e) => r == Err::<Value, EvalError>(e),
                    Ok(m) => {
                        &&& !(m is Function || m is Builtin) ==> r == Err::<Value, EvalError>(
                            EvalError::TypeMismatch,
                        )
                        &&& (m is Function && depth == 0) ==> r == Err::<Value, EvalError>(
                            EvalError::CallDepth,
                        )
                        &&& m matches ValueModel::Builtin(b) ==> (pure_list(
                            arguments@,
                            old(env).scopes(),
                            scope as int,
                        ) matches Some(args) ==> match args {
                            Ok(vs) => r is Ok && model(r->Ok_0) == builtin_model(b, vs),
                            Err(e) => r == Err::<Value, EvalError>(e),
                        })
                        &&& m matches ValueModel::Function { parameters: ps, environment: c } ==> (
                        (depth > 0 && c < old(env).scopes().len()) ==> (pure_list(
                            arguments@,
                            old(env).scopes(),
                            c as int,
                        ) matches Some(Ok(vs)) ==> (vs.len() != ps.len() ==> r == Err::<
                            Value,
                            EvalError,
                        >(EvalError::WrongArity))))
                    },
                }) && match *function {
                    Expression::Function { parameters, body } => depth > 0 ==> (pure_list(
                        arguments@,
                        old(env).scopes(),
                        scope as int,
                    ) matches Some(Ok(vs)) ==> if vs.len() != parameters@.len() {
                        r == Err::<Value, EvalError>(EvalError::WrongArity)
                    } else {
                        (body@.len() == 1 && body@[0] is Expression) ==> (pure_eval_in(
                            body@[0]->Expression_0,
                            bind(parameters@, vs),
                            old(env).scopes(),
                            scope as int,
                        ) matches Some(spec) ==> meets(r, spec))
                    }),
                    _ => true,
                },
                _ => true,
            },
            pure_eval(*self, old(env).scopes(), scope as int) matches Some(spec) ==> meets(r, spec)
                && final(env).scopes() == old(env).scopes() && final(env).output() == old(env).output(),
        decreases depth, self, 1nat,
    {
        proof {
            lemma_grows_refl(*env);
        }
        match self {
            Expression::Condition { condition, consequence, alternative } => {
                let ghost before = *env;
                let cr = condition.eval(env, scope, depth);
                proof {
                    assert(step(*env, cr));
                }
                let c = condition_of(cr);
                let ghost mid = *env;
                proof {
                    lemma_grows_refl(mid);
                }
                let r = match c {
                    Ok(true) => eval_block(consequence, env, scope, depth),
                    Ok(false) => match alternative {
                        Some(alt) => eval_block(alt, env, scope, depth),
                        None => Ok(Value::Null),
                    },
                    Err(e) => Err(e),
                };
                proof {
                    lemma_grows_trans(before, mid, *env);
                    let sc = old(env).scopes();
                    lemma_block_unfold(consequence@, sc, scope as int);
                    if let Some(alt) = alternative {
                        lemma_block_unfold(alt@, sc, scope as int);
                    }
                }
                r
            },
            _ => Err(EvalError::TypeMismatch),
        }
    }

    /// Evaluates a `call` expression; see `eval`.
    #[verifier::rlimit(100)]
    fn eval_call_form(&self, env: &mut Environment, scope: usize, depth: usize) -> (r: Result<
        Value,
        EvalError,
    >)
        requires
            old(env).wf(),
            scope < old(env).scopes().len(),
            *self is Call,
        ensures
            grows(*old(env), *final(env)),
            eval_rel(*self, *old(env), scope as int, depth as nat, *final(env), r),
            match *self {
                Expression::Int(n) => r == Ok::<Value, EvalError>(Value::Int(n)),
                Expression::Bool(b) => r == Ok::<Value, EvalError>(Value::Bool(b)),
                Expression::String(s) => r is Ok && model(r->Ok_0) == ValueModel::Str(s@),
                Expression::Identifier(name) => {
                    &&& r is Ok
                    &&& model(r->Ok_0) == if name@ == null_name() {
                        ValueModel::Null
                    } else {
                        lookup_model(old(env).scopes(), scope as int, name@)
                    }
                    &&& final(env).scopes() == old(env).scopes()
                    &&& final(env).output() == old(env).output()
                },
                Expression::Function { parameters, body } => {
                    &&& r is Ok
                    &&& model(r->Ok_0) == ValueModel::Function {
                        parameters: names_model(parameters@),
                        environment: old(env).scopes().len(),
                    }
                    &&& r->Ok_0 is Function
                    &&& crate::ast::print::print_stmts(r->Ok_0->body@)
                        == crate::ast::print::print_stmts(body@)
                    &&& r->Ok_0->parameters@ == parameters@
                    &&& r->Ok_0->environment == old(env).scopes().len()
                    &&& r->Ok_0->body@.len() == body@.len()
                    &&& forall|i: int|
                        0 <= i < body@.len() ==> stmt_reads_alike(
                            #[trigger] body@[i],
                            r->Ok_0->body@[i],
                        )
                    &&& final(env).scopes().len() == old(env).scopes().len() + 1
                    &&& final(env).scopes().take(old(env).scopes().len() as int) == old(env).scopes()
                    &&& final(env).scopes().last().variables@.len() == 0
                    &&& final(env).scopes().last().outer == Some(scope)
                    &&& final(env).output() == old(env).output()
                },
                Expression::Call { function, arguments } => (pure_eval(
                    *function,
                    old(env).scopes(),
                    scope as int,
                ) matches Some(callee) ==> match callee {
                    Err(e) => r == Err::<Value, EvalError>(e),
                    Ok(m) => {
                        &&& !(m is Function || m is Builtin) ==> r == Err::<Value, EvalError>(
                            EvalError::TypeMismatch,
                        )
                        &&& (m is Function && depth == 0) ==> r == Err::<Value, EvalError>(
                            EvalError::CallDepth,
                        )
                        &&& m matches ValueModel::Builtin(b) ==> (pure_list(
                            arguments@,
                            old(env).scopes(),
                            scope as int,
                        ) matches Some(args) ==> match args {
                            Ok(vs) => r is Ok && model(r->Ok_0) == builtin_model(b, vs),
                            Err(e) => r == Err::<Value, EvalError>(e),
                        })
                        &&& m matches ValueModel::Function { parameters: ps, environment: c } ==> (
                        (depth > 0 && c < old(env).scopes().len()) ==> (pure_list(
                            arguments@,
                            old(env).scopes(),
                            c as int,
                        ) matches Some(Ok(vs)) ==> (vs.len() != ps.len() ==> r == Err::<
                            Value,
                            EvalError,
                        >(EvalError::WrongArity))))
                    },
                }) && match *function {
                    Expression::Function { parameters, body } => depth > 0 ==> (pure_list(
                        arguments@,
                        old(env).scopes(),
                        scope as int,
                    ) matches Some(Ok(vs)) ==> if vs.len() != parameters@.len() {
                        r == Err::<Value, EvalError>(EvalError::WrongArity)
                    } else {
                        (body@.len() == 1 && body@[0] is Expression) ==> (pure_eval_in(
                            body@[0]->Expression_0,
                            bind(parameters@, vs),
                            old(env).scopes(),
                            scope as int,
                        ) matches Some(spec) ==> meets(r, spec))
                    }),
                    _ => true,
                },
                _ => true,
            },
            pure_eval(*self, old(env).scopes(), scope as int) matches Some(spec) ==> meets(r, spec)
                && final(env).scopes() == old(env).scopes() && final(env).output() == old(env).output(),
        decreases depth, self, 1nat,
    {
        proof {
            lemma_grows_refl(*env);
        }
        match self {
            Expression::Call { function, arguments } => {
                let ghost before = *env;
                let fr = function.eval(env, scope, depth);
                proof {
                    assert(step(*env, fr));
                }
                let callee = match fr {
                    Ok(v) => v,
                    Err(e) => {
                        return Err(e);
                    },
                };
                let ghost mid = *env;
                proof {
                    if let Expression::Function { parameters, body } = &**function {
                        let old_sc = before.scopes();
                        let sc = mid.scopes();
                        let c = old_sc.len() as int;
                        assert(sc == old_sc.push(sc.last()));
                        assert forall|bnd: Map<Seq<char>, ValueModel>, nm: Seq<char>|
                            #[trigger] resolve(bnd, sc, c, nm) == resolve(bnd, old_sc, scope as int, nm) by {
                            operators::lemma_find_key(sc[c].variables@, nm);
                            lemma_lookup_push(old_sc, sc.last(), scope as int, nm);
                        }
                        lemma_same_reading_list(
                            arguments@,
                            Map::empty(),
                            sc,
                            c,
                            Map::empty(),
                            old_sc,
                            scope as int,
                        );
                        if body@.len() == 1 && body@[0] is Expression {
                            let b = body@[0]->Expression_0;
                            assert(stmt_reads_alike(body@[0], callee->body@[0]));
                            let b2 = callee->body@[0]->Expression_0;
                            if let Some(Ok(vs)) = pure_list(arguments@, old_sc, scope as int) {
                                let bnd = bind(parameters@, vs);
                                assert(pure_eval_in(b2, bnd, sc, c) == pure_eval_in(b, bnd, sc, c));
                                lemma_same_reading(b, bnd, sc, c, bnd, old_sc, scope as int);
                            }
                        }
                    }
                }
                let r = self.eval_call(callee, arguments, env, scope, depth);
                proof {
                    lemma_grows_trans(before, mid, *env);
                }
                r
            },
            _ => Err(EvalError::TypeMismatch),
        }
    }

    /// Evaluates a `infix` expression; see `eval`.
    #[verifier::rlimit(100)]
    fn eval_infix_form(&self, env: &mut Environment, scope: usize, depth: usize) -> (r: Result<
        Value,
        EvalError,
    >)
        requires
            old(env).wf(),
            scope < old(env).scopes().len(),
            *self is Infix,
        ensures
            grows(*old(env), *final(env)),
            eval_rel(*self, *old(env), scope as int, depth as nat, *final(env), r),
            match *self {
                Expression::Int(n) => r == Ok::<Value, EvalError>(Value::Int(n)),
                Expression::Bool(b) => r == Ok::<Value, EvalError>(Value::Bool(b)),
                Expression::String(s) => r is Ok && model(r->Ok_0) == ValueModel::Str(s@),
                Expression::Identifier(name) => {
                    &&& r is Ok
                    &&& model(r->Ok_0) == if name@ == null_name() {
                        ValueModel::Null
                    } else {
                        lookup_model(old(env).scopes(), scope as int, name@)
                    }
                    &&& final(env).scopes() == old(env).scopes()
                    &&& final(env).output() == old(env).output()
                },
                Expression::Function { parameters, body } => {
                    &&& r is Ok
                    &&& model(r->Ok_0) == ValueModel::Function {
                        parameters: names_model(parameters@),
                        environment: old(env).scopes().len(),
                    }
                    &&& r->Ok_0 is Function
                    &&& crate::ast::print::print_stmts(r->Ok_0->body@)
                        == crate::ast::print::print_stmts(body@)
                    &&& r->Ok_0->parameters@ == parameters@
                    &&& r->Ok_0->environment == old(env).scopes().len()
                    &&& r->Ok_0->body@.len() == body@.len()
                    &&& forall|i: int|
                        0 <= i < body@.len() ==> stmt_reads_alike(
                            #[trigger] body@[i],
                            r->Ok_0->body@[i],
                        )
                    &&& final(env).scopes().len() == old(env).scopes().len() + 1
                    &&& final(env).scopes().take(old(env).scopes().len() as int) == old(env).scopes()
                    &&& final(env).scopes().last().variables@.len() == 0
                    &&& final(env).scopes().last().outer == Some(scope)
                    &&& final(env).output() == old(env).output()
                },
                Expression::Call { function, arguments } => (pure_eval(
                    *function,
                    old(env).scopes(),
                    scope as int,
                ) matches Some(callee) ==> match callee {
                    Err(e) => r == Err::<Value, EvalError>(e),
                    Ok(m) => {
                        &&& !(m is Function || m is Builtin) ==> r == Err::<Value, EvalError>(
                            EvalError::TypeMismatch,
                        )
                        &&& (m is Function && depth == 0) ==> r == Err::<Value, EvalError>(
                            EvalError::CallDepth,
                        )
                        &&& m matches ValueModel::Builtin(b) ==> (pure_list(
                            arguments@,
                            old(env).scopes(),
                            scope as int,
                        ) matches Some(args) ==> match args {
                            Ok(vs) => r is Ok && model(r->Ok_0) == builtin_model(b, vs),
                            Err(e) => r == Err::<Value, EvalError>(e),
                        })
                        &&& m matches ValueModel::Function { parameters: ps, environment: c } ==> (
                        (depth > 0 && c < old(env).scopes().len()) ==> (pure_list(
                            arguments@,
                            old(env).scopes(),
                            c as int,
                        ) matches Some(Ok(vs)) ==> (vs.len() != ps.len() ==> r == Err::<
                            Value,
                            EvalError,
                        >(EvalError::WrongArity))))
                    },
                }) && match *function {
                    Expression::Function { parameters, body } => depth > 0 ==> (pure_list(
                        arguments@,
                        old(env).scopes(),
                        scope as int,
                    ) matches Some(Ok(vs)) ==> if vs.len() != parameters@.len() {
                        r == Err::<Value, EvalError>(EvalError::WrongArity)
                    } else {
                        (body@.len() == 1 && body@[0] is Expression) ==> (pure_eval_in(
                            body@[0]->Expression_0,
                            bind(parameters@, vs),
                            old(env).scopes(),
                            scope as int,
                        ) matches Some(spec) ==> meets(r, spec))
                    }),
                    _ => true,
                },
                _ => true,
            },
            pure_eval(*self, old(env).scopes(), scope as int) matches Some(spec) ==> meets(r, spec)
                && final(env).scopes() == old(env).scopes() && final(env).output() == old(env).output(),
        decreases depth, self, 1nat,
    {
        proof {
            lemma_grows_refl(*env);
        }
        match self {
            Expression::Infix { operator, lhs, rhs } => {
                let ghost before = *env;
                let lr = lhs.eval(env, scope, depth);
                proof {
                    assert(step(*env, lr));
                }
                let l = match lr {
                    Ok(v) => v,
                    Err(e) => {
                        return Err(e);
                    },
                };
                let ghost mid = *env;
                let rr = rhs.eval(env, scope, depth);
                proof {
                    assert(step(rr, rr));
                }
                let r = match rr {
                    Ok(v) => eval_infix(*operator, &l, &v),
                    Err(e) => Err(e),
                };
                proof {
                    lemma_grows_trans(before, mid, *env);
                }
                r
            },
            _ => Err(EvalError::TypeMismatch),
        }
    }

    /// Evaluates a `index` expression; see `eval`.
    #[verifier::rlimit(100)]
    fn eval_index_form(&self, env: &mut Environment, scope: usize, depth: usize) -> (r: Result<
        Value,
        EvalError,
    >)
        requires
            old(env).wf(),
            scope < old(env).scopes().len(),
            *self is Index,
        ensures
            grows(*old(env), *final(env)),
            eval_rel(*self, *old(env), scope as int, depth as nat, *final(env), r),
            match *self {
                Expression::Int(n) => r == Ok::<Value, EvalError>(Value::Int(n)),
                Expression::Bool(b) => r == Ok::<Value, EvalError>(Value::Bool(b)),
                Expression::String(s) => r is Ok && model(r->Ok_0) == ValueModel::Str(s@),
                Expression::Identifier(name) => {
                    &&& r is Ok
                    &&& model(r->Ok_0) == if name@ == null_name() {
                        ValueModel::Null
                    } else {
                        lookup_model(old(env).scopes(), scope as int, name@)
                    }
                    &&& final(env).scopes() == old(env).scopes()
                    &&& final(env).output() == old(env).output()
                },
                Expression::Function { parameters, body } => {
                    &&& r is Ok
                    &&& model(r->Ok_0) == ValueModel::Function {
                        parameters: names_model(parameters@),
                        environment: old(env).scopes().len(),
                    }
                    &&& r->Ok_0 is Function
                    &&& crate::ast::print::print_stmts(r->Ok_0->body@)
                        == crate::ast::print::print_stmts(body@)
                    &&& r->Ok_0->parameters@ == parameters@
                    &&& r->Ok_0->environment == old(env).scopes().len()
                    &&& r->Ok_0->body@.len() == body@.len()
                    &&& forall|i: int|
                        0 <= i < body@.len() ==> stmt_reads_alike(
                            #[trigger] body@[i],
                            r->Ok_0->body@[i],
                        )
                    &&& final(env).scopes().len() == old(env).scopes().len() + 1
                    &&& final(env).scopes().take(old(env).scopes().len() as int) == old(env).scopes()
                    &&& final(env).scopes().last().variables@.len() == 0
                    &&& final(env).scopes().last().outer == Some(scope)
                    &&& final(env).output() == old(env).output()
                },
                Expression::Call { function, arguments } => (pure_eval(
                    *function,
                    old(env).scopes(),
                    scope as int,
                ) matches Some(callee) ==> match callee {
                    Err(e) => r == Err::<Value, EvalError>(e),
                    Ok(m) => {
                        &&& !(m is Function || m is Builtin) ==> r == Err::<Value, EvalError>(
                            EvalError::TypeMismatch,
                        )
                        &&& (m is Function && depth == 0) ==> r == Err::<Value, EvalError>(
                            EvalError::CallDepth,
                        )
                        &&& m matches ValueModel::Builtin(b) ==> (pure_list(
                            arguments@,
                            old(env).scopes(),
                            scope as int,
                        ) matches Some(args) ==> match args {
                            Ok(vs) => r is Ok && model(r->Ok_0) == builtin_model(b, vs),
                            Err(e) => r == Err::<Value, EvalError>(e),
                        })
                        &&& m matches ValueModel::Function { parameters: ps, environment: c } ==> (
                        (depth > 0 && c < old(env).scopes().len()) ==> (pure_list(
                            arguments@,
                            old(env).scopes(),
                            c as int,
                        ) matches Some(Ok(vs)) ==> (vs.len() != ps.len() ==> r == Err::<
                            Value,
                            EvalError,
                        >(EvalError::WrongArity))))
                    },
                }) && match *function {
                    Expression::Function { parameters, body } => depth > 0 ==> (pure_list(
                        arguments@,
                        old(env).scopes(),
                        scope as int,
                    ) matches Some(Ok(vs)) ==> if vs.len() != parameters@.len() {
                        r == Err::<Value, EvalError>(EvalError::WrongArity)
                    } else {
                        (body@.len() == 1 && body@[0] is Expression) ==> (pure_eval_in(
                            body@[0]->Expression_0,
                            bind(parameters@, vs),
                            old(env).scopes(),
                            scope as int,
                        ) matches Some(spec) ==> meets(r, spec))
                    }),
                    _ => true,
                },
                _ => true,
            },
            pure_eval(*self, old(env).scopes(), scope as int) matches Some(spec) ==> meets(r, spec)
                && final(env).scopes() == old(env).scopes() && final(env).output() == old(env).output(),
        decreases depth, self, 1nat,
    {
        proof {
            lemma_grows_refl(*env);
        }
        match self {
            Expression::Index { lhs, idx } => {
                let ghost before = *env;
                let lr = lhs.eval(env, scope, depth);
                proof {
                    assert(step(*env, lr));
                }
                let l = match lr {
                    Ok(v) => v,
                    Err(e) => {
                        return Err(e);
                    },
                };
                let ghost mid = *env;
                let i = idx.eval(env, scope, depth);
                proof {
                    lemma_grows_trans(before, mid, *env);
                    assert(step(i, i));
                }
                let ghost lg = l;
                let ghost ig = i;
                let out = match (l, i) {
                    (_, Err(e)) => Err(e),
                    (Value::Array(items), Ok(Value::Int(n))) => {
                        proof {
                            lemma_models(items@);
                        }
                        let el = eval_array(items, n);
                        assert(el == semantics::array_element(items@, n));
                        Ok(el)
                    },
                    (Value::Hash(entries), Ok(Value::String(key))) => {
                        proof {
                            lemma_find_key_models(entries@, key@);
                            operators::lemma_find_key(entries@, key@);
                            crate::value::lemma_entry_models(entries@);
                        }
                        Ok(eval_hash(entries, &key))
                    },
                    _ => Err(EvalError::TypeMismatch),
                };
                proof {
                    if let Ok(iv) = ig {
                        assert(out == semantics::index_value(lg, iv));
                    }
                }
                out
            },
            _ => Err(EvalError::TypeMismatch),
        }
    }

    /// Calls `callee` with the arguments of a call expression. A built-in gets its
    /// arguments evaluated in the caller's scope; a closure gets a new scope inside
    /// the one it captured, where its arguments are evaluated and its parameters bound.
    fn eval_call(
        &self,
        callee: Value,
        arguments: &Vec<Expression>,
        env: &mut Environment,
        scope: usize,
        depth: usize,
    ) -> (r: Result<Value, EvalError>)
        requires
            old(env).wf(),
            scope < old(env).scopes().len(),
            *self is Call,
            arguments == self->arguments,
        ensures
            grows(*old(env), *final(env)),
            call_rel(callee, arguments@, *old(env), scope as int, depth as nat, *final(env), r),
            !(callee is Function || callee is BuiltinFunction) ==> r == Err::<Value, EvalError>(
                EvalError::TypeMismatch,
            ),
            callee is Function && depth == 0 ==> r == Err::<Value, EvalError>(
                EvalError::CallDepth,
            ),
            callee is BuiltinFunction ==> (pure_list(arguments@, old(env).scopes(), scope as int)
                matches Some(spec) ==> match spec {
                Ok(vs) => r is Ok && model(r->Ok_0) == builtin_model(callee->BuiltinFunction_0, vs),
                Err(e) => r == Err::<Value, EvalError>(e),
            }),
            callee is Function && depth > 0 && callee->environment < old(env).scopes().len() ==> (
            pure_list(arguments@, old(env).scopes(), callee->environment as int) matches Some(
                Ok(vs),
            ) ==> if vs.len() != callee->parameters@.len() {
                r == Err::<Value, EvalError>(EvalError::WrongArity)
            } else {
                (callee->body@.len() == 1 && callee->body@[0] is Expression) ==> (pure_eval_in(
                    callee->body@[0]->Expression_0,
                    bind(callee->parameters@, vs),
                    old(env).scopes(),
                    callee->environment as int,
                ) matches Some(spec) ==> meets(r, spec))
            }),
        decreases depth, self, 0nat,
    {
        proof {
            lemma_grows_refl(*env);
        }
        match callee {
            Value::BuiltinFunction(b) => {
                let ghost before = *env;
                let lr = eval_list(arguments, env, scope, depth);
                proof {
                    assert(step(*env, seq_of(lr)));
                }
                match lr {
                    Ok(args) => {
                        let ghost mid = *env;
                        let ghost argv = args@;
                        let r = env.call_builtin(b, args);
                        proof {
                            builtins::lemma_builtin_model(b, argv, r, mid.output(), env.output());
                            assert(env.output().take(mid.output().len() as int) == mid.output());
                            lemma_grows_trans(before, mid, *env);
                        }
                        Ok(r)
                    },
                    Err(e) => Err(e),
                }
            },
            Value::Function { parameters, body, environment } => {
                if depth == 0 {
                    return Err(EvalError::CallDepth);
                }
                if environment >= env.scope_count() {
                    return Err(EvalError::TypeMismatch);
                }
                let ghost before = *env;
                let ghost old_sc = before.scopes();
                let local = env.with_outer(environment);
                proof {
                    assert(env.output().take(before.output().len() as int) == env.output());
                }
                let ghost mid = *env;
                let ghost mid_sc = mid.scopes();
                proof {
                    assert(mid_sc == old_sc.push(mid_sc.last()));
                    assert forall|nm: Seq<char>|
                        #[trigger] resolve(Map::empty(), mid_sc, local as int, nm) == resolve(
                            Map::empty(),
                            old_sc,
                            environment as int,
                            nm,
                        ) by {
                        operators::lemma_find_key(mid_sc[local as int].variables@, nm);
                        lemma_lookup_push(old_sc, mid_sc.last(), environment as int, nm);
                    }
                    lemma_same_reading_list(
                        arguments@,
                        Map::empty(),
                        mid_sc,
                        local as int,
                        Map::empty(),
                        old_sc,
                        environment as int,
                    );
                }
                let lr = eval_list(arguments, env, local, depth);
                let ghost e2 = *env;
                proof {
                    assert(step(mid, (e2, seq_of(lr))));
                }
                let args = match lr {
                    Ok(args) => args,
                    Err(e) => {
                        proof {
                            lemma_grows_trans(before, mid, *env);
                        }
                        return Err(e);
                    },
                };
                proof {
                    lemma_grows_trans(before, mid, *env);
                }
                proof {
                    crate::value::lemma_models(args@);
                }
                if args.len() != parameters.len() {
                    return Err(EvalError::WrongArity);
                }
                let ghost values = args@;
                proof {
                    assert(parameters@.take(0) == Seq::<String>::empty());
                    assert(values.take(0) == Seq::<Value>::empty());
                    assert(binds_rel(e2, local as int, parameters@.take(0), values.take(0), *env));
                }
                let ghost vs = models(values);
                let ghost pure_args = pure_list(arguments@, old_sc, environment as int) is Some;
                proof {
                    crate::value::lemma_models(values);
                }
                let mut args = args;
                let mut k: usize = 0;
                while k < parameters.len()
                    invariant
                        k <= parameters@.len(),
                        values.len() == parameters@.len(),
                        vs == models(values),
                        vs.len() == values.len(),
                        forall|t: int| 0 <= t < vs.len() ==> #[trigger] vs[t] == model(values[t]),
                        args@.len() == parameters@.len() - k,
                        forall|t: int| 0 <= t < args@.len() ==> #[trigger] args@[t] == values[k + t],
                        grows(before, *env),
                        env.wf(),
                        local < env.scopes().len(),
                        local == mid_sc.len() - 1,
                        environment < local,
                        pure_args ==> env.scopes().len() == mid_sc.len(),
                        pure_args ==> forall|j: int|
                            0 <= j < mid_sc.len() && j != local ==> #[trigger] env.scopes()[j]
                                == mid_sc[j],
                        pure_args ==> env.scopes()[local as int].outer == Some(environment),
                        pure_args ==> forall|nm: Seq<char>|
                            #[trigger] operators::find_key(env.scopes()[local as int].variables@, nm)
                                is Some <==> bind(parameters@.take(k as int), vs.take(k as int)).contains_key(nm),
                        pure_args ==> forall|nm: Seq<char>|
                            bind(parameters@.take(k as int), vs.take(k as int)).contains_key(nm)
                                ==> model(
                                env.scopes()[local as int].variables@[operators::find_key(
                                    env.scopes()[local as int].variables@,
                                    nm,
                                )->Some_0].1,
                            ) == #[trigger] bind(parameters@.take(k as int), vs.take(k as int))[nm],
                        binds_rel(e2, local as int, parameters@.take(k as int), values.take(k as int), *env),
                    decreases parameters@.len() - k,
                {
                    let arg = args.remove(0);
                    let ghost prev = *env;
                    proof {
                        assert(parameters@.take(k + 1).drop_last() == parameters@.take(k as int));
                        assert(values.take(k + 1).drop_last() == values.take(k as int));
                        assert(parameters@.take(k + 1).last() == parameters@[k as int]);
                        assert(values.take(k + 1).last() == values[k as int]);
                        assert(step(prev, prev));
                    }
                    let ghost vars = prev.scopes()[local as int].variables@;
                    let name = parameters[k].clone();
                    env.set(local, name, arg);
                    proof {
                        lemma_grows_step(before, prev, *env);
                    }
                    proof {
                        if pure_args {
                            operators::lemma_find_key(vars, name@);
                            let vars2 = env.scopes()[local as int].variables@;
                            let b0 = bind(parameters@.take(k as int), vs.take(k as int));
                            let b1 = bind(parameters@.take(k + 1), vs.take(k + 1));
                            assert(parameters@.take(k + 1).drop_last() == parameters@.take(k as int));
                            assert(vs.take(k + 1).drop_last() == vs.take(k as int));
                            assert(b1 == b0.insert(parameters@[k as int]@, vs[k as int]));
                            assert(arg == values[k as int]);
                            assert forall|nm: Seq<char>|
                                #[trigger] operators::find_key(vars2, nm) is Some <==> b1.contains_key(
                                    nm,
                                ) by {
                                operators::lemma_find_key(vars, nm);
                                match operators::find_key(vars, name@) {
                                    Some(j) => {
                                        lemma_find_key_update(vars, j, (name, arg), nm);
                                    },
                                    None => {
                                        lemma_find_key_push(vars, (name, arg), nm);
                                    },
                                }
                            }
                            assert forall|nm: Seq<char>| b1.contains_key(nm) implies model(
                                vars2[operators::find_key(vars2, nm)->Some_0].1,
                            ) == #[trigger] b1[nm] by {
                                operators::lemma_find_key(vars, nm);
                                operators::lemma_find_key(vars, name@);
                                match operators::find_key(vars, name@) {
                                    Some(j) => {
                                        lemma_find_key_update(vars, j, (name, arg), nm);
                                    },
                                    None => {
                                        lemma_find_key_push(vars, (name, arg), nm);
                                    },
                                }
                            }
                        }
                    }
                    k = k + 1;
                }
                let ghost bound_env = *env;
                proof {
                    if pure_args {
                        assert(parameters@.take(parameters@.len() as int) == parameters@);
                        assert(vs.take(vs.len() as int) == vs);
                        let sc2 = env.scopes();
                        let bnd = bind(parameters@, vs);
                        assert forall|nm: Seq<char>|
                            #[trigger] resolve(Map::empty(), sc2, local as int, nm) == resolve(
                                bnd,
                                old_sc,
                                environment as int,
                                nm,
                            ) by {
                            operators::lemma_find_key(sc2[local as int].variables@, nm);
                            lemma_lookup_same_prefix(sc2, mid_sc, environment as int, nm);
                            lemma_lookup_push(old_sc, mid_sc.last(), environment as int, nm);
                        }
                        if body@.len() == 1 && body@[0] is Expression {
                            lemma_same_reading(
                                body@[0]->Expression_0,
                                Map::empty(),
                                sc2,
                                local as int,
                                bnd,
                                old_sc,
                                environment as int,
                            );
                            lemma_pure_no_return(body@[0]->Expression_0, bnd, old_sc, environment as int);
                        }
                    }
                }
                proof {
                    assert(parameters@.take(parameters@.len() as int) == parameters@);
                    assert(values.take(values.len() as int) == values);
                }
                let result = eval_block(&body, env, local, depth - 1);
                proof {
                    lemma_grows_trans(before, bound_env, *env);
                    assert(step(bound_env, result));
                }
                match result {
                    Ok(Value::Return(v)) => Ok(*v),
                    Ok(v) => Ok(v),
                    Err(e) => Err(e),
                }
            },
            _ => Err(EvalError::TypeMismatch),
        }
    }
}

/// What a program of `let`s, `return`s and read-only expression statements
/// evaluates to in the outermost scope: names bound by the `let`s so far read as
/// `bound` gives them, and `last` is the value of the statement before.
pub open spec fn straight_line(
    ss: Seq<Statement>,
    bound: Map<Seq<char>, ValueModel>,
    scopes: Seq<Scope>,
    last: ValueModel,
) -> Option<Result<ValueModel, EvalError>>
    decreases ss.len(),
{
    if ss.len() == 0 {
        Some(Ok(last))
    } else {
        match ss[0] {
            Statement::Let { name, value } => if is_builtin_name(name@) {
                Some(Err(EvalError::BuiltinOverride))
            } else {
                match pure_eval_in(value, bound, scopes, 0) {
                    Some(Ok(m)) => straight_line(ss.drop_first(), bound.insert(name@, m), scopes, m),
                    Some(Err(e)) => Some(Err(e)),
                    None => None,
                }
            },
            Statement::Expression(e) => match pure_eval_in(e, bound, scopes, 0) {
                Some(Ok(m)) => straight_line(ss.drop_first(), bound, scopes, m),
                other => other,
            },
            Statement::Return { value } => pure_eval_in(value, bound, scopes, 0),
            Statement::Block(_) => None,
        }
    }
}

impl Program {
    /// Runs the program in the outermost scope of `env`. A `return` at any level
    /// ends the program with its value, unwrapped.
    pub fn eval(&self, env: &mut Environment) -> (r: Result<Value, EvalError>)
        requires
            old(env).wf(),
        ensures
            grows(*old(env), *final(env)),
            exists|br: Result<Value, EvalError>|
                #[trigger] block_rel(self.statements@, *old(env), 0, MAX_CALL_DEPTH as nat, *final(env), br)
                    && r == match br {
                    Ok(v) => Ok::<Value, EvalError>(unwrapped(v)),
                    Err(e) => Err::<Value, EvalError>(e),
                },
            r is Ok ==> !(r->Ok_0 is Return),
            self.statements@.len() == 0 ==> r == Ok::<Value, EvalError>(Value::Null),
            self.statements@.len() == 1 ==> match self.statements@[0] {
                Statement::Expression(e) => pure_eval(e, old(env).scopes(), 0) matches Some(spec)
                    ==> meets(r, spec),
                _ => true,
            },
            straight_line(self.statements@, Map::empty(), old(env).scopes(), ValueModel::Null) matches Some(
                spec,
            ) ==> meets(r, spec),
    {
        proof {
            lemma_grows_refl(*env);
        }
        let ghost old_sc = env.scopes();
        let ghost sl = straight_line(self.statements@, Map::empty(), old_sc, ValueModel::Null);
        let ghost mut bnd: Map<Seq<char>, ValueModel> = Map::empty();
        proof {
            assert(self.statements@.skip(0) == self.statements@);
        }
        let mut result = Value::Null;
        let mut i: usize = 0;
        while i < self.statements.len()
            invariant
                i <= self.statements@.len(),
                grows(*old(env), *env),
                env.scopes().len() >= 1,
                !(result is Return),
                self.statements@.len() == 0 ==> result == Value::Null,
                i == 0 ==> env.scopes() == old(env).scopes(),
                (self.statements@.len() == 1 && i == 1) ==> match self.statements@[0] {
                    Statement::Expression(e) => match pure_eval(e, old(env).scopes(), 0) {
                        Some(Ok(m)) => model(result) == m,
                        Some(Err(_)) => false,
                        None => true,
                    },
                    _ => true,
                },
                old_sc == old(env).scopes(),
                sl == straight_line(self.statements@, Map::empty(), old_sc, ValueModel::Null),
                sl is Some ==> straight_line(self.statements@.skip(i as int), bnd, old_sc, model(result))
                    == sl,
                sl is Some ==> forall|n: Seq<char>|
                    #[trigger] resolve(Map::empty(), env.scopes(), 0, n) == resolve(bnd, old_sc, 0, n),
                block_rel(
                    self.statements@.take(i as int),
                    *old(env),
                    0,
                    MAX_CALL_DEPTH as nat,
                    *env,
                    Ok::<Value, EvalError>(result),
                ),
            decreases self.statements@.len() - i,
        {
            let ghost before = *env;
            let ghost st = self.statements@[i as int];
            let ghost rest = self.statements@.skip(i as int);
            proof {
                assert(rest[0] == st);
                assert(rest.drop_first() == self.statements@.skip(i + 1));
                if sl is Some {
                    match st {
                        Statement::Let { name, value } => {
                            lemma_same_reading(value, Map::empty(), env.scopes(), 0, bnd, old_sc, 0);
                            lemma_pure_no_return(value, bnd, old_sc, 0);
                        },
                        Statement::Expression(e) => {
                            lemma_same_reading(e, Map::empty(), env.scopes(), 0, bnd, old_sc, 0);
                            lemma_pure_no_return(e, bnd, old_sc, 0);
                        },
                        Statement::Return { value } => {
                            lemma_same_reading(value, Map::empty(), env.scopes(), 0, bnd, old_sc, 0);
                            lemma_pure_no_return(value, bnd, old_sc, 0);
                        },
                        _ => {},
                    }
                }
            }
            let ghost env_before = env.scopes();
            let ghost prev = result;
            let ghost prefix = self.statements@.take(i + 1);
            proof {
                assert(prefix.drop_last() == self.statements@.take(i as int));
                assert(prefix.last() == self.statements@[i as int]);
            }
            let v = self.statements[i].eval(env, 0, MAX_CALL_DEPTH);
            proof {
                assert(step(before, Ok::<Value, EvalError>(prev)));
                assert(block_rel(prefix, *old(env), 0, MAX_CALL_DEPTH as nat, *env, v));
            }
            proof {
                if let Statement::Expression(e) = self.statements@[i as int] {
                    if let Some(Ok(m)) = pure_eval(e, old(env).scopes(), 0) {
                        lemma_pure_no_return(e, Map::empty(), old(env).scopes(), 0);
                    }
                }
            }
            proof {
                lemma_grows_trans(*old(env), before, *env);
            }
            match v {
                Ok(Value::Return(inner)) => {
                    proof {
                        semantics::lemma_block_stops(
                            self.statements@,
                            i + 1,
                            *old(env),
                            0,
                            MAX_CALL_DEPTH as nat,
                            *env,
                            Ok::<Value, EvalError>(Value::Return(inner)),
                        );
                    }
                    return Ok(unwrap_returns(*inner));
                },
                Ok(v) => {
                    proof {
                        if sl is Some {
                            if let Statement::Let { name, value } = st {
                                let m = model(v);
                                assert forall|n: Seq<char>|
                                    #[trigger] resolve(Map::empty(), env.scopes(), 0, n) == resolve(
                                        bnd.insert(name@, m),
                                        old_sc,
                                        0,
                                        n,
                                    ) by {
                                    assert(resolve(Map::empty(), env_before, 0, n) == resolve(
                                        bnd,
                                        old_sc,
                                        0,
                                        n,
                                    ));
                                }
                                bnd = bnd.insert(name@, m);
                            }
                        }
                    }
                    result = v;
                },
                Err(e) => {
                    proof {
                        semantics::lemma_block_stops(
                            self.statements@,
                            i + 1,
                            *old(env),
                            0,
                            MAX_CALL_DEPTH as nat,
                            *env,
                            Err::<Value, EvalError>(e),
                        );
                    }
                    return Err(e);
                },
            }
            i = i + 1;
        }
        proof {
            assert(self.statements@.skip(i as int).len() == 0);
            assert(self.statements@.take(i as int) == self.statements@);
        }
        Ok(result)
    }
}

/// Takes a value out of any `return` wrappers around it.
fn unwrap_returns(v: Value) -> (r: Value)
    ensures
        r == unwrapped(v),
        !(r is Return),
        !(v is Return) ==> r == v,
    decreases v,
{
    match v {
        Value::Return(inner) => unwrap_returns(*inner),
        other => other,
    }
}

} // verus!
