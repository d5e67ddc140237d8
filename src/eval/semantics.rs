//! The evaluator's big-step semantics: what evaluating each form does to the
//! environment and which result it gives, stated from the results of its parts.
//! Intermediate environments and results are bound by `exists`.
use vstd::prelude::*;

use super::builtins::{builtin_result, is_builtin_name};
use super::environment::{lookup_model, push_scope, set_effect, Environment};
use super::operators::{find_key, infix_spec, meets, prefix_spec};
use super::{null_name, truthy, EvalError};
use crate::ast::{Expression, Statement};
use crate::value::{model, Value, ValueModel};

verus! {

/// The element that indexing an array with `n` gives: counted from the start when
/// `0 <= n`, once from the end when `-len <= n < 0`, else `null`.
pub open spec fn array_element(items: Seq<Value>, n: i64) -> Value {
    let len = items.len() as int;
    if 0 <= n < len {
        items[n as int]
    } else if -len <= n < 0 {
        items[n + len]
    } else {
        Value::Null
    }
}

/// What the index operator gives for an evaluated container and index.
pub open spec fn index_value(l: Value, i: Value) -> Result<Value, EvalError> {
    match (l, i) {
        (Value::Array(items), Value::Int(n)) => Ok(array_element(items@, n)),
        (Value::Hash(entries), Value::String(key)) => Ok(
            match find_key(entries@, key@) {
                Some(j) => entries@[j].1,
                None => Value::Null,
            },
        ),
        _ => Err(EvalError::TypeMismatch),
    }
}

/// Map entries with `key` bound to `value`: replaced where the key stands, else
/// appended.
pub open spec fn insert_seq(es: Seq<(String, Value)>, key: String, value: Value) -> Seq<
    (String, Value),
> {
    match find_key(es, key@) {
        Some(j) => es.update(j, (key, value)),
        None => es.push((key, value)),
    }
}

/// Takes a value out of every `return` wrapper around it.
pub open spec fn unwrapped(v: Value) -> Value
    decreases v,
{
    match v {
        Value::Return(inner) => unwrapped(*inner),
        _ => v,
    }
}

/// Names an intermediate environment and result, so that proofs can point at them:
/// it is the trigger of the `exists` in the relations below.
pub open spec fn step<A, B>(a: A, b: B) -> bool {
    true
}

/// Evaluating `e` in scope `scope` with call depth `depth` turns `before` into
/// `after` and gives `r`.
pub open spec fn eval_rel(
    e: Expression,
    before: Environment,
    scope: int,
    depth: nat,
    after: Environment,
    r: Result<Value, EvalError>,
) -> bool
    decreases depth, e,
{
    match e {
        Expression::Int(n) => after == before && r == Ok::<Value, EvalError>(Value::Int(n)),
        Expression::Bool(b) => after == before && r == Ok::<Value, EvalError>(Value::Bool(b)),
        Expression::String(s) => after == before && r is Ok && r->Ok_0 is String
            && r->Ok_0->String_0@ == s@,
        Expression::Identifier(name) => after == before && r is Ok && model(r->Ok_0) == if name@
            == null_name() {
            ValueModel::Null
        } else {
            lookup_model(before.scopes(), scope, name@)
        },
        Expression::Array(items) => exists|lr: Result<Seq<Value>, EvalError>|
            #[trigger] step(lr, lr) && list_rel(items@, before, scope, depth, after, lr) && match lr {
                Ok(vs) => r is Ok && r->Ok_0 is Array && r->Ok_0->Array_0@ == vs,
                Err(err) => r == Err::<Value, EvalError>(err),
            },
        Expression::Hash(pairs) => exists|hr: Result<Seq<(String, Value)>, EvalError>|
            #[trigger] step(hr, hr) && hash_rel(pairs@, before, scope, depth, after, hr) && match hr {
                Ok(es) => r is Ok && r->Ok_0 is Hash && r->Ok_0->Hash_0@ == es,
                Err(err) => r == Err::<Value, EvalError>(err),
            },
        Expression::Prefix { operator, rhs } => exists|vr: Result<Value, EvalError>|
            #[trigger] step(vr, vr) && eval_rel(*rhs, before, scope, depth, after, vr) && match vr {
                Ok(v) => meets(r, prefix_spec(operator, model(v))),
                Err(err) => r == Err::<Value, EvalError>(err),
            },
        Expression::Infix { operator, lhs, rhs } => exists|mid: Environment, lr: Result<Value, EvalError>|
            #[trigger] step(mid, lr) && eval_rel(*lhs, before, scope, depth, mid, lr) && match lr {
                Err(err) => after == mid && r == Err::<Value, EvalError>(err),
                Ok(l) => exists|rr: Result<Value, EvalError>|
                    #[trigger] step(rr, rr) && eval_rel(*rhs, mid, scope, depth, after, rr) && match rr {
                        Ok(v) => meets(r, infix_spec(operator, model(l), model(v))),
                        Err(err) => r == Err::<Value, EvalError>(err),
                    },
            },
        Expression::Index { lhs, idx } => exists|mid: Environment, lr: Result<Value, EvalError>|
            #[trigger] step(mid, lr) && eval_rel(*lhs, before, scope, depth, mid, lr) && match lr {
                Err(err) => after == mid && r == Err::<Value, EvalError>(err),
                Ok(l) => exists|ir: Result<Value, EvalError>|
                    #[trigger] step(ir, ir) && eval_rel(*idx, mid, scope, depth, after, ir) && match ir {
                        Ok(i) => r == index_value(l, i),
                        Err(err) => r == Err::<Value, EvalError>(err),
                    },
            },
        Expression::Condition { condition, consequence, alternative } => exists|
            mid: Environment,
            cr: Result<Value, EvalError>,
        |
            #[trigger] step(mid, cr) && eval_rel(*condition, before, scope, depth, mid, cr) && match cr {
                Err(err) => after == mid && r == Err::<Value, EvalError>(err),
                Ok(c) => match truthy(model(c)) {
                    None => after == mid && r == Err::<Value, EvalError>(EvalError::TypeMismatch),
                    Some(true) => block_rel(consequence@, mid, scope, depth, after, r),
                    Some(false) => match alternative {
                        Some(alt) => block_rel(alt@, mid, scope, depth, after, r),
                        None => after == mid && r == Ok::<Value, EvalError>(Value::Null),
                    },
                },
            },
        Expression::Function { parameters, body } => {
            &&& push_scope(before, scope, after)
            &&& r is Ok
            &&& r->Ok_0 is Function
            &&& r->Ok_0->parameters@ == parameters@
            &&& r->Ok_0->environment == before.scopes().len()
            &&& r->Ok_0->body@.len() == body@.len()
        },
        Expression::Call { function, arguments } => exists|mid: Environment, fr: Result<Value, EvalError>|
            #[trigger] step(mid, fr) && eval_rel(*function, before, scope, depth, mid, fr) && match fr {
                Err(err) => after == mid && r == Err::<Value, EvalError>(err),
                Ok(callee) => call_rel(callee, arguments@, mid, scope, depth, after, r),
            },
    }
}

/// Calling `callee` on the argument expressions `args` from scope `scope`. A
/// built-in gets its arguments evaluated in `scope`; a closure gets a new scope
/// inside the one it captured, where its arguments are evaluated left to right and
/// then bound, before its body runs one call level deeper; a `return` from the body
/// is unwrapped once.
pub open spec fn call_rel(
    callee: Value,
    args: Seq<Expression>,
    before: Environment,
    scope: int,
    depth: nat,
    after: Environment,
    r: Result<Value, EvalError>,
) -> bool
    decreases depth, args, 1nat,
{
    match callee {
        Value::BuiltinFunction(b) => exists|mid: Environment, ar: Result<Seq<Value>, EvalError>|
            #[trigger] step(mid, ar) && list_rel(args, before, scope, depth, mid, ar) && match ar {
                Err(err) => after == mid && r == Err::<Value, EvalError>(err),
                Ok(vs) => after.scopes() == mid.scopes() && after.wf() && r is Ok && builtin_result(
                    b,
                    vs,
                    r->Ok_0,
                    mid.output(),
                    after.output(),
                ),
            },
        Value::Function { parameters, body, environment } => if depth == 0 {
            after == before && r == Err::<Value, EvalError>(EvalError::CallDepth)
        } else if environment >= before.scopes().len() {
            after == before && r == Err::<Value, EvalError>(EvalError::TypeMismatch)
        } else {
            let local = before.scopes().len() as int;
            exists|e1: Environment, e2: Environment, ar: Result<Seq<Value>, EvalError>|
                #![trigger step(e1, (e2, ar))]
                step(e1, (e2, ar)) && push_scope(before, environment as int, e1) && list_rel(args, e1, local, depth, e2, ar)
                    && match ar {
                    Err(err) => after == e2 && r == Err::<Value, EvalError>(err),
                    Ok(vs) => if vs.len() != parameters@.len() {
                        after == e2 && r == Err::<Value, EvalError>(EvalError::WrongArity)
                    } else {
                        exists|e3: Environment, br: Result<Value, EvalError>|
                            #![trigger step(e3, br)]
                            step(e3, br) && binds_rel(e2, local, parameters@, vs, e3) && block_rel(
                                body@,
                                e3,
                                local,
                                (depth - 1) as nat,
                                after,
                                br,
                            ) && r == match br {
                                Ok(Value::Return(v)) => Ok::<Value, EvalError>(*v),
                                other => other,
                            }
                    },
                }
        },
        _ => after == before && r == Err::<Value, EvalError>(EvalError::TypeMismatch),
    }
}

/// Binding the names `ps` to the values `vs` one after the other in scope `scope`.
pub open spec fn binds_rel(
    before: Environment,
    scope: int,
    ps: Seq<String>,
    vs: Seq<Value>,
    after: Environment,
) -> bool
    decreases ps.len(),
{
    if ps.len() == 0 || vs.len() == 0 {
        after == before
    } else {
        exists|mid: Environment|
            #[trigger] step(mid, mid) && binds_rel(before, scope, ps.drop_last(), vs.drop_last(), mid) && set_effect(
                mid,
                scope,
                ps.last(),
                vs.last(),
                after,
            )
    }
}

/// Evaluating expressions left to right; the first error stops.
pub open spec fn list_rel(
    es: Seq<Expression>,
    before: Environment,
    scope: int,
    depth: nat,
    after: Environment,
    r: Result<Seq<Value>, EvalError>,
) -> bool
    decreases depth, es, 0nat,
{
    if es.len() == 0 {
        after == before && r == Ok::<Seq<Value>, EvalError>(seq![])
    } else {
        exists|mid: Environment, pr: Result<Seq<Value>, EvalError>|
            #[trigger] step(mid, pr) && list_rel(es.drop_last(), before, scope, depth, mid, pr) && match pr {
                Err(err) => after == mid && r == Err::<Seq<Value>, EvalError>(err),
                Ok(vs) => exists|lr: Result<Value, EvalError>|
                    #[trigger] step(lr, lr) && eval_rel(es.last(), mid, scope, depth, after, lr) && match lr {
                        Ok(v) => r == Ok::<Seq<Value>, EvalError>(vs.push(v)),
                        Err(err) => r == Err::<Seq<Value>, EvalError>(err),
                    },
            }
    }
}

/// Evaluating the entries of a map literal in order, key then value; a key must be
/// a string, and a later entry replaces an earlier one with the same key.
pub open spec fn hash_rel(
    ps: Seq<(Expression, Expression)>,
    before: Environment,
    scope: int,
    depth: nat,
    after: Environment,
    r: Result<Seq<(String, Value)>, EvalError>,
) -> bool
    decreases depth, ps, 0nat,
{
    if ps.len() == 0 {
        after == before && r == Ok::<Seq<(String, Value)>, EvalError>(seq![])
    } else {
        exists|mid: Environment, pr: Result<Seq<(String, Value)>, EvalError>|
            #[trigger] step(mid, pr) && hash_rel(ps.drop_last(), before, scope, depth, mid, pr) && match pr {
                Err(err) => after == mid && r == Err::<Seq<(String, Value)>, EvalError>(err),
                Ok(es) => exists|m2: Environment, kr: Result<Value, EvalError>|
                    #[trigger] step(m2, kr) && eval_rel(ps.last().0, mid, scope, depth, m2, kr) && match kr {
                        Err(err) => after == m2 && r == Err::<Seq<(String, Value)>, EvalError>(err),
                        Ok(Value::String(k)) => exists|vr: Result<Value, EvalError>|
                            #[trigger] step(vr, vr) && eval_rel(ps.last().1, m2, scope, depth, after, vr) && match vr {
                                Ok(v) => r == Ok::<Seq<(String, Value)>, EvalError>(
                                    insert_seq(es, k, v),
                                ),
                                Err(err) => r == Err::<Seq<(String, Value)>, EvalError>(err),
                            },
                        Ok(_) => after == m2 && r == Err::<Seq<(String, Value)>, EvalError>(
                            EvalError::TypeMismatch,
                        ),
                    },
            }
    }
}

/// Evaluating a statement.
pub open spec fn stmt_rel(
    s: Statement,
    before: Environment,
    scope: int,
    depth: nat,
    after: Environment,
    r: Result<Value, EvalError>,
) -> bool
    decreases depth, s,
{
    match s {
        Statement::Expression(e) => eval_rel(e, before, scope, depth, after, r),
        Statement::Let { name, value } => if is_builtin_name(name@) {
            after == before && r == Err::<Value, EvalError>(EvalError::BuiltinOverride)
        } else {
            exists|mid: Environment, vr: Result<Value, EvalError>|
                #[trigger] step(mid, vr) && eval_rel(value, before, scope, depth, mid, vr) && match vr {
                    Err(err) => after == mid && r == Err::<Value, EvalError>(err),
                    Ok(v) => set_effect(mid, scope, name, v, after) && r is Ok && model(r->Ok_0)
                        == model(v),
                }
        },
        Statement::Return { value } => exists|vr: Result<Value, EvalError>|
            #[trigger] step(vr, vr) && eval_rel(value, before, scope, depth, after, vr) && r == match vr {
                Ok(v) => Ok::<Value, EvalError>(Value::Return(Box::new(v))),
                Err(err) => Err::<Value, EvalError>(err),
            },
        Statement::Block(ss) => block_rel(ss@, before, scope, depth, after, r),
    }
}

/// Evaluating statements in order in one scope: the first error stops, and so does
/// the first `return`, whose value comes out still wrapped; otherwise the value of
/// the last statement, or `null` for none.
pub open spec fn block_rel(
    ss: Seq<Statement>,
    before: Environment,
    scope: int,
    depth: nat,
    after: Environment,
    r: Result<Value, EvalError>,
) -> bool
    decreases depth, ss,
{
    if ss.len() == 0 {
        after == before && r == Ok::<Value, EvalError>(Value::Null)
    } else {
        exists|mid: Environment, pr: Result<Value, EvalError>|
            #[trigger] step(mid, pr) && block_rel(ss.drop_last(), before, scope, depth, mid, pr) && match pr {
                Err(err) => after == mid && r == Err::<Value, EvalError>(err),
                Ok(v) => if v is Return {
                    after == mid && r == Ok::<Value, EvalError>(v)
                } else {
                    stmt_rel(ss.last(), mid, scope, depth, after, r)
                },
            }
    }
}

/// A block that stops early, on an error or a `return`, gives the same on every
/// longer block.
pub proof fn lemma_block_stops(
    ss: Seq<Statement>,
    k: int,
    before: Environment,
    scope: int,
    depth: nat,
    after: Environment,
    r: Result<Value, EvalError>,
)
    requires
        0 <= k <= ss.len(),
        block_rel(ss.take(k), before, scope, depth, after, r),
        r is Err || (r is Ok && r->Ok_0 is Return),
    ensures
        block_rel(ss, before, scope, depth, after, r),
    decreases ss.len() - k,
{
    if k == ss.len() {
        assert(ss.take(k) == ss);
    } else {
        let next = ss.take(k + 1);
        assert(next.drop_last() == ss.take(k));
        assert(block_rel(next.drop_last(), before, scope, depth, after, r));
        assert(step(after, r));
        assert(block_rel(next, before, scope, depth, after, r));
        lemma_block_stops(ss, k + 1, before, scope, depth, after, r);
    }
}

/// A list that stops on an error gives that error on every longer list.
pub proof fn lemma_list_stops(
    es: Seq<Expression>,
    k: int,
    before: Environment,
    scope: int,
    depth: nat,
    after: Environment,
    err: EvalError,
)
    requires
        0 <= k <= es.len(),
        list_rel(es.take(k), before, scope, depth, after, Err::<Seq<Value>, EvalError>(err)),
    ensures
        list_rel(es, before, scope, depth, after, Err::<Seq<Value>, EvalError>(err)),
    decreases es.len() - k,
{
    if k == es.len() {
        assert(es.take(k) == es);
    } else {
        let next = es.take(k + 1);
        assert(next.drop_last() == es.take(k));
        assert(list_rel(next.drop_last(), before, scope, depth, after, Err::<Seq<Value>, EvalError>(err)));
        assert(step(after, Err::<Seq<Value>, EvalError>(err)));
        assert(list_rel(next, before, scope, depth, after, Err::<Seq<Value>, EvalError>(err)));
        lemma_list_stops(es, k + 1, before, scope, depth, after, err);
    }
}

/// Map entries that stop on an error give that error on every longer list.
pub proof fn lemma_hash_stops(
    ps: Seq<(Expression, Expression)>,
    k: int,
    before: Environment,
    scope: int,
    depth: nat,
    after: Environment,
    err: EvalError,
)
    requires
        0 <= k <= ps.len(),
        hash_rel(ps.take(k), before, scope, depth, after, Err::<Seq<(String, Value)>, EvalError>(err)),
    ensures
        hash_rel(ps, before, scope, depth, after, Err::<Seq<(String, Value)>, EvalError>(err)),
    decreases ps.len() - k,
{
    if k == ps.len() {
        assert(ps.take(k) == ps);
    } else {
        let next = ps.take(k + 1);
        assert(next.drop_last() == ps.take(k));
        assert(hash_rel(
            next.drop_last(),
            before,
            scope,
            depth,
            after,
            Err::<Seq<(String, Value)>, EvalError>(err),
        ));
        assert(step(after, Err::<Seq<(String, Value)>, EvalError>(err)));
        assert(hash_rel(next, before, scope, depth, after, Err::<Seq<(String, Value)>, EvalError>(err)));
        lemma_hash_stops(ps, k + 1, before, scope, depth, after, err);
    }
}

} // verus!
