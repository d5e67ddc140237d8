use vstd::prelude::*;

use super::print::{print_expr, print_exprs, print_pairs, print_stmt, print_stmts};
use crate::eval::environment::Scope;
use crate::eval::{
    lemma_block_reads_alike, lemma_hash_reads_alike, lemma_list_reads_alike, pure_block,
    pure_eval_in, pure_hash, pure_list_in,
    reads_alike, stmt_reads_alike,
};
use crate::value::ValueModel;
use super::{InfixOperator, PrefixOperator, Statement};

verus! {

#[derive(Debug, PartialEq, Eq)]
pub enum Expression {
    Int(i64),
    Bool(bool),
    String(String),
    Identifier(String),
    Array(Vec<Expression>),
    /// Key and value expressions, in the order of the source.
    Hash(Vec<(Expression, Expression)>),
    Condition {
        condition: Box<Expression>,
        consequence: Vec<Statement>,
        alternative: Option<Vec<Statement>>,
    },
    Function { parameters: Vec<String>, body: Vec<Statement> },
    Call { function: Box<Expression>, arguments: Vec<Expression> },
    Prefix { operator: PrefixOperator, rhs: Box<Expression> },
    Infix { operator: InfixOperator, lhs: Box<Expression>, rhs: Box<Expression> },
    Index { lhs: Box<Expression>, idx: Box<Expression> },
}

impl From<i64> for Expression {
    /// An integer literal.
    fn from(value: i64) -> (r: Expression) {
        Expression::Int(value)
    }
}

impl vstd::std_specs::convert::FromSpecImpl<i64> for Expression {
    open spec fn obeys_from_spec() -> bool {
        true
    }

    open spec fn from_spec(value: i64) -> Expression {
        Expression::Int(value)
    }
}

impl From<bool> for Expression {
    /// A boolean literal.
    fn from(value: bool) -> (r: Expression) {
        Expression::Bool(value)
    }
}

impl vstd::std_specs::convert::FromSpecImpl<bool> for Expression {
    open spec fn obeys_from_spec() -> bool {
        true
    }

    open spec fn from_spec(value: bool) -> Expression {
        Expression::Bool(value)
    }
}

impl From<String> for Expression {
    /// An identifier.
    fn from(value: String) -> (r: Expression) {
        Expression::Identifier(value)
    }
}

impl vstd::std_specs::convert::FromSpecImpl<String> for Expression {
    open spec fn obeys_from_spec() -> bool {
        true
    }

    open spec fn from_spec(value: String) -> Expression {
        Expression::Identifier(value)
    }
}

proof fn lemma_print_exprs_pointwise(a: Seq<Expression>, b: Seq<Expression>)
    requires
        a.len() == b.len(),
        forall|i: int| 0 <= i < a.len() ==> print_expr(#[trigger] a[i]) == print_expr(b[i]),
    ensures
        print_exprs(a) == print_exprs(b),
    decreases a.len(),
{
    if a.len() > 0 {
        lemma_print_exprs_pointwise(a.drop_last(), b.drop_last());
    }
}

proof fn lemma_print_pairs_pointwise(a: Seq<(Expression, Expression)>, b: Seq<(Expression, Expression)>)
    requires
        a.len() == b.len(),
        forall|i: int|
            0 <= i < a.len() ==> print_expr((#[trigger] a[i]).0) == print_expr(b[i].0) && print_expr(
                a[i].1,
            ) == print_expr(b[i].1),
    ensures
        print_pairs(a) == print_pairs(b),
    decreases a.len(),
{
    if a.len() > 0 {
        lemma_print_pairs_pointwise(a.drop_last(), b.drop_last());
    }
}

pub proof fn lemma_print_stmts_pointwise(a: Seq<Statement>, b: Seq<Statement>)
    requires
        a.len() == b.len(),
        forall|i: int| 0 <= i < a.len() ==> print_stmt(#[trigger] a[i]) == print_stmt(b[i]),
    ensures
        print_stmts(a) == print_stmts(b),
    decreases a.len(),
{
    if a.len() > 0 {
        lemma_print_stmts_pointwise(a.drop_last(), b.drop_last());
    }
}

fn duplicate_exprs(es: &Vec<Expression>) -> (r: Vec<Expression>)
    ensures
        r@.len() == es@.len(),
        forall|i: int| 0 <= i < es@.len() ==> print_expr(#[trigger] r@[i]) == print_expr(es@[i]),
        print_exprs(r@) == print_exprs(es@),
        forall|i: int| 0 <= i < es@.len() ==> reads_alike(#[trigger] es@[i], r@[i]),
    decreases es,
{
    let mut out: Vec<Expression> = Vec::new();
    let mut i: usize = 0;
    while i < es.len()
        invariant
            i <= es@.len(),
            out@.len() == i,
            forall|k: int| 0 <= k < i ==> print_expr(#[trigger] out@[k]) == print_expr(es@[k]),
            forall|k: int| 0 <= k < i ==> reads_alike(#[trigger] es@[k], out@[k]),
        decreases es@.len() - i,
    {
        out.push(es[i].duplicate());
        i = i + 1;
    }
    proof {
        lemma_print_exprs_pointwise(out@, es@);
    }
    out
}

fn duplicate_pairs(ps: &Vec<(Expression, Expression)>) -> (r: Vec<(Expression, Expression)>)
    ensures
        print_pairs(r@) == print_pairs(ps@),
        r@.len() == ps@.len(),
        forall|i: int|
            0 <= i < ps@.len() ==> reads_alike((#[trigger] ps@[i]).0, r@[i].0) && reads_alike(
                ps@[i].1,
                r@[i].1,
            ),
    decreases ps,
{
    let mut out: Vec<(Expression, Expression)> = Vec::new();
    let mut i: usize = 0;
    while i < ps.len()
        invariant
            i <= ps@.len(),
            out@.len() == i,
            forall|k: int|
                0 <= k < i ==> reads_alike((#[trigger] ps@[k]).0, out@[k].0) && reads_alike(
                    ps@[k].1,
                    out@[k].1,
                ),
            forall|k: int|
                0 <= k < i ==> print_expr((#[trigger] out@[k]).0) == print_expr(ps@[k].0)
                    && print_expr(out@[k].1) == print_expr(ps@[k].1),
        decreases ps@.len() - i,
    {
        out.push((ps[i].0.duplicate(), ps[i].1.duplicate()));
        i = i + 1;
    }
    proof {
        lemma_print_pairs_pointwise(out@, ps@);
    }
    out
}

pub(crate) fn duplicate_stmts(ss: &Vec<Statement>) -> (r: Vec<Statement>)
    ensures
        r@.len() == ss@.len(),
        forall|i: int| 0 <= i < ss@.len() ==> print_stmt(#[trigger] r@[i]) == print_stmt(ss@[i]),
        print_stmts(r@) == print_stmts(ss@),
        forall|i: int| 0 <= i < ss@.len() ==> stmt_reads_alike(#[trigger] ss@[i], r@[i]),
    decreases ss,
{
    let mut out: Vec<Statement> = Vec::new();
    let mut i: usize = 0;
    while i < ss.len()
        invariant
            i <= ss@.len(),
            out@.len() == i,
            forall|k: int| 0 <= k < i ==> print_stmt(#[trigger] out@[k]) == print_stmt(ss@[k]),
            forall|k: int| 0 <= k < i ==> stmt_reads_alike(#[trigger] ss@[k], out@[k]),
        decreases ss@.len() - i,
    {
        out.push(ss[i].duplicate());
        i = i + 1;
    }
    proof {
        lemma_print_stmts_pointwise(out@, ss@);
    }
    out
}

impl Expression {
    /// A copy of this expression: it reads the same.
    pub fn duplicate(&self) -> (r: Expression)
        ensures
            print_expr(r) == print_expr(*self),
            reads_alike(*self, r),
        decreases self,
    {
        match self {
            Expression::Int(n) => Expression::Int(*n),
            Expression::Bool(b) => Expression::Bool(*b),
            Expression::String(s) => Expression::String(s.clone()),
            Expression::Identifier(name) => Expression::Identifier(name.clone()),
            Expression::Array(items) => {
                let copy = duplicate_exprs(items);
                proof {
                    lemma_list_reads_alike(items@, copy@);
                    let r = Expression::Array(copy);
                    assert forall|bound: Map<Seq<char>, ValueModel>, scopes: Seq<Scope>, scope: int|
                        #[trigger] pure_eval_in(*self, bound, scopes, scope) == pure_eval_in(
                            r,
                            bound,
                            scopes,
                            scope,
                        ) by {
                        assert(pure_list_in(items@, bound, scopes, scope) == pure_list_in(
                            copy@,
                            bound,
                            scopes,
                            scope,
                        ));
                    }
                }
                Expression::Array(copy)
            },
            Expression::Hash(pairs) => {
                let copy = duplicate_pairs(pairs);
                proof {
                    lemma_hash_reads_alike(pairs@, copy@);
                    let r = Expression::Hash(copy);
                    assert forall|bound: Map<Seq<char>, ValueModel>, scopes: Seq<Scope>, scope: int|
                        #[trigger] pure_eval_in(*self, bound, scopes, scope) == pure_eval_in(
                            r,
                            bound,
                            scopes,
                            scope,
                        ) by {
                        assert(pure_hash(pairs@, bound, scopes, scope) == pure_hash(
                            copy@,
                            bound,
                            scopes,
                            scope,
                        ));
                    }
                }
                Expression::Hash(copy)
            },
            Expression::Condition { condition, consequence, alternative } => {
                let alt2 = match alternative {
                    Some(alt) => {
                        let copy = duplicate_stmts(alt);
                        proof {
                            lemma_block_reads_alike(alt@, copy@);
                        }
                        Some(copy)
                    },
                    None => None,
                };
                let c2 = condition.duplicate();
                let cons2 = duplicate_stmts(consequence);
                proof {
                    lemma_block_reads_alike(consequence@, cons2@);
                }
                let r = Expression::Condition {
                    condition: Box::new(c2),
                    consequence: cons2,
                    alternative: alt2,
                };
                proof {
                    assert forall|bound: Map<Seq<char>, ValueModel>, scopes: Seq<Scope>, scope: int|
                        #[trigger] pure_eval_in(*self, bound, scopes, scope) == pure_eval_in(
                            r,
                            bound,
                            scopes,
                            scope,
                        ) by {
                        assert(pure_eval_in(**condition, bound, scopes, scope) == pure_eval_in(
                            c2,
                            bound,
                            scopes,
                            scope,
                        ));
                        assert(pure_block(consequence@, bound, scopes, scope) == pure_block(
                            cons2@,
                            bound,
                            scopes,
                            scope,
                        ));
                        if let Some(alt) = alternative {
                            assert(pure_block(alt@, bound, scopes, scope) == pure_block(
                                alt2->Some_0@,
                                bound,
                                scopes,
                                scope,
                            ));
                        }
                    }
                }
                r
            },
            Expression::Function { parameters, body } => Expression::Function {
                parameters: duplicate_names(parameters),
                body: duplicate_stmts(body),
            },
            Expression::Call { function, arguments } => Expression::Call {
                function: Box::new(function.duplicate()),
                arguments: duplicate_exprs(arguments),
            },
            Expression::Prefix { operator, rhs } => {
                let r1 = rhs.duplicate();
                let r = Expression::Prefix { operator: *operator, rhs: Box::new(r1) };
                proof {
                    assert forall|bound: Map<Seq<char>, ValueModel>, scopes: Seq<Scope>, scope: int|
                        #[trigger] pure_eval_in(*self, bound, scopes, scope) == pure_eval_in(
                            r,
                            bound,
                            scopes,
                            scope,
                        ) by {
                        assert(pure_eval_in(**rhs, bound, scopes, scope) == pure_eval_in(
                            r1,
                            bound,
                            scopes,
                            scope,
                        ));
                    }
                }
                r
            },
            Expression::Infix { operator, lhs, rhs } => {
                let l1 = lhs.duplicate();
                let r1 = rhs.duplicate();
                let r = Expression::Infix {
                    operator: *operator,
                    lhs: Box::new(l1),
                    rhs: Box::new(r1),
                };
                proof {
                    assert forall|bound: Map<Seq<char>, ValueModel>, scopes: Seq<Scope>, scope: int|
                        #[trigger] pure_eval_in(*self, bound, scopes, scope) == pure_eval_in(
                            r,
                            bound,
                            scopes,
                            scope,
                        ) by {
                        assert(pure_eval_in(**lhs, bound, scopes, scope) == pure_eval_in(
                            l1,
                            bound,
                            scopes,
                            scope,
                        ));
                        assert(pure_eval_in(**rhs, bound, scopes, scope) == pure_eval_in(
                            r1,
                            bound,
                            scopes,
                            scope,
                        ));
                    }
                }
                r
            },
            Expression::Index { lhs, idx } => {
                let l1 = lhs.duplicate();
                let i1 = idx.duplicate();
                let r = Expression::Index { lhs: Box::new(l1), idx: Box::new(i1) };
                proof {
                    assert forall|bound: Map<Seq<char>, ValueModel>, scopes: Seq<Scope>, scope: int|
                        #[trigger] pure_eval_in(*self, bound, scopes, scope) == pure_eval_in(
                            r,
                            bound,
                            scopes,
                            scope,
                        ) by {
                        assert(pure_eval_in(**lhs, bound, scopes, scope) == pure_eval_in(
                            l1,
                            bound,
                            scopes,
                            scope,
                        ));
                        assert(pure_eval_in(**idx, bound, scopes, scope) == pure_eval_in(
                            i1,
                            bound,
                            scopes,
                            scope,
                        ));
                    }
                }
                r
            },
        }
    }
}

impl Statement {
    /// A copy of this statement: it reads the same.
    pub fn duplicate(&self) -> (r: Statement)
        ensures
            print_stmt(r) == print_stmt(*self),
            stmt_reads_alike(*self, r),
        decreases self,
    {
        match self {
            Statement::Let { name, value } => Statement::Let {
                name: name.clone(),
                value: value.duplicate(),
            },
            Statement::Return { value } => Statement::Return { value: value.duplicate() },
            Statement::Expression(e) => Statement::Expression(e.duplicate()),
            Statement::Block(ss) => Statement::Block(duplicate_stmts(ss)),
        }
    }
}

/// A copy of a list of names.
pub fn duplicate_names(names: &Vec<String>) -> (r: Vec<String>)
    ensures
        r@ == names@,
{
    let mut out: Vec<String> = Vec::new();
    let mut i: usize = 0;
    while i < names.len()
        invariant
            i <= names@.len(),
            out@ == names@.take(i as int),
        decreases names@.len() - i,
    {
        out.push(names[i].clone());
        i = i + 1;
        assert(out@ == names@.take(i as int));
    }
    assert(names@.take(names@.len() as int) == names@);
    out
}

} // verus!
