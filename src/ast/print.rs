//! Source text for syntax trees. Prefix, infix and index expressions are
//! written fully parenthesized, so the text shows how the tree is grouped.
use vstd::prelude::*;

use super::{Expression, Program, Statement};
use crate::text::{decimal, push_char, push_chars, push_decimal, push_str};


verus! {

/// Names joined by `, `.
pub open spec fn print_names(names: Seq<String>) -> Seq<char>
    decreases names.len(),
{
    if names.len() == 0 {
        seq![]
    } else if names.len() == 1 {
        names[0]@
    } else {
        print_names(names.drop_last()) + seq![',', ' '] + names.last()@
    }
}

/// The text of an expression.
pub open spec fn print_expr(e: Expression) -> Seq<char>
    decreases e,
{
    match e {
        Expression::Int(n) => decimal(n as int),
        Expression::Bool(b) => if b {
            seq!['t', 'r', 'u', 'e']
        } else {
            seq!['f', 'a', 'l', 's', 'e']
        },
        Expression::String(s) => seq!['"'] + s@ + seq!['"'],
        Expression::Identifier(name) => name@,
        Expression::Array(items) => seq!['['] + print_exprs(items@) + seq![']'],
        Expression::Hash(pairs) => seq!['{'] + print_pairs(pairs@) + seq!['}'],
        Expression::Condition { condition, consequence, alternative } => {
            let head = seq!['i', 'f', ' ', '('] + print_expr(*condition) + seq![')', ' ', '{', ' ']
                + print_stmts(consequence@) + seq![' ', '}'];
            match alternative {
                Some(alt) => head + seq![' ', 'e', 'l', 's', 'e', ' ', '{', ' '] + print_stmts(alt@)
                    + seq![' ', '}'],
                None => head,
            }
        },
        Expression::Function { parameters, body } => seq!['f', 'n', ' ', '('] + print_names(
            parameters@,
        ) + seq![')', ' ', '{', ' '] + print_stmts(body@) + seq![' ', '}'],
        Expression::Call { function, arguments } => print_expr(*function) + seq!['('] + print_exprs(
            arguments@,
        ) + seq![')'],
        Expression::Prefix { operator, rhs } => seq!['('] + operator.spec_symbol() + print_expr(
            *rhs,
        ) + seq![')'],
        Expression::Infix { operator, lhs, rhs } => seq!['('] + print_expr(*lhs) + seq![' ']
            + operator.spec_symbol() + seq![' '] + print_expr(*rhs) + seq![')'],
        Expression::Index { lhs, idx } => seq!['('] + print_expr(*lhs) + seq!['['] + print_expr(
            *idx,
        ) + seq![']', ')'],
    }
}

/// Expressions joined by `, `.
pub open spec fn print_exprs(es: Seq<Expression>) -> Seq<char>
    decreases es,
{
    if es.len() == 0 {
        seq![]
    } else if es.len() == 1 {
        print_expr(es[0])
    } else {
        print_exprs(es.drop_last()) + seq![',', ' '] + print_expr(es.last())
    }
}

/// Map entries written `key: value`, joined by `, `.
pub open spec fn print_pairs(ps: Seq<(Expression, Expression)>) -> Seq<char>
    decreases ps,
{
    if ps.len() == 0 {
        seq![]
    } else {
        let entry = print_expr(ps.last().0) + seq![':', ' '] + print_expr(ps.last().1);
        if ps.len() == 1 {
            entry
        } else {
            print_pairs(ps.drop_last()) + seq![',', ' '] + entry
        }
    }
}

/// The text of a statement.
pub open spec fn print_stmt(s: Statement) -> Seq<char>
    decreases s,
{
    match s {
        Statement::Let { name, value } => seq!['l', 'e', 't', ' '] + name@ + seq![' ', '=', ' ']
            + print_expr(value) + seq![';'],
        Statement::Return { value } => seq!['r', 'e', 't', 'u', 'r', 'n', ' '] + print_expr(value)
            + seq![';'],
        Statement::Expression(e) => print_expr(e),
        Statement::Block(ss) => print_stmts(ss@),
    }
}

/// Statements written one after the other.
pub open spec fn print_stmts(ss: Seq<Statement>) -> Seq<char>
    decreases ss,
{
    if ss.len() == 0 {
        seq![]
    } else {
        print_stmts(ss.drop_last()) + print_stmt(ss.last())
    }
}

pub(crate) fn write_names(names: &Vec<String>, out: &mut String)
    ensures
        final(out)@ == old(out)@ + print_names(names@),
{
    let mut i: usize = 0;
    while i < names.len()
        invariant
            i <= names@.len(),
            out@ == old(out)@ + print_names(names@.take(i as int)),
        decreases names@.len() - i,
    {
        if i > 0 {
            push_chars(out, &[',', ' ']);
        }
        push_str(out, names[i].as_str());
        assert(names@.take(i + 1).drop_last() == names@.take(i as int));
        i = i + 1;
    }
    assert(names@.take(names@.len() as int) == names@);
}

fn write_exprs(es: &Vec<Expression>, out: &mut String)
    ensures
        final(out)@ == old(out)@ + print_exprs(es@),
    decreases es,
{
    let mut i: usize = 0;
    while i < es.len()
        invariant
            i <= es@.len(),
            out@ == old(out)@ + print_exprs(es@.take(i as int)),
        decreases es@.len() - i,
    {
        if i > 0 {
            push_chars(out, &[',', ' ']);
        }
        es[i].write_to(out);
        assert(es@.take(i + 1).drop_last() == es@.take(i as int));
        i = i + 1;
    }
    assert(es@.take(es@.len() as int) == es@);
}

fn write_pairs(ps: &Vec<(Expression, Expression)>, out: &mut String)
    ensures
        final(out)@ == old(out)@ + print_pairs(ps@),
    decreases ps,
{
    let mut i: usize = 0;
    while i < ps.len()
        invariant
            i <= ps@.len(),
            out@ == old(out)@ + print_pairs(ps@.take(i as int)),
        decreases ps@.len() - i,
    {
        if i > 0 {
            push_chars(out, &[',', ' ']);
        }
        ps[i].0.write_to(out);
        push_chars(out, &[':', ' ']);
        ps[i].1.write_to(out);
        assert(ps@.take(i + 1).drop_last() == ps@.take(i as int));
        i = i + 1;
    }
    assert(ps@.take(ps@.len() as int) == ps@);
}

fn write_stmts(ss: &Vec<Statement>, out: &mut String)
    ensures
        final(out)@ == old(out)@ + print_stmts(ss@),
    decreases ss,
{
    let mut i: usize = 0;
    while i < ss.len()
        invariant
            i <= ss@.len(),
            out@ == old(out)@ + print_stmts(ss@.take(i as int)),
        decreases ss@.len() - i,
    {
        ss[i].write_to(out);
        assert(ss@.take(i + 1).drop_last() == ss@.take(i as int));
        i = i + 1;
    }
    assert(ss@.take(ss@.len() as int) == ss@);
}

impl Expression {
    /// Appends the text of this expression to `out`.
    pub fn write_to(&self, out: &mut String)
        ensures
            final(out)@ == old(out)@ + print_expr(*self),
        decreases self,
    {
        match self {
            Expression::Int(n) => push_decimal(out, *n),
            Expression::Bool(b) => {
                if *b {
                    push_chars(out, &['t', 'r', 'u', 'e']);
                } else {
                    push_chars(out, &['f', 'a', 'l', 's', 'e']);
                }
            },
            Expression::String(s) => {
                push_char(out, '"');
                push_str(out, s.as_str());
                push_char(out, '"');
            },
            Expression::Identifier(name) => push_str(out, name.as_str()),
            Expression::Array(items) => {
                push_char(out, '[');
                write_exprs(items, out);
                push_char(out, ']');
            },
            Expression::Hash(pairs) => {
                push_char(out, '{');
                write_pairs(pairs, out);
                push_char(out, '}');
            },
            Expression::Condition { condition, consequence, alternative } => {
                push_chars(out, &['i', 'f', ' ', '(']);
                condition.write_to(out);
                push_chars(out, &[')', ' ', '{', ' ']);
                write_stmts(consequence, out);
                push_chars(out, &[' ', '}']);
                match alternative {
                    Some(alt) => {
                        push_chars(out, &[' ', 'e', 'l', 's', 'e', ' ', '{', ' ']);
                        write_stmts(alt, out);
                        push_chars(out, &[' ', '}']);
                    },
                    None => {},
                }
            },
            Expression::Function { parameters, body } => {
                push_chars(out, &['f', 'n', ' ', '(']);
                write_names(parameters, out);
                push_chars(out, &[')', ' ', '{', ' ']);
                write_stmts(body, out);
                push_chars(out, &[' ', '}']);
            },
            Expression::Call { function, arguments } => {
                function.write_to(out);
                push_char(out, '(');
                write_exprs(arguments, out);
                push_char(out, ')');
            },
            Expression::Prefix { operator, rhs } => {
                push_char(out, '(');
                operator.push_symbol(out);
                rhs.write_to(out);
                push_char(out, ')');
            },
            Expression::Infix { operator, lhs, rhs } => {
                push_char(out, '(');
                lhs.write_to(out);
                push_char(out, ' ');
                operator.push_symbol(out);
                push_char(out, ' ');
                rhs.write_to(out);
                push_char(out, ')');
            },
            Expression::Index { lhs, idx } => {
                push_char(out, '(');
                lhs.write_to(out);
                push_char(out, '[');
                idx.write_to(out);
                push_chars(out, &[']', ')']);
            },
        }
    }

    /// The text of this expression.
    pub fn to_string(&self) -> (r: String)
        ensures
            r@ == print_expr(*self),
    {
        let mut out = String::new();
        self.write_to(&mut out);
        out
    }
}

impl Statement {
    /// Appends the text of this statement to `out`.
    pub fn write_to(&self, out: &mut String)
        ensures
            final(out)@ == old(out)@ + print_stmt(*self),
        decreases self,
    {
        match self {
            Statement::Let { name, value } => {
                push_chars(out, &['l', 'e', 't', ' ']);
                push_str(out, name.as_str());
                push_chars(out, &[' ', '=', ' ']);
                value.write_to(out);
                push_char(out, ';');
            },
            Statement::Return { value } => {
                push_chars(out, &['r', 'e', 't', 'u', 'r', 'n', ' ']);
                value.write_to(out);
                push_char(out, ';');
            },
            Statement::Expression(e) => e.write_to(out),
            Statement::Block(ss) => write_stmts(ss, out),
        }
    }

    /// The text of this statement.
    pub fn to_string(&self) -> (r: String)
        ensures
            r@ == print_stmt(*self),
    {
        let mut out = String::new();
        self.write_to(&mut out);
        out
    }
}

impl Program {
    /// The text of the program: its statements one after the other.
    pub fn to_string(&self) -> (r: String)
        ensures
            r@ == print_stmts(self.statements@),
    {
        let mut out = String::new();
        write_stmts(&self.statements, &mut out);
        out
    }
}

} // verus!
