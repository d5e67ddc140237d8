//! Runtime values, their mathematical model, and their display form.
use vstd::prelude::*;

use crate::ast::expression::duplicate_stmts;
use crate::ast::print::{print_names, print_stmt, write_names};
use crate::ast::{duplicate_names, Statement};
use crate::text::{decimal, push_char, push_chars, push_decimal, push_str};

verus! {

/// The built-in functions of the global environment.
#[derive(Debug, Clone, Copy, PartialEq, Eq, Structural)]
pub enum Builtin {
    Print,
    Measure,
    First,
}

impl Builtin {
    pub open spec fn spec_name(self) -> Seq<char> {
        match self {
            Builtin::Print => seq!['p', 'r', 'i', 'n', 't'],
            Builtin::Measure => seq!['m', 'e', 'a', 's', 'u', 'r', 'e'],
            Builtin::First => seq!['f', 'i', 'r', 's', 't'],
        }
    }

    /// The name under which the function is bound.
    pub fn name(self) -> (r: String)
        ensures
            r@ == self.spec_name(),
    {
        let mut s = String::new();
        match self {
            Builtin::Print => push_chars(&mut s, &['p', 'r', 'i', 'n', 't']),
            Builtin::Measure => push_chars(&mut s, &['m', 'e', 'a', 's', 'u', 'r', 'e']),
            Builtin::First => push_chars(&mut s, &['f', 'i', 'r', 's', 't']),
        }
        s
    }
}

#[derive(Debug, PartialEq)]
pub enum Value {
    Null,
    /// The value of a `return` on its way out to the enclosing call.
    Return(Box<Value>),
    Int(i64),
    Bool(bool),
    String(String),
    Array(Vec<Value>),
    /// Entries of a map, with distinct keys.
    Hash(Vec<(String, Value)>),
    /// A closure: its parameters, its body and the scope it was created in.
    Function { parameters: Vec<String>, body: Vec<Statement>, environment: usize },
    BuiltinFunction(Builtin),
}

/// What a value is, as mathematics: strings as character sequences and containers
/// as sequences. A closure is modelled by its parameters and its scope.
pub enum ValueModel {
    Null,
    Return(Box<ValueModel>),
    Int(i64),
    Bool(bool),
    Str(Seq<char>),
    Array(Seq<ValueModel>),
    Hash(Seq<(Seq<char>, ValueModel)>),
    Function { parameters: Seq<Seq<char>>, environment: nat },
    Builtin(Builtin),
}

pub open spec fn names_model(names: Seq<String>) -> Seq<Seq<char>> {
    names.map_values(|n: String| n@)
}

/// The model of a value.
pub open spec fn model(v: Value) -> ValueModel
    decreases v,
{
    match v {
        Value::Null => ValueModel::Null,
        Value::Return(inner) => ValueModel::Return(Box::new(model(*inner))),
        Value::Int(n) => ValueModel::Int(n),
        Value::Bool(b) => ValueModel::Bool(b),
        Value::String(s) => ValueModel::Str(s@),
        Value::Array(items) => ValueModel::Array(models(items@)),
        Value::Hash(entries) => ValueModel::Hash(entry_models(entries@)),
        Value::Function { parameters, body, environment } => ValueModel::Function {
            parameters: names_model(parameters@),
            environment: environment as nat,
        },
        Value::BuiltinFunction(b) => ValueModel::Builtin(b),
    }
}

/// The models of a sequence of values.
pub open spec fn models(vs: Seq<Value>) -> Seq<ValueModel>
    decreases vs,
{
    if vs.len() == 0 {
        seq![]
    } else {
        models(vs.drop_last()).push(model(vs.last()))
    }
}

/// The models of map entries.
pub open spec fn entry_models(es: Seq<(String, Value)>) -> Seq<(Seq<char>, ValueModel)>
    decreases es,
{
    if es.len() == 0 {
        seq![]
    } else {
        entry_models(es.drop_last()).push((es.last().0@, model(es.last().1)))
    }
}

pub proof fn lemma_models(vs: Seq<Value>)
    ensures
        models(vs).len() == vs.len(),
        forall|i: int| 0 <= i < vs.len() ==> #[trigger] models(vs)[i] == model(vs[i]),
    decreases vs.len(),
{
    if vs.len() > 0 {
        lemma_models(vs.drop_last());
    }
}

pub proof fn lemma_entry_models(es: Seq<(String, Value)>)
    ensures
        entry_models(es).len() == es.len(),
        forall|i: int|
            0 <= i < es.len() ==> #[trigger] entry_models(es)[i] == (es[i].0@, model(es[i].1)),
    decreases es.len(),
{
    if es.len() > 0 {
        lemma_entry_models(es.drop_last());
    }
}

pub(crate) fn duplicate_values(vs: &Vec<Value>) -> (r: Vec<Value>)
    ensures
        models(r@) == models(vs@),
    decreases vs,
{
    let mut out: Vec<Value> = Vec::new();
    let mut i: usize = 0;
    while i < vs.len()
        invariant
            i <= vs@.len(),
            models(out@) == models(vs@.take(i as int)),
        decreases vs@.len() - i,
    {
        let v = vs[i].duplicate();
        proof {
            assert(out@.push(v).drop_last() == out@);
            assert(vs@.take(i + 1).drop_last() == vs@.take(i as int));
        }
        out.push(v);
        i = i + 1;
    }
    assert(vs@.take(vs@.len() as int) == vs@);
    out
}

pub(crate) fn duplicate_entries(es: &Vec<(String, Value)>) -> (r: Vec<(String, Value)>)
    ensures
        entry_models(r@) == entry_models(es@),
        forall|i: int| 0 <= i < r@.len() ==> #[trigger] r@[i].0 == es@[i].0,
    decreases es,
{
    let mut out: Vec<(String, Value)> = Vec::new();
    let mut i: usize = 0;
    while i < es.len()
        invariant
            i <= es@.len(),
            out@.len() == i,
            entry_models(out@) == entry_models(es@.take(i as int)),
            forall|j: int| 0 <= j < i ==> #[trigger] out@[j].0 == es@[j].0,
        decreases es@.len() - i,
    {
        let e = (es[i].0.clone(), es[i].1.duplicate());
        proof {
            assert(out@.push(e).drop_last() == out@);
            assert(es@.take(i + 1).drop_last() == es@.take(i as int));
        }
        out.push(e);
        i = i + 1;
    }
    assert(es@.take(es@.len() as int) == es@);
    out
}

impl Value {
    /// A copy of this value, with the same model.
    pub fn duplicate(&self) -> (r: Value)
        ensures
            model(r) == model(*self),
        decreases self,
    {
        match self {
            Value::Null => Value::Null,
            Value::Return(inner) => Value::Return(Box::new(inner.duplicate())),
            Value::Int(n) => Value::Int(*n),
            Value::Bool(b) => Value::Bool(*b),
            Value::String(s) => Value::String(s.clone()),
            Value::Array(items) => Value::Array(duplicate_values(items)),
            Value::Hash(entries) => Value::Hash(duplicate_entries(entries)),
            Value::Function { parameters, body, environment } => Value::Function {
                parameters: duplicate_names(parameters),
                body: duplicate_stmts(body),
                environment: *environment,
            },
            Value::BuiltinFunction(b) => Value::BuiltinFunction(*b),
        }
    }
}

/// Statements each on a line of their own, indented by two spaces after the first.
pub open spec fn print_body(ss: Seq<Statement>) -> Seq<char>
    decreases ss.len(),
{
    if ss.len() == 0 {
        seq![]
    } else if ss.len() == 1 {
        print_stmt(ss[0])
    } else {
        print_body(ss.drop_last()) + seq!['\n', ' ', ' '] + print_stmt(ss.last())
    }
}

/// The display form of a value, as `print` writes it.
pub open spec fn display(v: Value) -> Seq<char>
    decreases v,
{
    match v {
        Value::Null => seq!['n', 'u', 'l', 'l'],
        Value::Return(inner) => display(*inner),
        Value::Int(n) => decimal(n as int),
        Value::Bool(b) => if b {
            seq!['t', 'r', 'u', 'e']
        } else {
            seq!['f', 'a', 'l', 's', 'e']
        },
        Value::String(s) => s@,
        Value::Array(items) => seq!['['] + display_list(items@) + seq![']'],
        Value::Hash(entries) => seq!['{', '\n'] + display_entries(entries@) + seq!['}'],
        Value::Function { parameters, body, environment } => seq!['f', 'n', '('] + print_names(
            parameters@,
        ) + seq![')', ' ', '{', '\n', ' ', ' '] + print_body(body@) + seq!['\n', '}'],
        Value::BuiltinFunction(b) => b.spec_name(),
    }
}

/// Display forms joined by `, `.
pub open spec fn display_list(vs: Seq<Value>) -> Seq<char>
    decreases vs,
{
    if vs.len() == 0 {
        seq![]
    } else if vs.len() == 1 {
        display(vs[0])
    } else {
        display_list(vs.drop_last()) + seq![',', ' '] + display(vs.last())
    }
}

/// Map entries, each on a line of its own as `  key => value,`.
pub open spec fn display_entries(es: Seq<(String, Value)>) -> Seq<char>
    decreases es,
{
    if es.len() == 0 {
        seq![]
    } else {
        display_entries(es.drop_last()) + seq![' ', ' '] + es.last().0@ + seq![
            ' ',
            '=',
            '>',
            ' ',
        ] + display(es.last().1) + seq![',', '\n']
    }
}

fn write_body(ss: &Vec<Statement>, out: &mut String)
    ensures
        final(out)@ == old(out)@ + print_body(ss@),
{
    let mut i: usize = 0;
    while i < ss.len()
        invariant
            i <= ss@.len(),
            out@ == old(out)@ + print_body(ss@.take(i as int)),
        decreases ss@.len() - i,
    {
        if i > 0 {
            push_chars(out, &['\n', ' ', ' ']);
        }
        ss[i].write_to(out);
        assert(ss@.take(i + 1).drop_last() == ss@.take(i as int));
        i = i + 1;
    }
    assert(ss@.take(ss@.len() as int) == ss@);
}

pub(crate) fn write_list(vs: &Vec<Value>, out: &mut String)
    ensures
        final(out)@ == old(out)@ + display_list(vs@),
    decreases vs,
{
    let mut i: usize = 0;
    while i < vs.len()
        invariant
            i <= vs@.len(),
            out@ == old(out)@ + display_list(vs@.take(i as int)),
        decreases vs@.len() - i,
    {
        if i > 0 {
            push_chars(out, &[',', ' ']);
        }
        vs[i].write_display(out);
        assert(vs@.take(i + 1).drop_last() == vs@.take(i as int));
        i = i + 1;
    }
    assert(vs@.take(vs@.len() as int) == vs@);
}

fn write_entries(es: &Vec<(String, Value)>, out: &mut String)
    ensures
        final(out)@ == old(out)@ + display_entries(es@),
    decreases es,
{
    let mut i: usize = 0;
    while i < es.len()
        invariant
            i <= es@.len(),
            out@ == old(out)@ + display_entries(es@.take(i as int)),
        decreases es@.len() - i,
    {
        push_chars(out, &[' ', ' ']);
        push_str(out, es[i].0.as_str());
        push_chars(out, &[' ', '=', '>', ' ']);
        es[i].1.write_display(out);
        push_chars(out, &[',', '\n']);
        assert(es@.take(i + 1).drop_last() == es@.take(i as int));
        i = i + 1;
    }
    assert(es@.take(es@.len() as int) == es@);
}

impl Value {
    /// Appends the display form of this value to `out`.
    pub fn write_display(&self, out: &mut String)
        ensures
            final(out)@ == old(out)@ + display(*self),
        decreases self,
    {
        match self {
            Value::Null => push_chars(out, &['n', 'u', 'l', 'l']),
            Value::Return(inner) => inner.write_display(out),
            Value::Int(n) => push_decimal(out, *n),
            Value::Bool(b) => {
                if *b {
                    push_chars(out, &['t', 'r', 'u', 'e']);
                } else {
                    push_chars(out, &['f', 'a', 'l', 's', 'e']);
                }
            },
            Value::String(s) => push_str(out, s.as_str()),
            Value::Array(items) => {
                push_char(out, '[');
                write_list(items, out);
                push_char(out, ']');
            },
            Value::Hash(entries) => {
                push_chars(out, &['{', '\n']);
                write_entries(entries, out);
                push_char(out, '}');
            },
            Value::Function { parameters, body, environment } => {
                push_chars(out, &['f', 'n', '(']);
                write_names(parameters, out);
                push_chars(out, &[')', ' ', '{', '\n', ' ', ' ']);
                write_body(body, out);
                push_chars(out, &['\n', '}']);
            },
            Value::BuiltinFunction(b) => {
                let name = b.name();
                push_str(out, name.as_str());
            },
        }
    }

    /// The display form of this value.
    pub fn to_string(&self) -> (r: String)
        ensures
            r@ == display(*self),
    {
        let mut out = String::new();
        self.write_display(&mut out);
        out
    }
}

} // verus!
