//! Scopes of variables. All scopes of a run live in one arena and refer to their
//! enclosing scope by index, so closures can share scopes freely, cycles included.
use vstd::prelude::*;

use super::builtins::{builtin_result, call_builtin, is_builtin_name};
use super::operators::{find_key, lemma_find_key, position_of};
use crate::value::{display_list, model, Builtin, Value, ValueModel};

verus! {

/// One scope: its own bindings, with distinct names, and the scope around it.
pub struct Scope {
    pub variables: Vec<(String, Value)>,
    pub outer: Option<usize>,
}

/// Every scope encloses only scopes created before it, and binds each name once.
pub open spec fn scopes_wf(scopes: Seq<Scope>) -> bool {
    &&& scopes.len() >= 1
    &&& forall|i: int|
        0 <= i < scopes.len() ==> match (#[trigger] scopes[i]).outer {
            Some(o) => o < i,
            None => true,
        }
    &&& forall|i: int| 0 <= i < scopes.len() ==> distinct_names((#[trigger] scopes[i]).variables@)
}

/// No name is bound twice in one scope.
pub open spec fn distinct_names(vars: Seq<(String, Value)>) -> bool {
    forall|a: int, b: int| 0 <= a < b < vars.len() ==> #[trigger] vars[a].0@ != #[trigger] vars[b].0@
}

/// The value that `name` is bound to as seen from scope `id`: the nearest binding,
/// searching outward.
pub open spec fn lookup(scopes: Seq<Scope>, id: int, name: Seq<char>) -> Option<Value>
    decreases id,
{
    if 0 <= id < scopes.len() {
        match find_key(scopes[id].variables@, name) {
            Some(j) => Some(scopes[id].variables@[j].1),
            None => match scopes[id].outer {
                Some(o) => if o < id {
                    lookup(scopes, o as int, name)
                } else {
                    None
                },
                None => None,
            },
        }
    } else {
        None
    }
}

/// What reading `name` in scope `id` gives: the bound value, or `null`.
pub open spec fn lookup_model(scopes: Seq<Scope>, id: int, name: Seq<char>) -> ValueModel {
    match lookup(scopes, id, name) {
        Some(v) => model(v),
        None => ValueModel::Null,
    }
}

/// What `set` does: `name` is bound to `value` in scope `scope` itself, replacing a
/// binding of the same name there or added at the end; nothing else changes.
pub open spec fn set_effect(
    before: Environment,
    scope: int,
    name: String,
    value: Value,
    after: Environment,
) -> bool {
    &&& after.wf()
    &&& after.output() == before.output()
    &&& after.scopes().len() == before.scopes().len()
    &&& forall|i: int|
        0 <= i < before.scopes().len() && i != scope ==> #[trigger] after.scopes()[i]
            == before.scopes()[i]
    &&& after.scopes()[scope].outer == before.scopes()[scope].outer
    &&& ({
        let vars = before.scopes()[scope].variables@;
        match find_key(vars, name@) {
            Some(j) => after.scopes()[scope].variables@ == vars.update(j, (name, value)),
            None => after.scopes()[scope].variables@ == vars.push((name, value)),
        }
    })
}

/// What `with_outer` does: one new, empty scope at the end, inside `outer`.
pub open spec fn push_scope(before: Environment, outer: int, after: Environment) -> bool {
    &&& after.wf()
    &&& after.scopes().len() == before.scopes().len() + 1
    &&& after.scopes().take(before.scopes().len() as int) == before.scopes()
    &&& after.scopes().last().variables@.len() == 0
    &&& after.scopes().last().outer == Some(outer as usize)
    &&& after.output() == before.output()
}

/// The scopes of a run, and the lines that `print` has written.
pub struct Environment {
    scopes: Vec<Scope>,
    output: Vec<String>,
}

impl Environment {
    pub closed spec fn scopes(&self) -> Seq<Scope> {
        self.scopes@
    }

    pub closed spec fn output(&self) -> Seq<String> {
        self.output@
    }

    pub open spec fn wf(&self) -> bool {
        scopes_wf(self.scopes())
    }

    /// The global environment: one scope holding the built-in functions.
    pub fn new_global() -> (r: Environment)
        ensures
            r.wf(),
            r.scopes().len() == 1,
            r.output().len() == 0,
            forall|name: Seq<char>|
                is_builtin_name(name) <==> (#[trigger] lookup(r.scopes(), 0, name)) is Some,
            lookup(r.scopes(), 0, Builtin::Print.spec_name()) == Some(
                Value::BuiltinFunction(Builtin::Print),
            ),
            lookup(r.scopes(), 0, Builtin::Measure.spec_name()) == Some(
                Value::BuiltinFunction(Builtin::Measure),
            ),
            lookup(r.scopes(), 0, Builtin::First.spec_name()) == Some(
                Value::BuiltinFunction(Builtin::First),
            ),
    {
        let mut variables: Vec<(String, Value)> = Vec::new();
        variables.push((Builtin::Print.name(), Value::BuiltinFunction(Builtin::Print)));
        variables.push((Builtin::Measure.name(), Value::BuiltinFunction(Builtin::Measure)));
        variables.push((Builtin::First.name(), Value::BuiltinFunction(Builtin::First)));
        let mut scopes: Vec<Scope> = Vec::new();
        scopes.push(Scope { variables, outer: None });
        let r = Environment { scopes, output: Vec::new() };
        proof {
            let vs = r.scopes@[0].variables@;
            assert(vs.len() == 3);
            assert(vs[0].0@ == Builtin::Print.spec_name());
            assert(vs[1].0@ == Builtin::Measure.spec_name());
            assert(vs[2].0@ == Builtin::First.spec_name());
            lemma_find_key(vs, Builtin::Print.spec_name());
            lemma_find_key(vs, Builtin::Measure.spec_name());
            lemma_find_key(vs, Builtin::First.spec_name());
            assert(Builtin::Print.spec_name() != Builtin::Measure.spec_name());
            assert(Builtin::Print.spec_name() != Builtin::First.spec_name());
            assert(Builtin::Measure.spec_name() != Builtin::First.spec_name());
            assert forall|name: Seq<char>|
                is_builtin_name(name) <==> (#[trigger] lookup(r.scopes(), 0, name)) is Some by {
                lemma_find_key(vs, name);
            }
        }
        r
    }

    /// A fresh environment with one empty scope.
    pub fn empty() -> (r: Environment)
        ensures
            r.wf(),
            r.scopes().len() == 1,
            r.scopes()[0].variables@.len() == 0,
            r.output().len() == 0,
    {
        let mut scopes: Vec<Scope> = Vec::new();
        scopes.push(Scope { variables: Vec::new(), outer: None });
        Environment { scopes, output: Vec::new() }
    }

    /// Creates an empty scope inside scope `outer`, and returns its index.
    pub fn with_outer(&mut self, outer: usize) -> (r: usize)
        requires
            old(self).wf(),
            outer < old(self).scopes().len(),
        ensures
            final(self).wf(),
            r == old(self).scopes().len(),
            final(self).scopes().len() == r + 1,
            final(self).scopes().take(r as int) == old(self).scopes(),
            final(self).scopes()[r as int].variables@.len() == 0,
            final(self).scopes()[r as int].outer == Some(outer),
            final(self).output() == old(self).output(),
            push_scope(*old(self), outer as int, *final(self)),
    {
        let r = self.scopes.len();
        self.scopes.push(Scope { variables: Vec::new(), outer: Some(outer) });
        assert(self.scopes@.take(r as int) == old(self).scopes@);
        r
    }

    /// The value of `name` as seen from scope `scope`, or `null` when it is unbound.
    pub fn get(&self, scope: usize, name: &String) -> (r: Value)
        requires
            self.wf(),
            scope < self.scopes().len(),
        ensures
            model(r) == lookup_model(self.scopes(), scope as int, name@),
        decreases scope,
    {
        let s = &self.scopes[scope];
        proof {
            lemma_find_key(s.variables@, name@);
        }
        match position_of(&s.variables, name) {
            Some(j) => s.variables[j].1.duplicate(),
            None => match s.outer {
                Some(o) => {
                    assert(o < scope);
                    self.get(o, name)
                },
                None => Value::Null,
            },
        }
    }

    /// Binds `name` to `value` in scope `scope` itself, replacing a binding of the
    /// same name there; returns a copy of the value.
    pub fn set(&mut self, scope: usize, name: String, value: Value) -> (r: Value)
        requires
            old(self).wf(),
            scope < old(self).scopes().len(),
        ensures
            final(self).wf(),
            set_effect(*old(self), scope as int, name, value, *final(self)),
            model(r) == model(value),
            final(self).output() == old(self).output(),
            final(self).scopes().len() == old(self).scopes().len(),
            forall|i: int|
                0 <= i < old(self).scopes().len() && i != scope
                    ==> #[trigger] final(self).scopes()[i] == old(self).scopes()[i],
            final(self).scopes()[scope as int].outer == old(self).scopes()[scope as int].outer,
            ({
                let before = old(self).scopes()[scope as int].variables@;
                let after = final(self).scopes()[scope as int].variables@;
                match find_key(before, name@) {
                    Some(j) => after == before.update(j, (name, value)),
                    None => after == before.push((name, value)),
                }
            }),
    {
        let copy = value.duplicate();
        let mut s = self.scopes.remove(scope);
        proof {
            lemma_find_key(s.variables@, name@);
        }
        match position_of(&s.variables, &name) {
            Some(j) => {
                s.variables.set(j, (name, value));
            },
            None => {
                s.variables.push((name, value));
            },
        }
        self.scopes.insert(scope, s);
        proof {
            assert forall|i: int|
                0 <= i < old(self).scopes().len() && i != scope implies #[trigger] self.scopes@[i]
                == old(self).scopes@[i] by {}
        }
        copy
    }

    /// Runs a built-in function; what `print` writes is kept in the output.
    pub fn call_builtin(&mut self, builtin: Builtin, arguments: Vec<Value>) -> (r: Value)
        ensures
            final(self).scopes() == old(self).scopes(),
            builtin_result(builtin, arguments@, r, old(self).output(), final(self).output()),
    {
        call_builtin(builtin, arguments, &mut self.output)
    }

    /// How many scopes there are.
    pub fn scope_count(&self) -> (r: usize)
        ensures
            r == self.scopes().len(),
    {
        self.scopes.len()
    }

    /// Hands out the lines written by `print` so far, and forgets them.
    pub fn take_output(&mut self) -> (r: Vec<String>)
        ensures
            r@ == old(self).output(),
            final(self).output().len() == 0,
            final(self).scopes() == old(self).scopes(),
    {
        let mut lines: Vec<String> = Vec::new();
        std::mem::swap(&mut lines, &mut self.output);
        lines
    }
}

impl Default for Environment {
    fn default() -> (r: Environment)
        ensures
            r.wf(),
            r.scopes().len() == 1,
            r.scopes()[0].variables@.len() == 0,
            r.output().len() == 0,
    {
        Environment::empty()
    }
}

} // verus!
