//! The built-in functions `print`, `measure` and `first`.
use vstd::prelude::*;
use vstd::utf8::encode_utf8;

use crate::value::{display_list, lemma_models, model, models, write_list, Builtin, Value, ValueModel};

verus! {

/// Whether a name belongs to a built-in function, and so cannot be bound by `let`.
pub open spec fn is_builtin_name(name: Seq<char>) -> bool {
    name == Builtin::Print.spec_name() || name == Builtin::Measure.spec_name() || name
        == Builtin::First.spec_name()
}

/// Whether `name` is the name of a built-in function.
pub fn builtin_named(name: &String) -> (r: bool)
    ensures
        r == is_builtin_name(name@),
{
    Builtin::Print.name() == *name || Builtin::Measure.name() == *name || Builtin::First.name()
        == *name
}

/// The length that `measure` reports: bytes of a string in UTF-8, elements of an array.
pub open spec fn measured(v: Value) -> Option<int> {
    match v {
        Value::String(s) => Some(encode_utf8(s@).len() as usize as int),
        Value::Array(items) => Some(items@.len() as int),
        _ => None,
    }
}

/// `print`: appends one line to `output`, the display forms of the arguments joined
/// by `, `.
pub fn call_print(arguments: Vec<Value>, output: &mut Vec<String>) -> (r: Value)
    ensures
        print_result(arguments@, r, old(output)@, final(output)@),
{
    let mut line = String::new();
    write_list(&arguments, &mut line);
    output.push(line);
    assert(output@.drop_last() == old(output)@);
    Value::Null
}

fn measure_one(v: &Value) -> (r: Option<i64>)
    ensures
        match measured(*v) {
            Some(n) => r == Some(n as i64),
            None => r is None,
        },
{
    match v {
        Value::String(s) => Some(s.as_str().len() as i64),
        Value::Array(items) => Some(items.len() as i64),
        _ => None,
    }
}

/// What `measure` gives for its arguments.
pub open spec fn measure_result(args: Seq<Value>, r: Value) -> bool {
    if args.len() == 0 || exists|i: int| 0 <= i < args.len() && (#[trigger] measured(args[i])) is None {
        r == Value::Null
    } else if args.len() == 1 {
        r == Value::Int(measured(args[0])->Some_0 as i64)
    } else {
        &&& r is Array
        &&& r->Array_0@.len() == args.len()
        &&& forall|i: int|
            0 <= i < args.len() ==> #[trigger] r->Array_0@[i] == Value::Int(
                measured(args[i])->Some_0 as i64,
            )
    }
}

/// What `first` gives for its arguments.
pub open spec fn first_result(args: Seq<Value>, r: Value) -> bool {
    if args.len() == 0 {
        r == Value::Null
    } else if args.len() == 1 {
        r == first_of(args[0])
    } else if exists|i: int| 0 <= i < args.len() && !((#[trigger] args[i]) is Array) {
        r == Value::Null
    } else {
        &&& r is Array
        &&& r->Array_0@.len() == args.len()
        &&& forall|i: int| 0 <= i < args.len() ==> #[trigger] r->Array_0@[i] == first_of(args[i])
    }
}

/// What `print` does: one line more in the output, the display forms of the
/// arguments joined by `, `, and `null` as the result.
pub open spec fn print_result(args: Seq<Value>, r: Value, before: Seq<String>, after: Seq<String>) -> bool {
    &&& r == Value::Null
    &&& after.len() == before.len() + 1
    &&& after.drop_last() == before
    &&& after.last()@ == display_list(args)
}

/// What calling a built-in function does to its result and to the output.
pub open spec fn builtin_result(
    builtin: Builtin,
    args: Seq<Value>,
    r: Value,
    before: Seq<String>,
    after: Seq<String>,
) -> bool {
    match builtin {
        Builtin::Print => print_result(args, r, before, after),
        Builtin::Measure => measure_result(args, r) && after == before,
        Builtin::First => first_result(args, r) && after == before,
    }
}

/// `measure`: the length of each argument, which must all be strings or arrays.
/// One argument gives its length; several give an array of lengths; no argument,
/// or one of another kind, gives `null`.
pub fn call_measure(arguments: Vec<Value>) -> (r: Value)
    ensures
        measure_result(arguments@, r),
{
    if arguments.len() == 0 {
        return Value::Null;
    }
    let mut lengths: Vec<Value> = Vec::new();
    let mut i: usize = 0;
    while i < arguments.len()
        invariant
            i <= arguments@.len(),
            lengths@.len() == i,
            forall|j: int| 0 <= j < i ==> (#[trigger] measured(arguments@[j])) is Some,
            forall|j: int|
                0 <= j < i ==> #[trigger] lengths@[j] == Value::Int(
                    measured(arguments@[j])->Some_0 as i64,
                ),
        decreases arguments@.len() - i,
    {
        match measure_one(&arguments[i]) {
            Some(n) => lengths.push(Value::Int(n)),
            None => {
                return Value::Null;
            },
        }
        i = i + 1;
    }
    if lengths.len() == 1 {
        lengths.remove(0)
    } else {
        Value::Array(lengths)
    }
}

/// The first element of an array value, or `null` when it is empty or no array.
pub open spec fn first_of(v: Value) -> Value {
    match v {
        Value::Array(items) => if items@.len() > 0 {
            items@[0]
        } else {
            Value::Null
        },
        _ => Value::Null,
    }
}

fn take_first(v: Value) -> (r: Value)
    ensures
        r == first_of(v),
{
    match v {
        Value::Array(items) => {
            let mut items = items;
            if items.len() > 0 {
                items.remove(0)
            } else {
                Value::Null
            }
        },
        _ => Value::Null,
    }
}

/// `first`: with one argument, its first element; with several arrays, an array of
/// their first elements; `null` when there is no argument, or when one of several
/// is no array.
#[verifier::loop_isolation(false)]
pub fn call_first(arguments: Vec<Value>) -> (r: Value)
    ensures
        first_result(arguments@, r),
{
    let ghost args = arguments@;
    let mut arguments = arguments;
    let n = arguments.len();
    if n == 0 {
        return Value::Null;
    }
    if n == 1 {
        return take_first(arguments.remove(0));
    }
    let mut k: usize = 0;
    while k < n
        invariant
            k <= n == arguments@.len(),
            arguments@ == args,
            forall|j: int| 0 <= j < k ==> (#[trigger] arguments@[j]) is Array,
        decreases n - k,
    {
        if !matches!(arguments[k], Value::Array(_)) {
            return Value::Null;
        }
        k = k + 1;
    }
    let mut firsts: Vec<Value> = Vec::new();
    let mut rest: Vec<Value> = Vec::new();
    while arguments.len() > 0
        invariant
            arguments@.len() + firsts@.len() == args.len(),
            forall|j: int| 0 <= j < arguments@.len() ==> #[trigger] arguments@[j] == args[j],
            forall|j: int|
                0 <= j < firsts@.len() ==> #[trigger] firsts@[j] == first_of(
                    args[args.len() - 1 - j],
                ),
        decreases arguments@.len(),
    {
        let last = arguments.pop().unwrap();
        firsts.push(take_first(last));
    }
    while firsts.len() > 0
        invariant
            firsts@.len() + rest@.len() == args.len(),
            forall|j: int|
                0 <= j < firsts@.len() ==> #[trigger] firsts@[j] == first_of(
                    args[args.len() - 1 - j],
                ),
            forall|j: int| 0 <= j < rest@.len() ==> #[trigger] rest@[j] == first_of(args[j]),
        decreases firsts@.len(),
    {
        let f = firsts.pop().unwrap();
        rest.push(f);
    }
    assert(!exists|i: int| 0 <= i < args.len() && !((#[trigger] args[i]) is Array));
    Value::Array(rest)
}

/// The length that `measure` reports for a value model.
pub open spec fn measured_model(m: ValueModel) -> Option<int> {
    match m {
        ValueModel::Str(s) => Some(encode_utf8(s).len() as usize as int),
        ValueModel::Array(xs) => Some(xs.len() as int),
        _ => None,
    }
}

/// What `measure` gives, over the models of its arguments.
pub open spec fn measure_model(ms: Seq<ValueModel>) -> ValueModel {
    if ms.len() == 0 || exists|i: int| 0 <= i < ms.len() && (#[trigger] measured_model(ms[i])) is None {
        ValueModel::Null
    } else if ms.len() == 1 {
        ValueModel::Int(measured_model(ms[0])->Some_0 as i64)
    } else {
        ValueModel::Array(Seq::new(ms.len(), |i: int| ValueModel::Int(measured_model(ms[i])->Some_0 as i64)))
    }
}

/// The first element of an array model, or `null`.
pub open spec fn first_model(m: ValueModel) -> ValueModel {
    match m {
        ValueModel::Array(xs) => if xs.len() > 0 {
            xs[0]
        } else {
            ValueModel::Null
        },
        _ => ValueModel::Null,
    }
}

/// What `first` gives, over the models of its arguments.
pub open spec fn first_models(ms: Seq<ValueModel>) -> ValueModel {
    if ms.len() == 0 {
        ValueModel::Null
    } else if ms.len() == 1 {
        first_model(ms[0])
    } else if exists|i: int| 0 <= i < ms.len() && !((#[trigger] ms[i]) is Array) {
        ValueModel::Null
    } else {
        ValueModel::Array(Seq::new(ms.len(), |i: int| first_model(ms[i])))
    }
}

/// What a built-in function gives, over the models of its arguments.
pub open spec fn builtin_model(builtin: Builtin, ms: Seq<ValueModel>) -> ValueModel {
    match builtin {
        Builtin::Print => ValueModel::Null,
        Builtin::Measure => measure_model(ms),
        Builtin::First => first_models(ms),
    }
}

/// The result of a built-in function has the model that `builtin_model` gives.
pub proof fn lemma_builtin_model(
    builtin: Builtin,
    args: Seq<Value>,
    r: Value,
    before: Seq<String>,
    after: Seq<String>,
)
    requires
        builtin_result(builtin, args, r, before, after),
    ensures
        model(r) == builtin_model(builtin, models(args)),
{
    lemma_models(args);
    let ms = models(args);
    assert forall|i: int| 0 <= i < args.len() implies #[trigger] measured_model(ms[i]) == measured(args[i]) by {
        if let Value::Array(items) = args[i] {
            lemma_models(items@);
        }
    }
    assert forall|i: int| 0 <= i < args.len() implies #[trigger] first_model(ms[i]) == model(first_of(args[i])) by {
        if let Value::Array(items) = args[i] {
            lemma_models(items@);
        }
    }
    assert forall|i: int| 0 <= i < args.len() implies (#[trigger] ms[i] is Array <==> args[i] is Array) by {}
    match builtin {
        Builtin::Print => {},
        Builtin::Measure => {
            if exists|i: int| 0 <= i < args.len() && (#[trigger] measured(args[i])) is None {
                let i = choose|i: int| 0 <= i < args.len() && (#[trigger] measured(args[i])) is None;
                assert(measured_model(ms[i]) is None);
            }
            if !(args.len() == 0 || exists|i: int| 0 <= i < args.len() && (#[trigger] measured(args[i])) is None)
                && args.len() > 1 {
                let items = r->Array_0@;
                lemma_models(items);
                assert forall|i: int| 0 <= i < ms.len() implies #[trigger] models(items)[i] == ValueModel::Int(
                    measured_model(ms[i])->Some_0 as i64,
                ) by {
                    assert(items[i] == Value::Int(measured(args[i])->Some_0 as i64));
                }
                assert(models(items) =~= Seq::new(ms.len(), |i: int| ValueModel::Int(measured_model(ms[i])->Some_0 as i64)));
            }
        },
        Builtin::First => {
            if exists|i: int| 0 <= i < args.len() && !((#[trigger] args[i]) is Array) {
                let i = choose|i: int| 0 <= i < args.len() && !((#[trigger] args[i]) is Array);
                assert(!(ms[i] is Array));
            }
            if args.len() > 1 && !exists|i: int| 0 <= i < args.len() && !((#[trigger] args[i]) is Array) {
                let items = r->Array_0@;
                lemma_models(items);
                assert forall|i: int| 0 <= i < ms.len() implies #[trigger] models(items)[i] == first_model(ms[i]) by {
                    assert(items[i] == first_of(args[i]));
                }
                assert(models(items) =~= Seq::new(ms.len(), |i: int| first_model(ms[i])));
            }
        },
    }
}

/// Calls a built-in function. `print` writes to `output`.
pub fn call_builtin(builtin: Builtin, arguments: Vec<Value>, output: &mut Vec<String>) -> (r: Value)
    ensures
        builtin_result(builtin, arguments@, r, old(output)@, final(output)@),
{
    match builtin {
        Builtin::Print => call_print(arguments, output),
        Builtin::Measure => call_measure(arguments),
        Builtin::First => call_first(arguments),
    }
}

/// A native function that a program can call by name.
pub trait BuiltinFunction {
    /// Which built-in function this is.
    spec fn spec_builtin(&self) -> Builtin;

    /// The name under which the function is bound.
    fn name(&self) -> (r: String)
        ensures
            r@ == self.spec_builtin().spec_name(),
    ;

    /// Calls the function; lines that it prints are appended to `output`.
    fn call(&self, arguments: Vec<Value>, output: &mut Vec<String>) -> (r: Value)
        ensures
            builtin_result(self.spec_builtin(), arguments@, r, old(output)@, final(output)@),
    ;
}

/// The `print` built-in.
#[derive(Debug)]
pub struct Print;

/// The `measure` built-in.
#[derive(Debug)]
pub struct Measure;

/// The `first` built-in.
#[derive(Debug)]
pub struct First;

impl BuiltinFunction for Print {
    open spec fn spec_builtin(&self) -> Builtin {
        Builtin::Print
    }

    fn name(&self) -> (r: String) {
        Builtin::Print.name()
    }

    fn call(&self, arguments: Vec<Value>, output: &mut Vec<String>) -> (r: Value) {
        call_print(arguments, output)
    }
}

impl BuiltinFunction for Measure {
    open spec fn spec_builtin(&self) -> Builtin {
        Builtin::Measure
    }

    fn name(&self) -> (r: String) {
        Builtin::Measure.name()
    }

    fn call(&self, arguments: Vec<Value>, output: &mut Vec<String>) -> (r: Value) {
        call_measure(arguments)
    }
}

impl BuiltinFunction for First {
    open spec fn spec_builtin(&self) -> Builtin {
        Builtin::First
    }

    fn name(&self) -> (r: String) {
        Builtin::First.name()
    }

    fn call(&self, arguments: Vec<Value>, output: &mut Vec<String>) -> (r: Value) {
        call_first(arguments)
    }
}

} // verus!
