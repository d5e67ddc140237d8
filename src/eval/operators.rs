//! What the prefix, infix and index operators do to values.
use vstd::prelude::*;

use super::EvalError;
use crate::ast::{InfixOperator, PrefixOperator};
use crate::text::{chars_of, decimal, parse_i64, parse_int, push_decimal, push_str};
use crate::value::{model, Value, ValueModel};

verus! {

/// What `!` gives: `null`, `0` and `false` are falsy; every other string, array,
/// map or function is truthy.
pub open spec fn bang_spec(v: ValueModel) -> bool
    decreases v,
{
    match v {
        ValueModel::Null => true,
        ValueModel::Return(inner) => bang_spec(*inner),
        ValueModel::Int(n) => n == 0,
        ValueModel::Bool(b) => !b,
        _ => false,
    }
}

/// What unary `-` gives: it takes integers only.
pub open spec fn neg_spec(v: ValueModel) -> Result<ValueModel, EvalError>
    decreases v,
{
    match v {
        ValueModel::Int(n) => if n == i64::MIN {
            Err(EvalError::Arithmetic)
        } else {
            Ok(ValueModel::Int((-n) as i64))
        },
        _ => Err(EvalError::TypeMismatch),
    }
}

pub open spec fn checked(r: Option<i64>) -> Result<ValueModel, EvalError> {
    match r {
        Some(n) => Ok(ValueModel::Int(n)),
        None => Err(EvalError::Arithmetic),
    }
}

/// An operator applied to two integers. Overflow and division by zero are errors;
/// division truncates toward zero.
pub open spec fn int_infix(op: InfixOperator, a: i64, b: i64) -> Result<ValueModel, EvalError> {
    match op {
        InfixOperator::Add => checked(a.checked_add(b)),
        InfixOperator::Sub => checked(a.checked_sub(b)),
        InfixOperator::Mul => checked(a.checked_mul(b)),
        InfixOperator::Div => checked(a.checked_div(b)),
        InfixOperator::Modulo => checked(a.checked_rem(b)),
        InfixOperator::Equal => Ok(ValueModel::Bool(a == b)),
        InfixOperator::NotEqual => Ok(ValueModel::Bool(a != b)),
        InfixOperator::GreaterThan => Ok(ValueModel::Bool(a > b)),
        InfixOperator::LessThan => Ok(ValueModel::Bool(a < b)),
        InfixOperator::GreaterThanOrEqual => Ok(ValueModel::Bool(a >= b)),
        InfixOperator::LessThanOrEqual => Ok(ValueModel::Bool(a <= b)),
    }
}

/// Lexicographic order on character sequences, by code point.
pub open spec fn seq_lt(a: Seq<char>, b: Seq<char>) -> bool
    decreases a.len(),
{
    if a.len() == 0 {
        b.len() > 0
    } else if b.len() == 0 {
        false
    } else if a[0] != b[0] {
        (a[0] as u32) < (b[0] as u32)
    } else {
        seq_lt(a.drop_first(), b.drop_first())
    }
}

/// `s` written `n` times.
pub open spec fn repeat(s: Seq<char>, n: nat) -> Seq<char>
    decreases n,
{
    if n == 0 {
        seq![]
    } else {
        repeat(s, (n - 1) as nat) + s
    }
}

/// An operator applied to two strings.
pub open spec fn str_infix(op: InfixOperator, a: Seq<char>, b: Seq<char>) -> Result<
    ValueModel,
    EvalError,
> {
    match op {
        InfixOperator::Add => Ok(ValueModel::Str(a + b)),
        InfixOperator::Equal => Ok(ValueModel::Bool(a == b)),
        InfixOperator::NotEqual => Ok(ValueModel::Bool(a != b)),
        InfixOperator::LessThan => Ok(ValueModel::Bool(seq_lt(a, b))),
        InfixOperator::GreaterThan => Ok(ValueModel::Bool(seq_lt(b, a))),
        InfixOperator::LessThanOrEqual => Ok(ValueModel::Bool(!seq_lt(b, a))),
        InfixOperator::GreaterThanOrEqual => Ok(ValueModel::Bool(!seq_lt(a, b))),
        _ => Err(EvalError::TypeMismatch),
    }
}

/// An operator applied to a string that is no integer and an integer; `string_first`
/// tells which of them stands on the left.
pub open spec fn str_int_infix(op: InfixOperator, s: Seq<char>, n: i64, string_first: bool) -> Result<
    ValueModel,
    EvalError,
> {
    match op {
        InfixOperator::Add => Ok(
            ValueModel::Str(
                if string_first {
                    s + decimal(n as int)
                } else {
                    decimal(n as int) + s
                },
            ),
        ),
        InfixOperator::Mul => if n < 0 {
            Err(EvalError::TypeMismatch)
        } else {
            Ok(ValueModel::Str(repeat(s, n as nat)))
        },
        _ => Err(EvalError::TypeMismatch),
    }
}

/// An operator applied to two values.
pub open spec fn infix_spec(op: InfixOperator, l: ValueModel, r: ValueModel) -> Result<
    ValueModel,
    EvalError,
> {
    match (l, r) {
        (ValueModel::Null, ValueModel::Null) => match op {
            InfixOperator::Equal => Ok(ValueModel::Bool(true)),
            InfixOperator::NotEqual => Ok(ValueModel::Bool(false)),
            _ => Err(EvalError::TypeMismatch),
        },
        (ValueModel::Int(a), ValueModel::Int(b)) => int_infix(op, a, b),
        (ValueModel::Bool(a), ValueModel::Bool(b)) => match op {
            InfixOperator::Equal => Ok(ValueModel::Bool(a == b)),
            InfixOperator::NotEqual => Ok(ValueModel::Bool(a != b)),
            _ => Err(EvalError::TypeMismatch),
        },
        (ValueModel::Str(a), ValueModel::Str(b)) => str_infix(op, a, b),
        (ValueModel::Str(a), ValueModel::Int(b)) => match parse_int(a) {
            Some(x) => int_infix(op, x as i64, b),
            None => str_int_infix(op, a, b, true),
        },
        (ValueModel::Int(a), ValueModel::Str(b)) => match parse_int(b) {
            Some(x) => int_infix(op, a, x as i64),
            None => str_int_infix(op, b, a, false),
        },
        (ValueModel::Int(a), ValueModel::Bool(b)) | (ValueModel::Bool(b), ValueModel::Int(a)) => {
            match op {
                InfixOperator::Equal => Ok(ValueModel::Bool((a != 0) == b)),
                InfixOperator::NotEqual => Ok(ValueModel::Bool((a != 0) != b)),
                _ => Err(EvalError::TypeMismatch),
            }
        },
        _ => Err(EvalError::TypeMismatch),
    }
}

/// `r` is the value that `spec` asks for, or the same error.
pub open spec fn meets(r: Result<Value, EvalError>, spec: Result<ValueModel, EvalError>) -> bool {
    match spec {
        Ok(m) => r is Ok && model(r->Ok_0) == m,
        Err(e) => r == Err::<Value, EvalError>(e),
    }
}

/// `!` applied to a value.
pub fn eval_bang(rhs: &Value) -> (r: Value)
    ensures
        r == Value::Bool(bang_spec(model(*rhs))),
    decreases rhs,
{
    match rhs {
        Value::Null => Value::Bool(true),
        Value::Return(inner) => eval_bang(inner),
        Value::Int(n) => Value::Bool(*n == 0),
        Value::Bool(b) => Value::Bool(!*b),
        _ => Value::Bool(false),
    }
}

/// Unary `-` applied to a value.
pub fn eval_neg(rhs: &Value) -> (r: Result<Value, EvalError>)
    ensures
        meets(r, neg_spec(model(*rhs))),
    decreases rhs,
{
    match rhs {
        Value::Int(n) => {
            if *n == i64::MIN {
                Err(EvalError::Arithmetic)
            } else {
                Ok(Value::Int(-*n))
            }
        },
        _ => Err(EvalError::TypeMismatch),
    }
}

/// A prefix operator applied to a value.
pub open spec fn prefix_spec(operator: PrefixOperator, v: ValueModel) -> Result<ValueModel, EvalError> {
    match operator {
        PrefixOperator::Not => Ok(ValueModel::Bool(bang_spec(v))),
        PrefixOperator::Neg => neg_spec(v),
    }
}

/// An index applied to an array: a negative index counts once from the end, and
/// one out of range gives `null`.
pub open spec fn array_index_spec(items: Seq<ValueModel>, i: i64) -> ValueModel {
    let n = items.len() as int;
    if 0 <= i < n {
        items[i as int]
    } else if -n <= i < 0 {
        items[i + n]
    } else {
        ValueModel::Null
    }
}

/// A prefix operator applied to a value.
pub fn eval_prefix(operator: PrefixOperator, rhs: &Value) -> (r: Result<Value, EvalError>)
    ensures
        meets(r, prefix_spec(operator, model(*rhs))),
        operator == PrefixOperator::Not ==> r == Ok::<Value, EvalError>(
            Value::Bool(bang_spec(model(*rhs))),
        ),
{
    match operator {
        PrefixOperator::Not => Ok(eval_bang(rhs)),
        PrefixOperator::Neg => eval_neg(rhs),
    }
}

fn int_result(r: Option<i64>) -> (out: Result<Value, EvalError>)
    ensures
        meets(out, checked(r)),
{
    match r {
        Some(n) => Ok(Value::Int(n)),
        None => Err(EvalError::Arithmetic),
    }
}

fn eval_int_infix(op: InfixOperator, a: i64, b: i64) -> (r: Result<Value, EvalError>)
    ensures
        meets(r, int_infix(op, a, b)),
{
    match op {
        InfixOperator::Add => int_result(a.checked_add(b)),
        InfixOperator::Sub => int_result(a.checked_sub(b)),
        InfixOperator::Mul => int_result(a.checked_mul(b)),
        InfixOperator::Div => int_result(a.checked_div(b)),
        InfixOperator::Modulo => int_result(a.checked_rem(b)),
        InfixOperator::Equal => Ok(Value::Bool(a == b)),
        InfixOperator::NotEqual => Ok(Value::Bool(a != b)),
        InfixOperator::GreaterThan => Ok(Value::Bool(a > b)),
        InfixOperator::LessThan => Ok(Value::Bool(a < b)),
        InfixOperator::GreaterThanOrEqual => Ok(Value::Bool(a >= b)),
        InfixOperator::LessThanOrEqual => Ok(Value::Bool(a <= b)),
    }
}

/// Whether `a` comes before `b` in lexicographic order.
pub fn less_than(a: &[char], b: &[char]) -> (r: bool)
    ensures
        r == seq_lt(a@, b@),
{
    let mut i: usize = 0;
    assert(a@.subrange(0, a@.len() as int) == a@);
    assert(b@.subrange(0, b@.len() as int) == b@);
    while i < a.len() && i < b.len() && a[i] == b[i]
        invariant
            i <= a@.len(),
            i <= b@.len(),
            seq_lt(a@, b@) == seq_lt(
                a@.subrange(i as int, a@.len() as int),
                b@.subrange(i as int, b@.len() as int),
            ),
        decreases a@.len() - i,
    {
        proof {
            let sa = a@.subrange(i as int, a@.len() as int);
            let sb = b@.subrange(i as int, b@.len() as int);
            assert(sa.drop_first() == a@.subrange(i + 1, a@.len() as int));
            assert(sb.drop_first() == b@.subrange(i + 1, b@.len() as int));
        }
        i = i + 1;
    }
    proof {
        let sa = a@.subrange(i as int, a@.len() as int);
        let sb = b@.subrange(i as int, b@.len() as int);
        if i < a@.len() && i < b@.len() {
            assert(sa[0] == a@[i as int] && sb[0] == b@[i as int]);
        }
    }
    if i == a.len() {
        i < b.len()
    } else if i == b.len() {
        false
    } else {
        (a[i] as u32) < (b[i] as u32)
    }
}

/// `s` written `n` times.
fn repeat_string(s: &String, n: i64) -> (r: String)
    requires
        n >= 0,
    ensures
        r@ == repeat(s@, n as nat),
{
    let mut out = String::new();
    let mut i: i64 = 0;
    while i < n
        invariant
            0 <= i <= n,
            out@ == repeat(s@, i as nat),
        decreases n - i,
    {
        push_str(&mut out, s.as_str());
        i = i + 1;
    }
    out
}

fn eval_str_int(op: InfixOperator, s: &String, n: i64, string_first: bool) -> (r: Result<
    Value,
    EvalError,
>)
    ensures
        meets(r, str_int_infix(op, s@, n, string_first)),
{
    match op {
        InfixOperator::Add => {
            let mut out = String::new();
            if string_first {
                push_str(&mut out, s.as_str());
                push_decimal(&mut out, n);
            } else {
                push_decimal(&mut out, n);
                push_str(&mut out, s.as_str());
            }
            Ok(Value::String(out))
        },
        InfixOperator::Mul => {
            if n < 0 {
                Err(EvalError::TypeMismatch)
            } else {
                Ok(Value::String(repeat_string(s, n)))
            }
        },
        _ => Err(EvalError::TypeMismatch),
    }
}

fn eval_str_infix(op: InfixOperator, a: &String, b: &String) -> (r: Result<Value, EvalError>)
    ensures
        meets(r, str_infix(op, a@, b@)),
{
    match op {
        InfixOperator::Add => {
            let mut out = a.clone();
            push_str(&mut out, b.as_str());
            Ok(Value::String(out))
        },
        InfixOperator::Equal => Ok(Value::Bool(*a == *b)),
        InfixOperator::NotEqual => Ok(Value::Bool(!(*a == *b))),
        InfixOperator::LessThan | InfixOperator::GreaterThan | InfixOperator::LessThanOrEqual
        | InfixOperator::GreaterThanOrEqual => {
            let ac = chars_of(a.as_str());
            let bc = chars_of(b.as_str());
            let r = match op {
                InfixOperator::LessThan => less_than(ac.as_slice(), bc.as_slice()),
                InfixOperator::GreaterThan => less_than(bc.as_slice(), ac.as_slice()),
                InfixOperator::LessThanOrEqual => !less_than(bc.as_slice(), ac.as_slice()),
                _ => !less_than(ac.as_slice(), bc.as_slice()),
            };
            Ok(Value::Bool(r))
        },
        _ => Err(EvalError::TypeMismatch),
    }
}

/// An infix operator applied to two values.
pub fn eval_infix(operator: InfixOperator, lhs: &Value, rhs: &Value) -> (r: Result<
    Value,
    EvalError,
>)
    ensures
        meets(r, infix_spec(operator, model(*lhs), model(*rhs))),
{
    match (lhs, rhs) {
        (Value::Null, Value::Null) => match operator {
            InfixOperator::Equal => Ok(Value::Bool(true)),
            InfixOperator::NotEqual => Ok(Value::Bool(false)),
            _ => Err(EvalError::TypeMismatch),
        },
        (Value::Int(a), Value::Int(b)) => eval_int_infix(operator, *a, *b),
        (Value::Bool(a), Value::Bool(b)) => match operator {
            InfixOperator::Equal => Ok(Value::Bool(*a == *b)),
            InfixOperator::NotEqual => Ok(Value::Bool(*a != *b)),
            _ => Err(EvalError::TypeMismatch),
        },
        (Value::String(a), Value::String(b)) => eval_str_infix(operator, a, b),
        (Value::String(a), Value::Int(b)) => {
            let ac = chars_of(a.as_str());
            match parse_i64(ac.as_slice()) {
                Some(x) => eval_int_infix(operator, x, *b),
                None => eval_str_int(operator, a, *b, true),
            }
        },
        (Value::Int(a), Value::String(b)) => {
            let bc = chars_of(b.as_str());
            match parse_i64(bc.as_slice()) {
                Some(x) => eval_int_infix(operator, *a, x),
                None => eval_str_int(operator, b, *a, false),
            }
        },
        (Value::Int(a), Value::Bool(b)) | (Value::Bool(b), Value::Int(a)) => match operator {
            InfixOperator::Equal => Ok(Value::Bool((*a != 0) == *b)),
            InfixOperator::NotEqual => Ok(Value::Bool((*a != 0) != *b)),
            _ => Err(EvalError::TypeMismatch),
        },
        _ => Err(EvalError::TypeMismatch),
    }
}

/// The element of an array at an index; a negative index counts once from the end,
/// and an index out of range gives `null`.
pub fn eval_array(array: Vec<Value>, idx: i64) -> (r: Value)
    ensures
        ({
            let n = array@.len() as int;
            if 0 <= idx < n {
                r == array@[idx as int]
            } else if -n <= idx < 0 {
                r == array@[idx + n]
            } else {
                r == Value::Null
            }
        }),
{
    let mut array = array;
    let n = array.len() as u64;
    if idx >= 0 {
        let i = idx as u64;
        if i < n {
            array.remove(i as usize)
        } else {
            Value::Null
        }
    } else {
        let m: u64 = ((-(idx + 1)) as u64) + 1;
        if m <= n {
            array.remove((n - m) as usize)
        } else {
            Value::Null
        }
    }
}

/// The first entry of `es` whose key is `key`.
pub open spec fn find_key(es: Seq<(String, Value)>, key: Seq<char>) -> Option<int>
    decreases es.len(),
{
    if es.len() == 0 {
        None
    } else if es[0].0@ == key {
        Some(0)
    } else {
        match find_key(es.drop_first(), key) {
            Some(j) => Some(j + 1),
            None => None,
        }
    }
}

pub proof fn lemma_find_key(es: Seq<(String, Value)>, key: Seq<char>)
    ensures
        match find_key(es, key) {
            Some(j) => 0 <= j < es.len() && es[j].0@ == key && forall|k: int|
                0 <= k < j ==> #[trigger] es[k].0@ != key,
            None => forall|k: int| 0 <= k < es.len() ==> #[trigger] es[k].0@ != key,
        },
    decreases es.len(),
{
    if es.len() > 0 {
        lemma_find_key(es.drop_first(), key);
        if es[0].0@ != key {
            assert forall|k: int| 1 <= k < es.len() implies #[trigger] es[k].0@ == es.drop_first()[k
                - 1].0@ by {}
        }
    }
}

/// Where `key` stands among the entries.
pub fn position_of(es: &Vec<(String, Value)>, key: &String) -> (r: Option<usize>)
    ensures
        match r {
            Some(j) => find_key(es@, key@) == Some(j as int),
            None => find_key(es@, key@) is None,
        },
{
    proof {
        lemma_find_key(es@, key@);
    }
    let mut i: usize = 0;
    while i < es.len()
        invariant
            i <= es@.len(),
            forall|k: int| 0 <= k < i ==> #[trigger] es@[k].0@ != key@,
            match find_key(es@, key@) {
                Some(j) => 0 <= j < es@.len() && es@[j].0@ == key@ && forall|k: int|
                    0 <= k < j ==> #[trigger] es@[k].0@ != key@,
                None => forall|k: int| 0 <= k < es@.len() ==> #[trigger] es@[k].0@ != key@,
            },
        decreases es@.len() - i,
    {
        if es[i].0 == *key {
            return Some(i);
        }
        i = i + 1;
    }
    None
}

/// The value that a map holds under a key, or `null`.
pub fn eval_hash(entries: Vec<(String, Value)>, key: &String) -> (r: Value)
    ensures
        match find_key(entries@, key@) {
            Some(j) => r == entries@[j].1,
            None => r == Value::Null,
        },
{
    proof {
        lemma_find_key(entries@, key@);
    }
    let found = position_of(&entries, key);
    let mut rest = entries;
    match found {
        Some(j) => {
            assert(find_key(entries@, key@) == Some(j as int));
            let (_, v) = rest.remove(j);
            assert(v == entries@[j as int].1);
            v
        },
        None => Value::Null,
    }
}

} // verus!
