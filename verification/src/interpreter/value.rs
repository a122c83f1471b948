//! Runtime values and runtime errors.
use vstd::prelude::*;
use crate::stdlib::registry::NativeFn;

use crate::text::{append_chars, append_str, decimal, decimal_chars, string_of};
verus! {

/// A function value: a native function or a user function, by name.
#[derive(Debug, PartialEq)]
pub enum FnValue {
    Native(NativeFn),
    UserDefined(String),
}

/// A runtime value. A floating-point number is held as its IEEE-754 bit
/// pattern (the library itself does no floating-point arithmetic).
#[derive(Debug, PartialEq)]
#[allow(inconsistent_fields)]
pub enum Value {
    Int(i64),
    Float(u64),
    Str(String),
    Bool(bool),
    Void,
    Array(Vec<Value>),
    Struct { identifier: String, fields: Vec<(String, Value)> },
    Union { identifier: String, active_field: String, value: Box<Value> },
    Enum { identifier: String, value: i64 },
    Fn(FnValue),
}

/// Structural equality of values, with strings compared by their characters.
pub open spec fn val_eq(a: Value, b: Value) -> bool
    decreases a,
{
    match (a, b) {
        (Value::Int(x), Value::Int(y)) => x == y,
        (Value::Float(x), Value::Float(y)) => x == y,
        (Value::Str(x), Value::Str(y)) => x@ == y@,
        (Value::Bool(x), Value::Bool(y)) => x == y,
        (Value::Void, Value::Void) => true,
        (Value::Array(x), Value::Array(y)) =>
            x.len() == y.len() && forall|i: int| 0 <= i < x.len() ==> val_eq(#[trigger] x@[i], y@[i]),
        (Value::Struct { identifier: i1, fields: f1 }, Value::Struct { identifier: i2, fields: f2 }) =>
            i1@ == i2@ && f1.len() == f2.len() && forall|i: int| 0 <= i < f1.len() ==>
                (#[trigger] f1@[i]).0@ == f2@[i].0@ && val_eq(f1@[i].1, f2@[i].1),
        (Value::Union { identifier: i1, active_field: a1, value: v1 }, Value::Union { identifier: i2, active_field: a2, value: v2 }) =>
            i1@ == i2@ && a1@ == a2@ && val_eq(*v1, *v2),
        (Value::Enum { identifier: i1, value: v1 }, Value::Enum { identifier: i2, value: v2 }) => i1@ == i2@ && v1 == v2,
        (Value::Fn(FnValue::Native(f1)), Value::Fn(FnValue::Native(f2))) => f1 == f2,
        (Value::Fn(FnValue::UserDefined(n1)), Value::Fn(FnValue::UserDefined(n2))) => n1@ == n2@,
        _ => false,
    }
}

/// Structural equality of values is transitive.
pub proof fn lemma_val_eq_trans(a: Value, b: Value, c: Value)
    requires
        val_eq(a, b),
        val_eq(b, c),
    ensures
        val_eq(a, c),
    decreases a,
{
    match (a, b, c) {
        (Value::Array(x), Value::Array(y), Value::Array(z)) => {
            assert forall|i: int| 0 <= i < x.len() implies val_eq(#[trigger] x@[i], z@[i]) by {
                assert(val_eq(x@[i], y@[i]));
                assert(val_eq(y@[i], z@[i]));
                lemma_val_eq_trans(x@[i], y@[i], z@[i]);
            }
        },
        (Value::Struct { fields: f1, .. }, Value::Struct { fields: f2, .. }, Value::Struct { fields: f3, .. }) => {
            assert forall|i: int| 0 <= i < f1.len() implies (#[trigger] f1@[i]).0@ == f3@[i].0@ && val_eq(f1@[i].1, f3@[i].1) by {
                assert(f1@[i].0@ == f2@[i].0@ && val_eq(f1@[i].1, f2@[i].1));
                assert(f2@[i].0@ == f3@[i].0@ && val_eq(f2@[i].1, f3@[i].1));
                lemma_val_eq_trans(f1@[i].1, f2@[i].1, f3@[i].1);
            }
        },
        (Value::Union { value: v1, .. }, Value::Union { value: v2, .. }, Value::Union { value: v3, .. }) => {
            lemma_val_eq_trans(*v1, *v2, *v3);
        },
        _ => {},
    }
}

impl Value {
    /// A copy of the value.
    #[verifier::loop_isolation(false)]
    pub fn duplicate(&self) -> (r: Value)
        ensures
            val_eq(r, *self),
        decreases *self,
    {
        match self {
            Value::Int(n) => Value::Int(*n),
            Value::Float(x) => Value::Float(*x),
            Value::Str(s) => Value::Str(s.clone()),
            Value::Bool(b) => Value::Bool(*b),
            Value::Void => Value::Void,
            Value::Array(items) => {
                let mut out: Vec<Value> = Vec::new();
                let mut i: usize = 0;
                while i < items.len()
                    invariant
                        i <= items.len(),
                        out.len() == i,
                        forall|k: int| 0 <= k < i ==> val_eq(#[trigger] out@[k], items@[k]),
                    decreases items.len() - i,
                {
                    proof {
                        assert(decreases_to!(*self => *items));
                        assert(decreases_to!(*items => items@));
                        assert(decreases_to!(items@ => items@[i as int]));
                    }
                    out.push(items[i].duplicate());
                    i = i + 1;
                }
                Value::Array(out)
            },
            Value::Struct { identifier, fields } => {
                let mut out: Vec<(String, Value)> = Vec::new();
                let mut i: usize = 0;
                while i < fields.len()
                    invariant
                        i <= fields.len(),
                        out.len() == i,
                        forall|k: int| 0 <= k < i ==> (#[trigger] out@[k]).0@ == fields@[k].0@ && val_eq(out@[k].1, fields@[k].1),
                    decreases fields.len() - i,
                {
                    proof {
                        assert(decreases_to!(*self => *fields));
                        assert(decreases_to!(*fields => fields@));
                        assert(decreases_to!(fields@ => fields@[i as int]));
                        assert(decreases_to!(fields@[i as int] => fields@[i as int].1));
                    }
                    out.push((fields[i].0.clone(), fields[i].1.duplicate()));
                    i = i + 1;
                }
                Value::Struct { identifier: identifier.clone(), fields: out }
            },
            Value::Union { identifier, active_field, value } => Value::Union {
                identifier: identifier.clone(),
                active_field: active_field.clone(),
                value: Box::new(value.duplicate()),
            },
            Value::Enum { identifier, value } => Value::Enum { identifier: identifier.clone(), value: *value },
            Value::Fn(FnValue::Native(f)) => Value::Fn(FnValue::Native(*f)),
            Value::Fn(FnValue::UserDefined(n)) => Value::Fn(FnValue::UserDefined(n.clone())),
        }
    }
}

/// A runtime error, with a message.
#[derive(Debug, PartialEq)]
pub struct RuntimeError {
    pub message: String,
}

impl RuntimeError {
    /// An error with the given message.
    pub fn new(message: &str) -> (r: Self)
        ensures
            r.message@ == message@,
    {
        RuntimeError { message: String::from_str(message) }
    }

    /// An error whose message is `before`, then `name`, then `after`.
    pub fn named(before: &str, name: &str, after: &str) -> (r: Self)
        ensures
            r.message@ == before@ + name@ + after@,
    {
        let mut m: Vec<char> = Vec::new();
        append_str(&mut m, before);
        append_str(&mut m, name);
        append_str(&mut m, after);
        RuntimeError { message: string_of(&m) }
    }

    /// The error `array index <idx> out of bounds (len <len>)`.
    pub fn index_out_of_bounds(idx: u64, len: u64) -> (r: Self)
        ensures
            r.message@ == "array index "@ + decimal(idx as nat) + " out of bounds (len "@ + decimal(len as nat) + ")"@,
    {
        let mut m: Vec<char> = Vec::new();
        append_str(&mut m, "array index ");
        append_chars(&mut m, &decimal_chars(idx));
        append_str(&mut m, " out of bounds (len ");
        append_chars(&mut m, &decimal_chars(len));
        append_str(&mut m, ")");
        RuntimeError { message: string_of(&m) }
    }
}

} // verus!
