//! The core value type used in the virtual machine.
use vstd::prelude::*;
use crate::builtins::{BuiltinFn, FnM, fn_type, signature_of};
use crate::errors::{ExprResult, ErrorM, errors_view, runtime_type_mismatch};
use crate::text::{owned, push_str};
use crate::types::{Type, TypeM, ty_name};

verus! {

/// A value computed by the virtual machine.
#[derive(Debug, PartialEq)]
pub enum Value {
    String(String),
    Fn(Box<BuiltinFn>),
    Bool(bool),
    Type(Box<Type>),
}

/// The mathematical model of a [`Value`].
pub enum ValueM {
    Str(Seq<char>),
    Fn(FnM),
    Bool(bool),
    Ty(TypeM),
}

impl View for Value {
    type V = ValueM;

    open spec fn view(&self) -> ValueM {
        match self {
            Value::String(s) => ValueM::Str(s@),
            Value::Fn(f) => ValueM::Fn((**f)@),
            Value::Bool(b) => ValueM::Bool(*b),
            Value::Type(t) => ValueM::Ty((**t)@),
        }
    }
}

/// The type of a value.
pub open spec fn value_type(v: ValueM) -> TypeM {
    match v {
        ValueM::Str(_) => TypeM::String,
        ValueM::Fn(f) => fn_type(f),
        ValueM::Bool(_) => TypeM::Bool,
        ValueM::Ty(t) => t,
    }
}

/// The type a function value is expected to have where a function is required.
pub open spec fn any_fn_type() -> TypeM {
    TypeM::Fn { args: Seq::empty(), variadic_arg: Some(Box::new(TypeM::Value)), return_type: Box::new(TypeM::Value) }
}

/// How a value is displayed: strings between backticks, functions by their
/// signature, booleans as `true`/`false`, types by their name.
pub open spec fn display_of(v: ValueM) -> Seq<char> {
    match v {
        ValueM::Str(s) => "`"@ + s + "`"@,
        ValueM::Fn(f) => signature_of(f),
        ValueM::Bool(b) => if b { "true"@ } else { "false"@ },
        ValueM::Ty(t) => ty_name(t),
    }
}

/// Equality of values: functions are equal when their names are.
pub open spec fn value_eq(a: ValueM, b: ValueM) -> bool {
    match (a, b) {
        (ValueM::Str(x), ValueM::Str(y)) => x == y,
        (ValueM::Fn(f), ValueM::Fn(g)) => f.name == g.name,
        (ValueM::Bool(x), ValueM::Bool(y)) => x == y,
        (ValueM::Ty(x), ValueM::Ty(y)) => x == y,
        _ => false,
    }
}

impl Value {
    /// The type of this value.
    pub fn get_type(&self) -> (r: Type)
        ensures
            r@ == value_type(self@),
    {
        match self {
            Value::String(_) => Type::String,
            Value::Fn(f) => f.get_type(),
            Value::Bool(_) => Type::Bool,
            Value::Type(t) => t.duplicate(),
        }
    }

    /// The string held by this value, or a type mismatch.
    pub fn get_string(&self) -> (r: ExprResult<&str>)
        ensures
            match r {
                Ok(s) => self@ == ValueM::Str(s@),
                Err(e) => !(self@ is Str) && errors_view(e@) == seq![
                    (ErrorM::RuntimeTypeMismatch(TypeM::String, value_type(self@)), 0usize, 0usize),
                ],
            },
    {
        match self {
            Value::String(s) => Ok(s.as_str()),
            _ => Err(runtime_type_mismatch(Type::String, self.get_type())),
        }
    }

    /// The function held by this value, or a type mismatch.
    pub fn get_func(&self) -> (r: ExprResult<Box<BuiltinFn>>)
        ensures
            match r {
                Ok(f) => self@ == ValueM::Fn((*f)@),
                Err(e) => !(self@ is Fn) && errors_view(e@) == seq![
                    (ErrorM::RuntimeTypeMismatch(any_fn_type(), value_type(self@)), 0usize, 0usize),
                ],
            },
    {
        match self {
            Value::Fn(f) => Ok(Box::new(f.duplicate())),
            _ => {
                let expected = Type::Fn {
                    args: Vec::new(),
                    variadic_arg: Some(Box::new(Type::Value)),
                    return_type: Box::new(Type::Value),
                };
                assert(expected@ == any_fn_type()) by {
                    reveal_with_fuel(crate::types::type_view, 3);
                    assert(crate::types::types_view(Seq::<Type>::empty()) =~= Seq::<TypeM>::empty());
                }
                Err(runtime_type_mismatch(expected, self.get_type()))
            },
        }
    }

    /// The boolean held by this value, or a type mismatch.
    pub fn get_bool(&self) -> (r: ExprResult<bool>)
        ensures
            match r {
                Ok(b) => self@ == ValueM::Bool(b),
                Err(e) => !(self@ is Bool) && errors_view(e@) == seq![
                    (ErrorM::RuntimeTypeMismatch(TypeM::Bool, value_type(self@)), 0usize, 0usize),
                ],
            },
    {
        match self {
            Value::Bool(b) => Ok(*b),
            _ => Err(runtime_type_mismatch(Type::Bool, self.get_type())),
        }
    }

    /// A copy of this value.
    pub fn duplicate(&self) -> (r: Value)
        ensures
            r@ == self@,
    {
        match self {
            Value::String(s) => Value::String(s.clone()),
            Value::Fn(f) => Value::Fn(Box::new(f.duplicate())),
            Value::Bool(b) => Value::Bool(*b),
            Value::Type(t) => Value::Type(Box::new(t.duplicate())),
        }
    }

    /// The display text of this value.
    pub fn to_display_string(&self) -> (r: String)
        ensures
            r@ == display_of(self@),
    {
        match self {
            Value::String(s) => {
                let mut r = owned("`");
                push_str(&mut r, s.as_str());
                push_str(&mut r, "`");
                r
            },
            Value::Fn(f) => f.signature(),
            Value::Bool(b) => if *b { owned("true") } else { owned("false") },
            Value::Type(t) => t.name(),
        }
    }

    /// Whether two values are equal (functions compare by name).
    pub fn equals(&self, other: &Value) -> (r: bool)
        ensures
            r == value_eq(self@, other@),
    {
        match (self, other) {
            (Value::String(a), Value::String(b)) => a.eq(b),
            (Value::Fn(f), Value::Fn(g)) => f.name.eq(&g.name),
            (Value::Bool(a), Value::Bool(b)) => *a == *b,
            (Value::Type(a), Value::Type(b)) => a.same_as(b),
            _ => false,
        }
    }
}


impl From<bool> for Value {
    fn from(value: bool) -> (r: Self) {
        Value::Bool(value)
    }
}

impl vstd::std_specs::convert::FromSpecImpl<bool> for Value {
    open spec fn obeys_from_spec() -> bool {
        true
    }

    open spec fn from_spec(value: bool) -> Self {
        Value::Bool(value)
    }
}

impl From<Value> for Type {
    /// The type of a value. What is stated of the result is its view, given here.
    fn from(value: Value) -> (r: Self)
        ensures
            r@ == value_type(value@),
    {
        match value {
            Value::Type(t) => *t,
            other => other.get_type(),
        }
    }
}

impl vstd::std_specs::convert::FromSpecImpl<Value> for Type {
    /// The result of `from` is stated by its view alone: a `Type` holding a
    /// `Vec` is not fixed by its view.
    open spec fn obeys_from_spec() -> bool {
        false
    }

    open spec fn from_spec(value: Value) -> Self {
        choose|t: Type| t@ == value_type(value@)
    }
}


/// Equality of values, as the `eq` builtin compares them, is an equivalence:
/// reflexive, symmetric and transitive.
pub proof fn value_eq_is_equivalence(a: ValueM, b: ValueM, c: ValueM)
    ensures
        value_eq(a, a),
        value_eq(a, b) ==> value_eq(b, a),
        value_eq(a, b) && value_eq(b, c) ==> value_eq(a, c),
{
}

} // verus!
