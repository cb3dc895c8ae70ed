use vstd::prelude::*;

use crate::value::{SpecValue, Value, ValueMap};

verus! {

/// A type that can become the text of a message or a name.
pub trait IntoText {
    /// The text the value becomes.
    spec fn text_spec(&self) -> Seq<char>;

    /// The value as a `String`.
    fn into_text(self) -> (r: String)
        ensures
            r@ == self.text_spec(),
    ;
}

impl<'a> IntoText for &'a str {
    open spec fn text_spec(&self) -> Seq<char> {
        (*self)@
    }

    fn into_text(self) -> (r: String) {
        self.to_owned()
    }
}

impl IntoText for String {
    open spec fn text_spec(&self) -> Seq<char> {
        self@
    }

    fn into_text(self) -> (r: String) {
        self
    }
}

impl<'a> IntoText for &'a String {
    open spec fn text_spec(&self) -> Seq<char> {
        (*self)@
    }

    fn into_text(self) -> (r: String) {
        self.clone()
    }
}

/// A type that can become a `Value`.
pub trait IntoValue {
    /// The model of the value it becomes.
    spec fn value_spec(&self) -> SpecValue;

    /// The value as a `Value`.
    fn into_value(self) -> (r: Value)
        ensures
            r@ == self.value_spec(),
    ;
}

impl IntoValue for Value {
    open spec fn value_spec(&self) -> SpecValue {
        self@
    }

    fn into_value(self) -> (r: Value) {
        self
    }
}

impl<'a> IntoValue for &'a str {
    open spec fn value_spec(&self) -> SpecValue {
        SpecValue::String((*self)@)
    }

    fn into_value(self) -> (r: Value) {
        Value::String(self.to_owned())
    }
}

impl IntoValue for String {
    open spec fn value_spec(&self) -> SpecValue {
        SpecValue::String(self@)
    }

    fn into_value(self) -> (r: Value) {
        Value::String(self)
    }
}

impl IntoValue for bool {
    open spec fn value_spec(&self) -> SpecValue {
        SpecValue::Bool(*self)
    }

    fn into_value(self) -> (r: Value) {
        Value::Bool(self)
    }
}

impl IntoValue for i64 {
    open spec fn value_spec(&self) -> SpecValue {
        SpecValue::Int(*self as int)
    }

    fn into_value(self) -> (r: Value) {
        Value::Int(self)
    }
}

impl IntoValue for i32 {
    open spec fn value_spec(&self) -> SpecValue {
        SpecValue::Int(*self as int)
    }

    fn into_value(self) -> (r: Value) {
        Value::Int(self as i64)
    }
}

impl IntoValue for Vec<u8> {
    open spec fn value_spec(&self) -> SpecValue {
        SpecValue::Bytes(self@)
    }

    fn into_value(self) -> (r: Value) {
        Value::Bytes(self)
    }
}

impl IntoValue for Vec<Value> {
    open spec fn value_spec(&self) -> SpecValue {
        Value::List(*self)@
    }

    fn into_value(self) -> (r: Value) {
        Value::List(self)
    }
}

impl IntoValue for ValueMap {
    open spec fn value_spec(&self) -> SpecValue {
        SpecValue::Dict(self@)
    }

    fn into_value(self) -> (r: Value) {
        Value::Dict(self)
    }
}

} // verus!
