use vstd::prelude::*;

use crate::kv::str_eq;

verus! {

/// A JSON-like property value: null, boolean, integer, string, array or object.
/// Objects are ordered lists of key/value entries with string keys.
#[derive(Debug)]
pub enum PropertyValue {
    Null,
    Bool(bool),
    Int(i64),
    Str(String),
    Array(Vec<PropertyValue>),
    Object(Vec<(String, PropertyValue)>),
}

/// Structural equality of two property values; strings compare by their
/// character sequences, arrays and objects compare entry by entry, in order.
pub open spec fn pv_eq(a: PropertyValue, b: PropertyValue) -> bool
    decreases a,
{
    match (a, b) {
        (PropertyValue::Null, PropertyValue::Null) => true,
        (PropertyValue::Bool(x), PropertyValue::Bool(y)) => x == y,
        (PropertyValue::Int(x), PropertyValue::Int(y)) => x == y,
        (PropertyValue::Str(x), PropertyValue::Str(y)) => x@ == y@,
        (PropertyValue::Array(x), PropertyValue::Array(y)) => {
            &&& x@.len() == y@.len()
            &&& forall|i: int| 0 <= i < x@.len() ==> pv_eq(x@[i], y@[i])
        },
        (PropertyValue::Object(x), PropertyValue::Object(y)) => {
            &&& x@.len() == y@.len()
            &&& forall|i: int|
                0 <= i < x@.len() ==> x@[i].0@ == y@[i].0@ && pv_eq(x@[i].1, y@[i].1)
        },
        _ => false,
    }
}

impl PropertyValue {
    /// Decide structural equality with another value.
    pub fn eq_value(&self, other: &PropertyValue) -> (r: bool)
        ensures
            r == pv_eq(*self, *other),
        decreases *self,
    {
        match (self, other) {
            (PropertyValue::Null, PropertyValue::Null) => true,
            (PropertyValue::Bool(x), PropertyValue::Bool(y)) => *x == *y,
            (PropertyValue::Int(x), PropertyValue::Int(y)) => *x == *y,
            (PropertyValue::Str(x), PropertyValue::Str(y)) => str_eq(
                x.as_str(),
                y.as_str(),
            ),
            (PropertyValue::Array(x), PropertyValue::Array(y)) => {
                if x.len() != y.len() {
                    return false;
                }
                let mut i: usize = 0;
                while i < x.len()
                    invariant
                        0 <= i <= x@.len(),
                        x@.len() == y@.len(),
                        *self == PropertyValue::Array(*x),
                        *other == PropertyValue::Array(*y),
                        forall|j: int| 0 <= j < i ==> pv_eq(x@[j], y@[j]),
                    decreases x@.len() - i,
                {
                    proof {
                        assert(decreases_to!(*self => self->Array_0));
                        assert(decreases_to!(self->Array_0 => x@));
                        assert(decreases_to!(x@ => x@[i as int]));
                    }
                    if !x[i].eq_value(&y[i]) {
                        return false;
                    }
                    i = i + 1;
                }
                true
            },
            (PropertyValue::Object(x), PropertyValue::Object(y)) => {
                if x.len() != y.len() {
                    return false;
                }
                let mut i: usize = 0;
                while i < x.len()
                    invariant
                        0 <= i <= x@.len(),
                        x@.len() == y@.len(),
                        *self == PropertyValue::Object(*x),
                        *other == PropertyValue::Object(*y),
                        forall|j: int|
                            0 <= j < i ==> x@[j].0@ == y@[j].0@ && pv_eq(x@[j].1, y@[j].1),
                    decreases x@.len() - i,
                {
                    if !str_eq(x[i].0.as_str(), y[i].0.as_str()) {
                        return false;
                    }
                    proof {
                        assert(decreases_to!(*self => self->Object_0));
                        assert(decreases_to!(self->Object_0 => x@));
                        assert(decreases_to!(x@ => x@[i as int]));
                        assert(decreases_to!(x@[i as int] => x@[i as int].1));
                    }
                    if !x[i].1.eq_value(&y[i].1) {
                        return false;
                    }
                    i = i + 1;
                }
                true
            },
            _ => false,
        }
    }
}

} // verus!
