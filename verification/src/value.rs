//! Configuration values, as effects and pattern options take them.
use vstd::prelude::*;

verus! {

/// One value of a configuration file.
pub enum Value {
    String(String),
    Integer(i64),
    /// A floating-point number, as its IEEE 754 double-precision bit pattern.
    Float(u64),
    Boolean(bool),
    /// A date and time, in its ISO 8601 text form.
    Datetime(String),
    /// A list. No effect or pattern takes one, so its items are not kept.
    Array,
    /// A table. No effect or pattern takes one, so its entries are not kept.
    Table,
}

impl Value {
    /// Whether a pattern script can take this value as an option: every value
    /// but a list or a table.
    pub open spec fn is_scalar(&self) -> bool {
        !(self is Array) && !(self is Table)
    }

    /// The low 32 bits of an integer value, read as a signed number; nothing
    /// for a value that is no integer.
    pub open spec fn as_mix_value(&self) -> Option<i32> {
        match self {
            Value::Integer(x) => Some(*x as i32),
            _ => None,
        }
    }

    /// The number that an effect mixes in for this value, if it is an integer.
    pub fn mix_value(&self) -> (value: Option<i32>)
        ensures
            value == self.as_mix_value(),
    {
        match self {
            Value::Integer(x) => Some(#[verifier::truncate] (*x as i32)),
            _ => None,
        }
    }

    /// A copy of this value.
    pub fn duplicate(&self) -> (copy: Value)
        ensures
            copy == *self,
    {
        match self {
            Value::String(s) => Value::String(s.clone()),
            Value::Integer(x) => Value::Integer(*x),
            Value::Float(bits) => Value::Float(*bits),
            Value::Boolean(b) => Value::Boolean(*b),
            Value::Datetime(s) => Value::Datetime(s.clone()),
            Value::Array => Value::Array,
            Value::Table => Value::Table,
        }
    }
}

} // verus!
