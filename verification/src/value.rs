//! The runtime-tagged datum that flows along connections.

use vstd::prelude::*;

verus! {

/// A value produced at an output port and consumed at an input port.
///
/// `Empty` is the "no value" sentinel: it is what a sink node returns,
/// what a broken (cyclic) input contributes, and what an absent entry of
/// an input mapping reads as.
#[derive(Clone, Copy, PartialEq, Eq, Structural, Debug)]
pub enum Value {
    /// Absence of a value.
    Empty,
    /// A numeric payload.
    Number(i64),
}

/// Error raised by the primitive conversion helpers when a value's tag
/// does not match the requested primitive kind.
#[derive(Clone, Copy, PartialEq, Eq, Structural, Debug)]
pub enum ValueError {
    TypeMismatch,
}

impl Value {
    /// The numeric payload, or `alt` when the value is `Empty`.
    pub open spec fn spec_number_or(self, alt: i64) -> i64 {
        match self {
            Value::Number(n) => n,
            Value::Empty => alt,
        }
    }

    /// Conversion to the numeric primitive; signals a tag mismatch
    /// distinctly from a successful conversion.
    pub fn as_number(&self) -> (r: Result<i64, ValueError>)
        ensures
            r == match *self {
                Value::Number(n) => Ok::<i64, ValueError>(n),
                Value::Empty => Err::<i64, ValueError>(ValueError::TypeMismatch),
            },
    {
        match *self {
            Value::Number(n) => Ok(n),
            Value::Empty => Err(ValueError::TypeMismatch),
        }
    }

    /// Conversion to the numeric primitive with a fallback for `Empty`.
    pub fn number_or(&self, alt: i64) -> (r: i64)
        ensures
            r == self.spec_number_or(alt),
    {
        match *self {
            Value::Number(n) => n,
            Value::Empty => alt,
        }
    }

    /// Whether this is the "no value" sentinel.
    pub fn is_no_value(&self) -> (r: bool)
        ensures
            r == (*self is Empty),
    {
        match *self {
            Value::Empty => true,
            Value::Number(_) => false,
        }
    }
}

} // verus!
