//! The values that expressions evaluate to.
use vstd::prelude::*;

verus! {

/// The builtin procedures, by name. A procedure value refers to one of them.
#[derive(Clone, Copy, PartialEq, Eq, Structural, Debug)]
pub enum Builtin {
    Add,
    Subtract,
    Multiply,
    Divide,
    Max,
    Min,
    Eq,
    Lt,
    Lte,
    Gt,
    Gte,
    Not,
}

/// What an expression evaluates to.
#[derive(PartialEq, Eq, Structural, Debug)]
pub enum Value {
    /// A builtin procedure.
    Procedure(Builtin),
    /// A number, as the bit pattern of an IEEE-754 binary64 value.
    Number(u64),
    /// No usable data.
    Empty,
}

impl Value {
    /// A copy with the same tag and payload.
    pub fn clone(&self) -> (copy: Value)
        ensures
            copy == *self,
    {
        match self {
            Value::Procedure(b) => Value::Procedure(*b),
            Value::Number(n) => Value::Number(*n),
            Value::Empty => Value::Empty,
        }
    }
}

} // verus!
