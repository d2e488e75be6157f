//! The ways in which reading and evaluating fail.
use vstd::prelude::*;

verus! {

/// Why reading or evaluating an expression stopped.
#[derive(Clone, Copy, PartialEq, Eq, Structural, Debug)]
pub enum EvalError {
    /// A `)` stands where a form has to begin, or text follows the one form of a program.
    UnexpectedToken,
    /// The tokens ran out before a form was complete.
    UnexpectedEndOfInput,
    /// `quote`, `if`, `define` or `set!` with the wrong number or shape of operands.
    MalformedSpecialForm,
    /// A name that no scope of the chain binds.
    UnboundVariable,
    /// A value that is not a number where a number is required.
    TypeMismatch,
    /// The operator of an application is not a procedure.
    NotCallable,
    /// A builtin procedure applied to no arguments.
    ArityError,
    /// The empty list `()` was evaluated.
    EmptyApplication,
}

} // verus!
