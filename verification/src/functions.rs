//! The builtin procedures, and the call of one by the name that a procedure value holds.
use vstd::prelude::*;
use crate::error::EvalError;
use crate::value::{Builtin, Value};
use crate::functions::maths::{
    always_callable, answers, arithmetic, arithmetic_may_give, arithmetic_of_a_function,
    arithmetic_under_a_function, computes, determined, function, selection, Extreme,
};
use crate::functions::operators::comparison;

pub mod maths;
pub mod operators;

verus! {

/// What the builtin `procedure` returns on `args`, with `k` for the kernel.
pub open spec fn applied(
    k: spec_fn(maths::Operation, u64, u64) -> u64,
    procedure: Builtin,
    args: Seq<Value>,
) -> Result<Value, EvalError> {
    match procedure {
        Builtin::Add => arithmetic(k, maths::Operation::Add, args),
        Builtin::Subtract => arithmetic(k, maths::Operation::Subtract, args),
        Builtin::Multiply => arithmetic(k, maths::Operation::Multiply, args),
        Builtin::Divide => arithmetic(k, maths::Operation::Divide, args),
        Builtin::Max => selection(Extreme::Maximum, args),
        Builtin::Min => selection(Extreme::Minimum, args),
        Builtin::Eq => comparison(operators::Operation::Equals, args),
        Builtin::Lt => comparison(operators::Operation::LessThan, args),
        Builtin::Lte => comparison(operators::Operation::LessThanOrEquals, args),
        Builtin::Gt => comparison(operators::Operation::GreaterThan, args),
        Builtin::Gte => comparison(operators::Operation::GreaterThanOrEquals, args),
        Builtin::Not => comparison(operators::Operation::Not, args),
    }
}

/// Whether the builtin `procedure` can return `result` on `args`, going by what the
/// kernel can return. Only the four arithmetic builtins ask the kernel.
pub open spec fn application_may_give(
    can: spec_fn(maths::Operation, u64, u64, u64) -> bool,
    procedure: Builtin,
    args: Seq<Value>,
    result: Result<Value, EvalError>,
) -> bool {
    match procedure {
        Builtin::Add => arithmetic_may_give(can, maths::Operation::Add, args, result),
        Builtin::Subtract => arithmetic_may_give(can, maths::Operation::Subtract, args, result),
        Builtin::Multiply => arithmetic_may_give(can, maths::Operation::Multiply, args, result),
        Builtin::Divide => arithmetic_may_give(can, maths::Operation::Divide, args, result),
        Builtin::Max => result == selection(Extreme::Maximum, args),
        Builtin::Min => result == selection(Extreme::Minimum, args),
        Builtin::Eq => result == comparison(operators::Operation::Equals, args),
        Builtin::Lt => result == comparison(operators::Operation::LessThan, args),
        Builtin::Lte => result == comparison(operators::Operation::LessThanOrEquals, args),
        Builtin::Gt => result == comparison(operators::Operation::GreaterThan, args),
        Builtin::Gte => result == comparison(operators::Operation::GreaterThanOrEquals, args),
        Builtin::Not => result == comparison(operators::Operation::Not, args),
    }
}

/// Where a function says what can be returned, a builtin can only return what it
/// returns under that function.
pub proof fn application_of_a_function(
    can: spec_fn(maths::Operation, u64, u64, u64) -> bool,
    k: spec_fn(maths::Operation, u64, u64) -> u64,
    procedure: Builtin,
    args: Seq<Value>,
    result: Result<Value, EvalError>,
)
    requires
        determined(can, k),
        application_may_give(can, procedure, args, result),
    ensures
        result == applied(k, procedure, args),
{
    match procedure {
        Builtin::Add => arithmetic_of_a_function(can, k, maths::Operation::Add, args, result),
        Builtin::Subtract => arithmetic_of_a_function(
            can,
            k,
            maths::Operation::Subtract,
            args,
            result,
        ),
        Builtin::Multiply => arithmetic_of_a_function(
            can,
            k,
            maths::Operation::Multiply,
            args,
            result,
        ),
        Builtin::Divide => arithmetic_of_a_function(can, k, maths::Operation::Divide, args, result),
        _ => {},
    }
}

/// Where a function says what can be returned, a builtin can return what it returns
/// under that function.
pub proof fn application_under_a_function(
    k: spec_fn(maths::Operation, u64, u64) -> u64,
    procedure: Builtin,
    args: Seq<Value>,
)
    ensures
        application_may_give(function(k), procedure, args, applied(k, procedure, args)),
{
    arithmetic_under_a_function(k, maths::Operation::Add, args);
    arithmetic_under_a_function(k, maths::Operation::Subtract, args);
    arithmetic_under_a_function(k, maths::Operation::Multiply, args);
    arithmetic_under_a_function(k, maths::Operation::Divide, args);
}

/// Calls the builtin that a procedure value refers to.
pub fn apply<K: Fn(maths::Operation, u64, u64) -> u64>(
    procedure: Builtin,
    args: Vec<Value>,
    kernel: &K,
) -> (result: Result<Value, EvalError>)
    requires
        always_callable(*kernel),
    ensures
        forall|k: spec_fn(maths::Operation, u64, u64) -> u64| #[trigger]
            computes(*kernel, k) ==> result == applied(k, procedure, args@),
        application_may_give(answers(*kernel), procedure, args@, result),
{
    match procedure {
        Builtin::Add => crate::functions::maths::add(args, kernel),
        Builtin::Subtract => crate::functions::maths::subtract(args, kernel),
        Builtin::Multiply => crate::functions::maths::multiply(args, kernel),
        Builtin::Divide => crate::functions::maths::divide(args, kernel),
        Builtin::Max => crate::functions::maths::max(args),
        Builtin::Min => crate::functions::maths::min(args),
        Builtin::Eq => crate::functions::operators::eq(args),
        Builtin::Lt => crate::functions::operators::lt(args),
        Builtin::Lte => crate::functions::operators::lte(args),
        Builtin::Gt => crate::functions::operators::gt(args),
        Builtin::Gte => crate::functions::operators::gte(args),
        Builtin::Not => crate::functions::operators::not(args),
    }
}

} // verus!
