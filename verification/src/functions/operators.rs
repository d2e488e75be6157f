//! The comparison builtins `= < <= > >=`, which hold along a whole chain of numbers,
//! and `not`.
use vstd::prelude::*;
use crate::error::EvalError;
use crate::number::{
    is_truthy, num_eq, num_le, num_lt, truth, equal, less, less_or_equal, truthy, ONE, ZERO,
};
use crate::value::Value;

verus! {

/// What a comparison builtin asks of its arguments.
#[derive(Clone, Copy, PartialEq, Eq, Structural, Debug)]
pub enum Operation {
    Equals,
    LessThan,
    LessThanOrEquals,
    GreaterThan,
    GreaterThanOrEquals,
    Not,
}

/// Whether the number `n` may follow the number `previous` in a chain under `op`.
/// `Not` asks nothing of a pair.
pub open spec fn related(op: Operation, previous: u64, n: u64) -> bool {
    match op {
        Operation::Equals => num_eq(previous, n),
        Operation::LessThan => num_lt(previous, n),
        Operation::LessThanOrEquals => num_le(previous, n),
        Operation::GreaterThan => num_lt(n, previous),
        Operation::GreaterThanOrEquals => num_le(n, previous),
        Operation::Not => true,
    }
}

/// Whether the number at `i` keeps the result true: under `Not` it has to be zero,
/// under a comparison it has to stand in the relation to the number before it, which
/// the first number has not.
pub open spec fn passes(op: Operation, args: Seq<Value>, i: int) -> bool {
    match op {
        Operation::Not => !is_truthy(args[i]->Number_0),
        _ => i == 0 || related(op, args[i - 1]->Number_0, args[i]->Number_0),
    }
}

/// The result of looking at the arguments from `i` on, one by one: true at the end,
/// false at the first number that does not pass, a type error at the first argument
/// that is no number. What follows a failure is not looked at.
pub open spec fn scan(op: Operation, args: Seq<Value>, i: int) -> Result<Value, EvalError>
    decreases args.len() - i,
{
    if i < 0 || i >= args.len() {
        Ok(Value::Number(ONE))
    } else if !(args[i] is Number) {
        Err(EvalError::TypeMismatch)
    } else if passes(op, args, i) {
        scan(op, args, i + 1)
    } else {
        Ok(Value::Number(ZERO))
    }
}

/// Each number stands in the relation of `op` to the one before it.
pub open spec fn chain_holds(op: Operation, args: Seq<Value>) -> bool {
    forall|i: int|
        0 <= i && i + 1 < args.len() ==> related(
            op,
            (#[trigger] args[i])->Number_0,
            args[i + 1]->Number_0,
        )
}

/// Every number is zero.
pub open spec fn all_zero(args: Seq<Value>) -> bool {
    forall|i: int| 0 <= i < args.len() ==> !is_truthy((#[trigger] args[i])->Number_0)
}

/// What a comparison builtin returns on `args`.
pub open spec fn comparison(op: Operation, args: Seq<Value>) -> Result<Value, EvalError> {
    if args.len() == 0 {
        Err(EvalError::ArityError)
    } else {
        scan(op, args, 0)
    }
}

fn operate(args: Vec<Value>, op: Operation) -> (result: Result<Value, EvalError>)
    ensures
        result == comparison(op, args@),
{
    if args.len() == 0 {
        return Err(EvalError::ArityError);
    }
    let mut previous: u64 = ZERO;
    let mut i: usize = 0;
    while i < args.len()
        invariant
            i <= args.len(),
            scan(op, args@, 0) == scan(op, args@, i as int),
            i > 0 ==> args@[i - 1] == Value::Number(previous),
        decreases args.len() - i,
    {
        match &args[i] {
            Value::Number(n) => {
                let holds = match op {
                    Operation::Equals => i == 0 || equal(previous, *n),
                    Operation::LessThan => i == 0 || less(previous, *n),
                    Operation::LessThanOrEquals => i == 0 || less_or_equal(previous, *n),
                    Operation::GreaterThan => i == 0 || less(*n, previous),
                    Operation::GreaterThanOrEquals => i == 0 || less_or_equal(*n, previous),
                    Operation::Not => !truthy(*n),
                };
                assert(holds == passes(op, args@, i as int));
                if !holds {
                    return Ok(Value::Number(ZERO));
                }
                previous = *n;
            },
            _ => {
                return Err(EvalError::TypeMismatch);
            },
        }
        i = i + 1;
    }
    Ok(Value::Number(ONE))
}

/// True when each argument equals the one before it.
pub fn eq(args: Vec<Value>) -> (result: Result<Value, EvalError>)
    ensures
        result == comparison(Operation::Equals, args@),
{
    operate(args, Operation::Equals)
}

/// True when each argument is greater than the one before it.
pub fn lt(args: Vec<Value>) -> (result: Result<Value, EvalError>)
    ensures
        result == comparison(Operation::LessThan, args@),
{
    operate(args, Operation::LessThan)
}

/// True when no argument is less than the one before it.
pub fn lte(args: Vec<Value>) -> (result: Result<Value, EvalError>)
    ensures
        result == comparison(Operation::LessThanOrEquals, args@),
{
    operate(args, Operation::LessThanOrEquals)
}

/// True when each argument is less than the one before it.
pub fn gt(args: Vec<Value>) -> (result: Result<Value, EvalError>)
    ensures
        result == comparison(Operation::GreaterThan, args@),
{
    operate(args, Operation::GreaterThan)
}

/// True when no argument is greater than the one before it.
pub fn gte(args: Vec<Value>) -> (result: Result<Value, EvalError>)
    ensures
        result == comparison(Operation::GreaterThanOrEquals, args@),
{
    operate(args, Operation::GreaterThanOrEquals)
}

/// True when every argument is zero.
pub fn not(args: Vec<Value>) -> (result: Result<Value, EvalError>)
    ensures
        result == comparison(Operation::Not, args@),
{
    operate(args, Operation::Not)
}

/// On arguments that are all numbers, a comparison is true exactly when every number
/// after the first stands in the relation to the one before it, and `not` is true
/// exactly when every number is zero.
pub proof fn comparison_of_numbers(op: Operation, args: Seq<Value>)
    requires
        args.len() > 0,
        forall|i: int| 0 <= i < args.len() ==> #[trigger] args[i] is Number,
    ensures
        op != Operation::Not ==> comparison(op, args) == Ok::<Value, EvalError>(
            Value::Number(truth(chain_holds(op, args))),
        ),
        op == Operation::Not ==> comparison(op, args) == Ok::<Value, EvalError>(
            Value::Number(truth(all_zero(args))),
        ),
{
    scan_of_numbers(op, args, 0);
    let every = forall|i: int| 0 <= i < args.len() ==> #[trigger] passes(op, args, i);
    if op == Operation::Not {
        if all_zero(args) {
            assert forall|i: int| 0 <= i < args.len() implies #[trigger] passes(op, args, i) by {
                assert(!is_truthy((#[trigger] args[i])->Number_0));
            }
        }
        if every {
            assert forall|i: int| 0 <= i < args.len() implies !is_truthy(
                (#[trigger] args[i])->Number_0,
            ) by {
                assert(passes(op, args, i));
            }
        }
    } else {
        if chain_holds(op, args) {
            assert forall|i: int| 0 <= i < args.len() implies #[trigger] passes(op, args, i) by {
                if i > 0 {
                    assert(related(op, (#[trigger] args[i - 1])->Number_0, args[i - 1 + 1]->Number_0));
                }
            }
        }
        if every {
            assert forall|i: int| 0 <= i && i + 1 < args.len() implies related(
                op,
                (#[trigger] args[i])->Number_0,
                args[i + 1]->Number_0,
            ) by {
                assert(passes(op, args, i + 1));
            }
        }
    }
}

/// A comparison is false as soon as one number does not pass, whatever the arguments
/// behind it are: they are not looked at.
pub proof fn comparison_stops_at_first_failure(op: Operation, args: Seq<Value>, at: int)
    requires
        0 <= at < args.len(),
        forall|i: int| 0 <= i <= at ==> #[trigger] args[i] is Number,
        forall|i: int| 0 <= i < at ==> #[trigger] passes(op, args, i),
        !passes(op, args, at),
    ensures
        comparison(op, args) == Ok::<Value, EvalError>(Value::Number(ZERO)),
{
    scan_up_to(op, args, 0, at);
}

proof fn scan_up_to(op: Operation, args: Seq<Value>, from: int, at: int)
    requires
        0 <= from <= at < args.len(),
        forall|i: int| 0 <= i <= at ==> #[trigger] args[i] is Number,
        forall|i: int| 0 <= i < at ==> #[trigger] passes(op, args, i),
        !passes(op, args, at),
    ensures
        scan(op, args, from) == Ok::<Value, EvalError>(Value::Number(ZERO)),
    decreases at - from,
{
    assert(args[from] is Number);
    if from < at {
        assert(passes(op, args, from));
        scan_up_to(op, args, from + 1, at);
    }
}

proof fn scan_of_numbers(op: Operation, args: Seq<Value>, from: int)
    requires
        0 <= from <= args.len(),
        forall|i: int| 0 <= i < args.len() ==> #[trigger] args[i] is Number,
    ensures
        scan(op, args, from) == Ok::<Value, EvalError>(
            Value::Number(truth(forall|i: int| from <= i < args.len() ==> #[trigger] passes(op, args, i))),
        ),
    decreases args.len() - from,
{
    if from < args.len() {
        scan_of_numbers(op, args, from + 1);
        assert(args[from] is Number);
    }
}

} // verus!
