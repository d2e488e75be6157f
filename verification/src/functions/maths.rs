//! The arithmetic builtins: `+ - * /`, which fold their arguments through the kernel,
//! and `max` and `min`, which fold them by comparing.
use vstd::prelude::*;
use crate::error::EvalError;
use crate::number::{is_nan, less, num_le, num_lt, ZERO};
use crate::value::Value;

verus! {

/// The arithmetic on two numbers that the caller's kernel performs.
#[derive(Clone, Copy, PartialEq, Eq, Structural, Debug)]
pub enum Operation {
    Add,
    Subtract,
    Multiply,
    Divide,
}

/// Which end of the order `min` and `max` look for.
#[derive(Clone, Copy, PartialEq, Eq, Structural, Debug)]
pub enum Extreme {
    Minimum,
    Maximum,
}

/// The kernel can be called on every operation and every two bit patterns.
pub open spec fn always_callable<K: Fn(Operation, u64, u64) -> u64>(kernel: K) -> bool {
    forall|op: Operation, a: u64, b: u64| call_requires(kernel, (op, a, b))
}

/// What the kernel can return: whether `r` can come back from a call on `op`, `a`
/// and `b`.
pub open spec fn answers<K: Fn(Operation, u64, u64) -> u64>(kernel: K) -> spec_fn(
    Operation,
    u64,
    u64,
    u64,
) -> bool {
    |op: Operation, a: u64, b: u64, r: u64| call_ensures(kernel, (op, a, b), r)
}

/// The function `k` says what can be returned: nothing but its value.
pub open spec fn determined(
    can: spec_fn(Operation, u64, u64, u64) -> bool,
    k: spec_fn(Operation, u64, u64) -> u64,
) -> bool {
    forall|op: Operation, a: u64, b: u64, r: u64| #[trigger] can(op, a, b, r) ==> r == k(op, a, b)
}

/// What can be returned where the function `k` says it: its value, and nothing else.
pub open spec fn function(k: spec_fn(Operation, u64, u64) -> u64) -> spec_fn(
    Operation,
    u64,
    u64,
    u64,
) -> bool {
    |op: Operation, a: u64, b: u64, r: u64| r == k(op, a, b)
}

/// The function `k` says what the kernel returns: whatever a call of the kernel can
/// give back is the value of `k` on the same arguments.
pub open spec fn computes<K: Fn(Operation, u64, u64) -> u64>(
    kernel: K,
    k: spec_fn(Operation, u64, u64) -> u64,
) -> bool {
    determined(answers(kernel), k)
}

/// Whether every argument is a number.
pub open spec fn all_numbers(args: Seq<Value>) -> bool {
    forall|i: int| 0 <= i < args.len() ==> #[trigger] args[i] is Number
}

/// The bit patterns of arguments that are all numbers, in order.
pub open spec fn numbers(args: Seq<Value>) -> Seq<u64> {
    Seq::new(args.len(), |i: int| args[i]->Number_0)
}

/// The left fold of `nums` under `op`: the first number, then each following one
/// combined into the running result from the right. One number folds to itself.
pub open spec fn fold(k: spec_fn(Operation, u64, u64) -> u64, op: Operation, nums: Seq<u64>) -> u64
    decreases nums.len(),
{
    if nums.len() == 0 {
        ZERO
    } else if nums.len() == 1 {
        nums[0]
    } else {
        k(op, fold(k, op, nums.drop_last()), nums.last())
    }
}

/// What an arithmetic builtin returns on `args`, with `k` for the kernel.
pub open spec fn arithmetic(
    k: spec_fn(Operation, u64, u64) -> u64,
    op: Operation,
    args: Seq<Value>,
) -> Result<Value, EvalError> {
    if args.len() == 0 {
        Err(EvalError::ArityError)
    } else if !all_numbers(args) {
        Err(EvalError::TypeMismatch)
    } else {
        Ok(Value::Number(fold(k, op, numbers(args))))
    }
}

/// The running result after `n` is compared with it: `n` where it lies strictly
/// beyond `best` towards the wanted end, else `best`. A NaN never replaces `best`,
/// and a NaN `best` is never replaced.
pub open spec fn pick(which: Extreme, best: u64, n: u64) -> u64 {
    match which {
        Extreme::Minimum => if num_lt(n, best) {
            n
        } else {
            best
        },
        Extreme::Maximum => if num_lt(best, n) {
            n
        } else {
            best
        },
    }
}

/// The left fold of `nums` under `pick`, seeded with the first number.
pub open spec fn extreme(which: Extreme, nums: Seq<u64>) -> u64
    decreases nums.len(),
{
    if nums.len() == 0 {
        ZERO
    } else if nums.len() == 1 {
        nums[0]
    } else {
        pick(which, extreme(which, nums.drop_last()), nums.last())
    }
}

/// What `min` and `max` return on `args`.
pub open spec fn selection(which: Extreme, args: Seq<Value>) -> Result<Value, EvalError> {
    if args.len() == 0 {
        Err(EvalError::ArityError)
    } else if !all_numbers(args) {
        Err(EvalError::TypeMismatch)
    } else {
        Ok(Value::Number(extreme(which, numbers(args))))
    }
}

/// Whether `r` can come out of the left fold of `nums` under `op`, going by what can
/// be returned for each step: the fold of the numbers before the last can be some
/// `acc`, and `r` can be returned for `acc` and the last number.
pub open spec fn may_fold_to(
    can: spec_fn(Operation, u64, u64, u64) -> bool,
    op: Operation,
    nums: Seq<u64>,
    r: u64,
) -> bool
    decreases nums.len(),
{
    if nums.len() == 0 {
        r == ZERO
    } else if nums.len() == 1 {
        r == nums[0]
    } else {
        exists|acc: u64|
            {
                &&& may_fold_to(can, op, nums.drop_last(), acc)
                &&& #[trigger] can(op, acc, nums.last(), r)
            }
    }
}

/// Whether an arithmetic builtin can return `result` on `args`, going by what can be
/// returned for each step: no argument is an arity error, an argument that is no
/// number is a type error, and numbers give a number that their fold can have.
pub open spec fn arithmetic_may_give(
    can: spec_fn(Operation, u64, u64, u64) -> bool,
    op: Operation,
    args: Seq<Value>,
    result: Result<Value, EvalError>,
) -> bool {
    if args.len() == 0 {
        result == Err::<Value, EvalError>(EvalError::ArityError)
    } else if !all_numbers(args) {
        result == Err::<Value, EvalError>(EvalError::TypeMismatch)
    } else {
        result is Ok && result->Ok_0 is Number && may_fold_to(
            can,
            op,
            numbers(args),
            result->Ok_0->Number_0,
        )
    }
}

proof fn numbers_grow(args: Seq<Value>, i: int)
    requires
        0 <= i < args.len(),
    ensures
        numbers(args.take(i + 1)).drop_last() == numbers(args.take(i)),
        numbers(args.take(i + 1)).last() == args[i]->Number_0,
        numbers(args.take(i + 1)).len() == i + 1,
        args.take(args.len() as int) == args,
{
    assert(numbers(args.take(i + 1)).drop_last() =~= numbers(args.take(i)));
    assert(args.take(args.len() as int) =~= args);
}

fn operate<K: Fn(Operation, u64, u64) -> u64>(args: Vec<Value>, op: Operation, kernel: &K) -> (result:
    Result<Value, EvalError>)
    requires
        always_callable(*kernel),
    ensures
        forall|k: spec_fn(Operation, u64, u64) -> u64| #[trigger]
            computes(*kernel, k) ==> result == arithmetic(k, op, args@),
        arithmetic_may_give(answers(*kernel), op, args@, result),
{
    if args.len() == 0 {
        return Err(EvalError::ArityError);
    }
    let mut result: u64 = match &args[0] {
        Value::Number(n) => *n,
        _ => {
            return Err(EvalError::TypeMismatch);
        },
    };
    proof {
        numbers_grow(args@, 0);
    }
    let mut i: usize = 1;
    while i < args.len()
        invariant
            1 <= i <= args.len(),
            always_callable(*kernel),
            all_numbers(args@.take(i as int)),
            may_fold_to(answers(*kernel), op, numbers(args@.take(i as int)), result),
        decreases args.len() - i,
    {
        match &args[i] {
            Value::Number(n) => {
                proof {
                    numbers_grow(args@, i as int);
                }
                let ghost acc = result;
                result = kernel(op, result, *n);
                assert(answers(*kernel)(op, acc, *n, result));
            },
            _ => {
                return Err(EvalError::TypeMismatch);
            },
        }
        i = i + 1;
    }
    proof {
        numbers_grow(args@, 0);
        assert forall|k: spec_fn(Operation, u64, u64) -> u64| #[trigger]
            computes(*kernel, k) implies fold(k, op, numbers(args@)) == result by {
            fold_of_a_function(answers(*kernel), k, op, numbers(args@), result);
        }
    }
    Ok(Value::Number(result))
}

fn select(args: Vec<Value>, which: Extreme) -> (result: Result<Value, EvalError>)
    ensures
        result == selection(which, args@),
{
    if args.len() == 0 {
        return Err(EvalError::ArityError);
    }
    let mut result: u64 = match &args[0] {
        Value::Number(n) => *n,
        _ => {
            return Err(EvalError::TypeMismatch);
        },
    };
    proof {
        numbers_grow(args@, 0);
    }
    let mut i: usize = 1;
    while i < args.len()
        invariant
            1 <= i <= args.len(),
            all_numbers(args@.take(i as int)),
            result == extreme(which, numbers(args@.take(i as int))),
        decreases args.len() - i,
    {
        match &args[i] {
            Value::Number(n) => {
                proof {
                    numbers_grow(args@, i as int);
                }
                let replace = match which {
                    Extreme::Minimum => less(*n, result),
                    Extreme::Maximum => less(result, *n),
                };
                if replace {
                    result = *n;
                }
            },
            _ => {
                return Err(EvalError::TypeMismatch);
            },
        }
        i = i + 1;
    }
    proof {
        numbers_grow(args@, 0);
    }
    Ok(Value::Number(result))
}

/// The sum of the arguments, folded from the left.
pub fn add<K: Fn(Operation, u64, u64) -> u64>(args: Vec<Value>, kernel: &K) -> (result: Result<
    Value,
    EvalError,
>)
    requires
        always_callable(*kernel),
    ensures
        forall|k: spec_fn(Operation, u64, u64) -> u64| #[trigger]
            computes(*kernel, k) ==> result == arithmetic(k, Operation::Add, args@),
        arithmetic_may_give(answers(*kernel), Operation::Add, args@, result),
{
    operate(args, Operation::Add, kernel)
}

/// The first argument less each of the others in turn. One argument is returned as
/// it is, not negated.
pub fn subtract<K: Fn(Operation, u64, u64) -> u64>(args: Vec<Value>, kernel: &K) -> (result:
    Result<Value, EvalError>)
    requires
        always_callable(*kernel),
    ensures
        forall|k: spec_fn(Operation, u64, u64) -> u64| #[trigger]
            computes(*kernel, k) ==> result == arithmetic(k, Operation::Subtract, args@),
        arithmetic_may_give(answers(*kernel), Operation::Subtract, args@, result),
{
    operate(args, Operation::Subtract, kernel)
}

/// The product of the arguments, folded from the left.
pub fn multiply<K: Fn(Operation, u64, u64) -> u64>(args: Vec<Value>, kernel: &K) -> (result:
    Result<Value, EvalError>)
    requires
        always_callable(*kernel),
    ensures
        forall|k: spec_fn(Operation, u64, u64) -> u64| #[trigger]
            computes(*kernel, k) ==> result == arithmetic(k, Operation::Multiply, args@),
        arithmetic_may_give(answers(*kernel), Operation::Multiply, args@, result),
{
    operate(args, Operation::Multiply, kernel)
}

/// The first argument divided by each of the others in turn. A zero divisor is handed
/// to the kernel like any other number.
pub fn divide<K: Fn(Operation, u64, u64) -> u64>(args: Vec<Value>, kernel: &K) -> (result: Result<
    Value,
    EvalError,
>)
    requires
        always_callable(*kernel),
    ensures
        forall|k: spec_fn(Operation, u64, u64) -> u64| #[trigger]
            computes(*kernel, k) ==> result == arithmetic(k, Operation::Divide, args@),
        arithmetic_may_give(answers(*kernel), Operation::Divide, args@, result),
{
    operate(args, Operation::Divide, kernel)
}

/// The smallest argument, found by comparing each with the best so far.
pub fn min(args: Vec<Value>) -> (result: Result<Value, EvalError>)
    ensures
        result == selection(Extreme::Minimum, args@),
{
    select(args, Extreme::Minimum)
}

/// The largest argument, found by comparing each with the best so far.
pub fn max(args: Vec<Value>) -> (result: Result<Value, EvalError>)
    ensures
        result == selection(Extreme::Maximum, args@),
{
    select(args, Extreme::Maximum)
}

/// One number folds to itself, under every operation: `-` with one argument does not
/// negate it.
pub proof fn one_argument_is_returned(
    k: spec_fn(Operation, u64, u64) -> u64,
    op: Operation,
    which: Extreme,
    x: u64,
)
    ensures
        arithmetic(k, op, seq![Value::Number(x)]) == Ok::<Value, EvalError>(Value::Number(x)),
        selection(which, seq![Value::Number(x)]) == Ok::<Value, EvalError>(Value::Number(x)),
{
    assert(numbers(seq![Value::Number(x)]) =~= seq![x]);
}

/// A fold goes from left to right: one more number at the end is combined with the
/// fold of those before it.
pub proof fn fold_goes_left_to_right(
    k: spec_fn(Operation, u64, u64) -> u64,
    op: Operation,
    which: Extreme,
    nums: Seq<u64>,
    n: u64,
)
    requires
        nums.len() > 0,
    ensures
        fold(k, op, nums.push(n)) == k(op, fold(k, op, nums), n),
        extreme(which, nums.push(n)) == pick(which, extreme(which, nums), n),
{
    assert(nums.push(n).drop_last() =~= nums);
}

/// Among numbers of which none is NaN, `min` returns one that none of them is less
/// than, and `max` one that is less than none of them.
pub proof fn extreme_is_a_bound(which: Extreme, nums: Seq<u64>)
    requires
        nums.len() > 0,
        forall|i: int| 0 <= i < nums.len() ==> !is_nan(#[trigger] nums[i]),
    ensures
        exists|i: int| 0 <= i < nums.len() && #[trigger] nums[i] == extreme(which, nums),
        which == Extreme::Minimum ==> forall|i: int|
            0 <= i < nums.len() ==> num_le(extreme(which, nums), #[trigger] nums[i]),
        which == Extreme::Maximum ==> forall|i: int|
            0 <= i < nums.len() ==> num_le(#[trigger] nums[i], extreme(which, nums)),
    decreases nums.len(),
{
    if nums.len() == 1 {
        assert(nums[0] == extreme(which, nums));
    } else {
        let front = nums.drop_last();
        let last = nums.last();
        extreme_is_a_bound(which, front);
        let best = extreme(which, front);
        let at = choose|i: int| 0 <= i < front.len() && #[trigger] front[i] == best;
        assert(nums[at] == best);
        assert(!is_nan(best));
        assert(!is_nan(last));
        if extreme(which, nums) == last {
            assert(nums[nums.len() - 1] == extreme(which, nums));
        } else {
            assert(nums[at] == extreme(which, nums));
        }
        match which {
            Extreme::Minimum => {
                assert forall|i: int| 0 <= i < nums.len() implies num_le(
                    extreme(which, nums),
                    #[trigger] nums[i],
                ) by {
                    if i < front.len() {
                        assert(front[i] == nums[i]);
                        assert(num_le(best, front[i]));
                    }
                }
            },
            Extreme::Maximum => {
                assert forall|i: int| 0 <= i < nums.len() implies num_le(
                    #[trigger] nums[i],
                    extreme(which, nums),
                ) by {
                    if i < front.len() {
                        assert(front[i] == nums[i]);
                        assert(num_le(front[i], best));
                    }
                }
            },
        }
    }
}

/// Where a function says what can be returned, an arithmetic builtin can only return
/// what it returns under that function.
pub proof fn arithmetic_of_a_function(
    can: spec_fn(Operation, u64, u64, u64) -> bool,
    k: spec_fn(Operation, u64, u64) -> u64,
    op: Operation,
    args: Seq<Value>,
    result: Result<Value, EvalError>,
)
    requires
        determined(can, k),
        arithmetic_may_give(can, op, args, result),
    ensures
        result == arithmetic(k, op, args),
{
    if args.len() > 0 && all_numbers(args) {
        fold_of_a_function(can, k, op, numbers(args), result->Ok_0->Number_0);
    }
}

/// Where a function says what can be returned, a fold can only come out as the fold
/// under that function.
pub proof fn fold_of_a_function(
    can: spec_fn(Operation, u64, u64, u64) -> bool,
    k: spec_fn(Operation, u64, u64) -> u64,
    op: Operation,
    nums: Seq<u64>,
    r: u64,
)
    requires
        determined(can, k),
        may_fold_to(can, op, nums, r),
    ensures
        r == fold(k, op, nums),
    decreases nums.len(),
{
    if nums.len() > 1 {
        let acc = choose|acc: u64|
            {
                &&& may_fold_to(can, op, nums.drop_last(), acc)
                &&& #[trigger] can(op, acc, nums.last(), r)
            };
        fold_of_a_function(can, k, op, nums.drop_last(), acc);
    }
}

/// Where a function says what can be returned, an arithmetic builtin can return what
/// it returns under that function.
pub proof fn arithmetic_under_a_function(
    k: spec_fn(Operation, u64, u64) -> u64,
    op: Operation,
    args: Seq<Value>,
)
    ensures
        determined(function(k), k),
        arithmetic_may_give(function(k), op, args, arithmetic(k, op, args)),
{
    if args.len() > 0 && all_numbers(args) {
        fold_under_a_function(k, op, numbers(args));
    }
}

/// Where a function says what can be returned, a fold can come out as the fold under
/// that function.
pub proof fn fold_under_a_function(
    k: spec_fn(Operation, u64, u64) -> u64,
    op: Operation,
    nums: Seq<u64>,
)
    ensures
        may_fold_to(function(k), op, nums, fold(k, op, nums)),
    decreases nums.len(),
{
    if nums.len() > 1 {
        let acc = fold(k, op, nums.drop_last());
        fold_under_a_function(k, op, nums.drop_last());
        assert(function(k)(op, acc, nums.last(), fold(k, op, nums)));
    }
}

} // verus!
