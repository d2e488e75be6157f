use lispy::error::EvalError;
use lispy::functions::apply;
use lispy::functions::maths::{add, divide, max, min, multiply, subtract, Operation};
use lispy::functions::operators::{eq, gt, gte, lt, lte, not};
use lispy::value::{Builtin, Value};

fn machine_arithmetic(op: Operation, a: u64, b: u64) -> u64 {
    let x = f64::from_bits(a);
    let y = f64::from_bits(b);
    let r = match op {
        Operation::Add => x + y,
        Operation::Subtract => x - y,
        Operation::Multiply => x * y,
        Operation::Divide => x / y,
    };
    r.to_bits()
}

fn value_of(x: f64) -> Value {
    Value::Number(x.to_bits())
}

fn nums(xs: &[f64]) -> Vec<Value> {
    xs.iter().map(|x| value_of(*x)).collect()
}

fn truth(b: bool) -> Result<Value, EvalError> {
    Ok(value_of(if b { 1.0 } else { 0.0 }))
}

#[test]
fn add_sums_from_the_left() {
    assert_eq!(add(nums(&[1.0, 2.0, 3.5]), &machine_arithmetic), Ok(value_of(6.5)));
    assert_eq!(add(nums(&[1e16, 1.0, -1e16]), &machine_arithmetic), Ok(value_of((1e16 + 1.0) - 1e16)));
    assert_eq!(add(nums(&[7.0]), &machine_arithmetic), Ok(value_of(7.0)));
}

#[test]
fn subtract_folds_from_the_first_argument() {
    assert_eq!(subtract(nums(&[10.0, 3.0, 2.0]), &machine_arithmetic), Ok(value_of(5.0)));
}

#[test]
fn subtract_of_one_argument_does_not_negate() {
    assert_eq!(subtract(nums(&[5.0]), &machine_arithmetic), Ok(value_of(5.0)));
}

#[test]
fn multiply_folds_from_the_left() {
    assert_eq!(multiply(nums(&[2.0, 3.0, 4.0]), &machine_arithmetic), Ok(value_of(24.0)));
    assert_eq!(multiply(nums(&[-1.5]), &machine_arithmetic), Ok(value_of(-1.5)));
}

#[test]
fn divide_folds_from_the_first_argument() {
    assert_eq!(divide(nums(&[20.0, 2.0, 5.0]), &machine_arithmetic), Ok(value_of(2.0)));
    assert_eq!(divide(nums(&[1.0, 4.0]), &machine_arithmetic), Ok(value_of(0.25)));
}

#[test]
fn divide_by_zero_is_infinite_or_not_a_number() {
    assert_eq!(divide(nums(&[1.0, 0.0]), &machine_arithmetic), Ok(value_of(f64::INFINITY)));
    assert_eq!(divide(nums(&[-1.0, 0.0]), &machine_arithmetic), Ok(value_of(f64::NEG_INFINITY)));
    match divide(nums(&[0.0, 0.0]), &machine_arithmetic) {
        Ok(Value::Number(bits)) => assert!(f64::from_bits(bits).is_nan()),
        other => panic!("{:?}", other),
    }
}

#[test]
fn arithmetic_hands_each_step_to_the_kernel() {
    let tagging = |op: Operation, a: u64, b: u64| match op {
        Operation::Add => a * 10 + b,
        Operation::Subtract => a * 100 + b,
        Operation::Multiply => a * 1000 + b,
        Operation::Divide => a * 10000 + b,
    };
    let args = || vec![Value::Number(1), Value::Number(2), Value::Number(3)];
    assert_eq!(add(args(), &tagging), Ok(Value::Number(123)));
    assert_eq!(subtract(args(), &tagging), Ok(Value::Number(10203)));
    assert_eq!(multiply(args(), &tagging), Ok(Value::Number(1002003)));
    assert_eq!(divide(args(), &tagging), Ok(Value::Number(100020003)));
}

#[test]
fn max_and_min_pick_an_argument() {
    assert_eq!(max(nums(&[1.0, 5.0, 3.0])), Ok(value_of(5.0)));
    assert_eq!(min(nums(&[4.0, -5.0, 3.0])), Ok(value_of(-5.0)));
    assert_eq!(max(nums(&[2.0])), Ok(value_of(2.0)));
    assert_eq!(min(nums(&[2.0])), Ok(value_of(2.0)));
    assert_eq!(max(nums(&[f64::NEG_INFINITY, -1e308])), Ok(value_of(-1e308)));
}

#[test]
fn max_and_min_keep_the_earlier_of_equals() {
    assert_eq!(max(nums(&[0.0, -0.0])), Ok(value_of(0.0)));
    assert_eq!(max(nums(&[-0.0, 0.0])), Ok(value_of(-0.0)));
    assert_eq!(min(nums(&[0.0, -0.0])), Ok(value_of(0.0)));
    assert_eq!(min(nums(&[-0.0, 0.0])), Ok(value_of(-0.0)));
}

#[test]
fn max_and_min_never_move_to_or_from_nan() {
    assert_eq!(max(nums(&[1.0, f64::NAN, 3.0])), Ok(value_of(3.0)));
    assert_eq!(min(nums(&[1.0, f64::NAN, 3.0])), Ok(value_of(1.0)));
    assert_eq!(max(nums(&[f64::NAN, 1.0])), Ok(value_of(f64::NAN)));
    assert_eq!(min(nums(&[f64::NAN, 1.0])), Ok(value_of(f64::NAN)));
}

#[test]
fn arithmetic_without_arguments_is_an_arity_error() {
    assert_eq!(add(vec![], &machine_arithmetic), Err(EvalError::ArityError));
    assert_eq!(subtract(vec![], &machine_arithmetic), Err(EvalError::ArityError));
    assert_eq!(multiply(vec![], &machine_arithmetic), Err(EvalError::ArityError));
    assert_eq!(divide(vec![], &machine_arithmetic), Err(EvalError::ArityError));
    assert_eq!(max(vec![]), Err(EvalError::ArityError));
    assert_eq!(min(vec![]), Err(EvalError::ArityError));
}

#[test]
fn comparison_without_arguments_is_an_arity_error() {
    assert_eq!(eq(vec![]), Err(EvalError::ArityError));
    assert_eq!(lt(vec![]), Err(EvalError::ArityError));
    assert_eq!(lte(vec![]), Err(EvalError::ArityError));
    assert_eq!(gt(vec![]), Err(EvalError::ArityError));
    assert_eq!(gte(vec![]), Err(EvalError::ArityError));
    assert_eq!(not(vec![]), Err(EvalError::ArityError));
}

#[test]
fn arithmetic_on_what_is_no_number_is_a_type_mismatch() {
    let with_procedure = || vec![value_of(1.0), Value::Procedure(Builtin::Add), value_of(2.0)];
    assert_eq!(add(with_procedure(), &machine_arithmetic), Err(EvalError::TypeMismatch));
    assert_eq!(subtract(with_procedure(), &machine_arithmetic), Err(EvalError::TypeMismatch));
    assert_eq!(multiply(vec![Value::Empty], &machine_arithmetic), Err(EvalError::TypeMismatch));
    assert_eq!(divide(vec![value_of(1.0), Value::Empty], &machine_arithmetic), Err(EvalError::TypeMismatch));
    assert_eq!(max(with_procedure()), Err(EvalError::TypeMismatch));
    assert_eq!(min(vec![Value::Empty, value_of(1.0)]), Err(EvalError::TypeMismatch));
}

#[test]
fn comparison_on_what_is_no_number_is_a_type_mismatch() {
    assert_eq!(lt(vec![Value::Empty]), Err(EvalError::TypeMismatch));
    assert_eq!(lt(vec![value_of(1.0), Value::Empty]), Err(EvalError::TypeMismatch));
    assert_eq!(eq(vec![value_of(1.0), value_of(1.0), Value::Empty]), Err(EvalError::TypeMismatch));
    assert_eq!(not(vec![Value::Procedure(Builtin::Not)]), Err(EvalError::TypeMismatch));
    assert_eq!(not(vec![value_of(0.0), Value::Empty]), Err(EvalError::TypeMismatch));
}

#[test]
fn comparison_stops_at_the_first_failure() {
    assert_eq!(lt(vec![value_of(2.0), value_of(1.0), Value::Empty]), truth(false));
    assert_eq!(eq(vec![value_of(2.0), value_of(1.0), Value::Procedure(Builtin::Eq)]), truth(false));
    assert_eq!(not(vec![value_of(1.0), Value::Empty]), truth(false));
}

#[test]
fn less_than_holds_along_the_whole_chain() {
    assert_eq!(lt(nums(&[1.0, 2.0, 3.0])), truth(true));
    assert_eq!(lt(nums(&[1.0, 3.0, 2.0])), truth(false));
    assert_eq!(lt(nums(&[1.0, 1.0])), truth(false));
    assert_eq!(lt(nums(&[3.0, 4.0, 1.0, 5.0])), truth(false));
    assert_eq!(lt(nums(&[1.0])), truth(true));
}

#[test]
fn other_comparisons_hold_along_the_whole_chain() {
    assert_eq!(lte(nums(&[1.0, 1.0, 2.0])), truth(true));
    assert_eq!(lte(nums(&[1.0, 2.0, 1.5])), truth(false));
    assert_eq!(gt(nums(&[3.0, 2.0, 1.0])), truth(true));
    assert_eq!(gt(nums(&[3.0, 1.0, 2.0])), truth(false));
    assert_eq!(gt(nums(&[3.0, 3.0])), truth(false));
    assert_eq!(gte(nums(&[3.0, 3.0, 1.0])), truth(true));
    assert_eq!(gte(nums(&[3.0, 1.0, 2.0])), truth(false));
    assert_eq!(eq(nums(&[2.0, 2.0, 2.0])), truth(true));
    assert_eq!(eq(nums(&[2.0, 2.0, 3.0])), truth(false));
    assert_eq!(eq(nums(&[0.0, -0.0])), truth(true));
    assert_eq!(eq(nums(&[4.0])), truth(true));
}

#[test]
fn comparisons_with_nan_are_false() {
    assert_eq!(lt(nums(&[1.0, f64::NAN])), truth(false));
    assert_eq!(lte(nums(&[f64::NAN, 1.0])), truth(false));
    assert_eq!(gt(nums(&[1.0, f64::NAN])), truth(false));
    assert_eq!(gte(nums(&[f64::NAN, f64::NAN])), truth(false));
    assert_eq!(eq(nums(&[f64::NAN, f64::NAN])), truth(false));
    assert_eq!(lt(nums(&[f64::NAN])), truth(true));
}

#[test]
fn not_is_true_of_zeros_only() {
    assert_eq!(not(nums(&[0.0])), truth(true));
    assert_eq!(not(nums(&[-0.0])), truth(true));
    assert_eq!(not(nums(&[1.0])), truth(false));
    assert_eq!(not(nums(&[-2.5])), truth(false));
    assert_eq!(not(nums(&[f64::NAN])), truth(false));
    assert_eq!(not(nums(&[0.0, 0.0])), truth(true));
    assert_eq!(not(nums(&[0.0, 3.0])), truth(false));
    assert_eq!(not(nums(&[3.0, 0.0])), truth(false));
}

#[test]
fn apply_calls_the_builtin_that_is_named() {
    let args = || nums(&[8.0, 2.0]);
    assert_eq!(apply(Builtin::Add, args(), &machine_arithmetic), Ok(value_of(10.0)));
    assert_eq!(apply(Builtin::Subtract, args(), &machine_arithmetic), Ok(value_of(6.0)));
    assert_eq!(apply(Builtin::Multiply, args(), &machine_arithmetic), Ok(value_of(16.0)));
    assert_eq!(apply(Builtin::Divide, args(), &machine_arithmetic), Ok(value_of(4.0)));
    assert_eq!(apply(Builtin::Max, args(), &machine_arithmetic), Ok(value_of(8.0)));
    assert_eq!(apply(Builtin::Min, args(), &machine_arithmetic), Ok(value_of(2.0)));
    assert_eq!(apply(Builtin::Eq, args(), &machine_arithmetic), truth(false));
    assert_eq!(apply(Builtin::Lt, args(), &machine_arithmetic), truth(false));
    assert_eq!(apply(Builtin::Lte, args(), &machine_arithmetic), truth(false));
    assert_eq!(apply(Builtin::Gt, args(), &machine_arithmetic), truth(true));
    assert_eq!(apply(Builtin::Gte, args(), &machine_arithmetic), truth(true));
    assert_eq!(apply(Builtin::Not, args(), &machine_arithmetic), truth(false));
}

#[test]
fn arithmetic_hands_the_running_result_and_the_next_number_to_the_kernel() {
    let calls = std::cell::RefCell::new(Vec::new());
    let counting = |op: Operation, a: u64, b: u64| {
        calls.borrow_mut().push((op, a, b));
        100 + calls.borrow().len() as u64
    };
    let args = vec![Value::Number(1), Value::Number(2), Value::Number(3), Value::Number(4)];
    assert_eq!(subtract(args, &counting), Ok(Value::Number(103)));
    assert_eq!(
        *calls.borrow(),
        vec![
            (Operation::Subtract, 1, 2),
            (Operation::Subtract, 101, 3),
            (Operation::Subtract, 102, 4),
        ]
    );
}

#[test]
fn builtins_that_compare_never_call_the_kernel() {
    let refusing = |_op: Operation, _a: u64, _b: u64| -> u64 { panic!("the kernel was called") };
    assert_eq!(apply(Builtin::Max, nums(&[1.0, 2.0]), &refusing), Ok(value_of(2.0)));
    assert_eq!(apply(Builtin::Min, nums(&[1.0, 2.0]), &refusing), Ok(value_of(1.0)));
    assert_eq!(apply(Builtin::Lt, nums(&[1.0, 2.0]), &refusing), truth(true));
    assert_eq!(apply(Builtin::Not, nums(&[1.0, 2.0]), &refusing), truth(false));
    assert_eq!(apply(Builtin::Add, nums(&[1.0]), &refusing), Ok(value_of(1.0)));
    assert_eq!(apply(Builtin::Divide, vec![], &refusing), Err(EvalError::ArityError));
}
