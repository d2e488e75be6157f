use lispy::env::Env;
use lispy::error::EvalError;
use lispy::eval::{eval, standard_env};
use lispy::functions::maths::Operation;
use lispy::parse::{parse, AstNode};
use lispy::value::{Builtin, Value};

fn arithmetic(op: Operation, a: u64, b: u64) -> u64 {
    let x = f64::from_bits(a);
    let y = f64::from_bits(b);
    let r = match op {
        Operation::Add => x + y,
        Operation::Subtract => x - y,
        Operation::Multiply => x * y,
        Operation::Divide => x / y,
    };
    r.to_bits()
}

fn read_number(token: &str) -> Option<u64> {
    token.parse::<f64>().ok().map(f64::to_bits)
}

fn num(x: f64) -> Value {
    Value::Number(x.to_bits())
}

fn run(text: &str, env: &mut Env) -> Result<Value, EvalError> {
    let node = parse(text, &read_number)?;
    eval(node, env, &arithmetic)
}

fn fresh(text: &str) -> Result<Value, EvalError> {
    run(text, &mut standard_env())
}

#[test]
fn evaluates_nested_arithmetic() {
    assert_eq!(fresh("(+ 2 (* 3 2))"), Ok(num(8.0)));
}

#[test]
fn if_selects_by_the_test() {
    assert_eq!(fresh("(if (> 3 2) 1 0)"), Ok(num(1.0)));
    assert_eq!(fresh("(if (> 2 3) 1 0)"), Ok(num(0.0)));
}

#[test]
fn define_then_lookup_in_the_same_environment() {
    let mut env = standard_env();
    assert_eq!(run("(define r 10)", &mut env), Ok(num(1.0)));
    assert_eq!(run("(* r r)", &mut env), Ok(num(100.0)));
    assert_eq!(run("r", &mut env), Ok(num(10.0)));
}

#[test]
fn set_on_an_undefined_name_is_unbound_variable() {
    let mut env = standard_env();
    assert_eq!(run("(set! z 5)", &mut env), Err(EvalError::UnboundVariable));
    assert_eq!(run("z", &mut env), Err(EvalError::UnboundVariable));
    assert_eq!(env.find("z"), Err(EvalError::UnboundVariable));
}

#[test]
fn comparison_chains_over_more_than_two_operands() {
    assert_eq!(fresh("(< 1 2 3)"), Ok(num(1.0)));
    assert_eq!(fresh("(< 1 3 2)"), Ok(num(0.0)));
}

#[test]
fn subtraction_and_division_fold_from_the_left() {
    assert_eq!(fresh("(- 10 3 2)"), Ok(num(5.0)));
    assert_eq!(fresh("(/ 20 2 5)"), Ok(num(2.0)));
}

#[test]
fn applying_a_number_is_not_callable() {
    assert_eq!(fresh("(1 2 3)"), Err(EvalError::NotCallable));
}

#[test]
fn applying_what_is_no_procedure_evaluates_no_operand() {
    let mut env = standard_env();
    assert_eq!(run("(1 (define x 2))", &mut env), Err(EvalError::NotCallable));
    assert_eq!(env.find("x"), Err(EvalError::UnboundVariable));
    assert_eq!(run("(pi 1)", &mut env), Err(EvalError::NotCallable));
    assert_eq!(run("((+ 1 2) 1)", &mut env), Err(EvalError::NotCallable));
}

#[test]
fn numbers_evaluate_to_themselves() {
    assert_eq!(fresh("42"), Ok(num(42.0)));
    assert_eq!(fresh("-0.5"), Ok(num(-0.5)));
    assert_eq!(
        eval(AstNode::Number(12345), &mut Env::new(None), &arithmetic),
        Ok(Value::Number(12345))
    );
}

#[test]
fn symbols_evaluate_to_their_bindings() {
    assert_eq!(fresh("pi"), Ok(num(std::f64::consts::PI)));
    assert_eq!(fresh("+"), Ok(Value::Procedure(Builtin::Add)));
    assert_eq!(fresh("nowhere"), Err(EvalError::UnboundVariable));
}

#[test]
fn standard_environment_binds_the_builtins() {
    let env = standard_env();
    let expected = [
        ("+", Builtin::Add),
        ("-", Builtin::Subtract),
        ("*", Builtin::Multiply),
        ("/", Builtin::Divide),
        ("max", Builtin::Max),
        ("min", Builtin::Min),
        ("=", Builtin::Eq),
        ("<", Builtin::Lt),
        ("<=", Builtin::Lte),
        (">", Builtin::Gt),
        (">=", Builtin::Gte),
        ("not", Builtin::Not),
    ];
    for (name, builtin) in expected {
        assert_eq!(env.find(name), Ok(Value::Procedure(builtin)), "{}", name);
    }
    assert_eq!(env.find("pi"), Ok(num(std::f64::consts::PI)));
    assert_eq!(env.find("quote"), Err(EvalError::UnboundVariable));
}

#[test]
fn every_builtin_can_be_called_by_name() {
    assert_eq!(fresh("(+ 1 2 3)"), Ok(num(6.0)));
    assert_eq!(fresh("(- 5)"), Ok(num(5.0)));
    assert_eq!(fresh("(* 2 3 4)"), Ok(num(24.0)));
    assert_eq!(fresh("(/ 1 4)"), Ok(num(0.25)));
    assert_eq!(fresh("(max 1 7 3)"), Ok(num(7.0)));
    assert_eq!(fresh("(min 4 2 3)"), Ok(num(2.0)));
    assert_eq!(fresh("(= 2 2 2)"), Ok(num(1.0)));
    assert_eq!(fresh("(= 2 3)"), Ok(num(0.0)));
    assert_eq!(fresh("(<= 1 1 2)"), Ok(num(1.0)));
    assert_eq!(fresh("(> 3 2 1)"), Ok(num(1.0)));
    assert_eq!(fresh("(>= 3 3 4)"), Ok(num(0.0)));
    assert_eq!(fresh("(not 0)"), Ok(num(1.0)));
    assert_eq!(fresh("(not 1)"), Ok(num(0.0)));
    assert_eq!(fresh("(* 2 pi)"), Ok(num(2.0 * std::f64::consts::PI)));
}

#[test]
fn empty_list_is_empty_application() {
    assert_eq!(fresh("()"), Err(EvalError::EmptyApplication));
    assert_eq!(fresh("(+ 1 ())"), Err(EvalError::EmptyApplication));
}

#[test]
fn builtin_without_arguments_is_an_arity_error() {
    assert_eq!(fresh("(+)"), Err(EvalError::ArityError));
    assert_eq!(fresh("(<)"), Err(EvalError::ArityError));
    assert_eq!(fresh("(not)"), Err(EvalError::ArityError));
}

#[test]
fn builtin_on_a_procedure_is_a_type_mismatch() {
    assert_eq!(fresh("(+ 1 +)"), Err(EvalError::TypeMismatch));
    assert_eq!(fresh("(< 1 <)"), Err(EvalError::TypeMismatch));
}

#[test]
fn quote_evaluates_its_operand() {
    assert_eq!(fresh("(quote 5)"), Ok(num(5.0)));
    assert_eq!(fresh("(quote (+ 1 2))"), Ok(num(3.0)));
    assert_eq!(fresh("(quote x)"), Err(EvalError::UnboundVariable));
}

#[test]
fn quote_takes_exactly_one_operand() {
    assert_eq!(fresh("(quote)"), Err(EvalError::MalformedSpecialForm));
    assert_eq!(fresh("(quote 1 2)"), Err(EvalError::MalformedSpecialForm));
}

#[test]
fn if_takes_exactly_three_operands() {
    assert_eq!(fresh("(if)"), Err(EvalError::MalformedSpecialForm));
    assert_eq!(fresh("(if 1)"), Err(EvalError::MalformedSpecialForm));
    assert_eq!(fresh("(if 1 2)"), Err(EvalError::MalformedSpecialForm));
    assert_eq!(fresh("(if 1 2 3 4)"), Err(EvalError::MalformedSpecialForm));
}

#[test]
fn if_needs_a_number_for_its_test() {
    assert_eq!(fresh("(if + 1 2)"), Err(EvalError::TypeMismatch));
}

#[test]
fn if_counts_every_number_but_zero_as_true() {
    assert_eq!(fresh("(if 0 1 2)"), Ok(num(2.0)));
    assert_eq!(fresh("(if -0 1 2)"), Ok(num(2.0)));
    assert_eq!(fresh("(if -3 1 2)"), Ok(num(1.0)));
    assert_eq!(fresh("(if 0.001 1 2)"), Ok(num(1.0)));
    assert_eq!(fresh("(if nan 1 2)"), Ok(num(1.0)));
    assert_eq!(fresh("(if (/ 0 0) 1 2)"), Ok(num(1.0)));
}

#[test]
fn if_evaluates_the_selected_branch_only() {
    let mut env = standard_env();
    assert_eq!(run("(if 1 (define a 1) (define b 2))", &mut env), Ok(num(1.0)));
    assert_eq!(env.find("a"), Ok(num(1.0)));
    assert_eq!(env.find("b"), Err(EvalError::UnboundVariable));
    assert_eq!(run("(if 0 missing 7)", &mut env), Ok(num(7.0)));
    assert_eq!(run("(if 1 7 (1 2))", &mut env), Ok(num(7.0)));
}

#[test]
fn define_returns_one_and_binds_in_the_current_scope() {
    let mut root = standard_env();
    root.set("x", num(1.0));
    let mut inner = Env::new(Some(root));
    assert_eq!(run("(define x (+ x 41))", &mut inner), Ok(num(1.0)));
    assert_eq!(run("x", &mut inner), Ok(num(42.0)));
    assert_eq!(run("(set! x 5)", &mut inner), Ok(num(1.0)));
    assert_eq!(run("x", &mut inner), Ok(num(5.0)));
}

#[test]
fn define_overwrites_in_the_same_scope() {
    let mut env = standard_env();
    assert_eq!(run("(define x 1)", &mut env), Ok(num(1.0)));
    assert_eq!(run("(define x 2)", &mut env), Ok(num(1.0)));
    assert_eq!(run("x", &mut env), Ok(num(2.0)));
    assert_eq!(run("(define twice +)", &mut env), Ok(num(1.0)));
    assert_eq!(run("(twice x x)", &mut env), Ok(num(4.0)));
}

#[test]
fn define_needs_a_symbol_and_an_expression() {
    assert_eq!(fresh("(define)"), Err(EvalError::MalformedSpecialForm));
    assert_eq!(fresh("(define x)"), Err(EvalError::MalformedSpecialForm));
    assert_eq!(fresh("(define x 1 2)"), Err(EvalError::MalformedSpecialForm));
    assert_eq!(fresh("(define 1 2)"), Err(EvalError::MalformedSpecialForm));
    assert_eq!(fresh("(define (x) 2)"), Err(EvalError::MalformedSpecialForm));
}

#[test]
fn malformed_forms_evaluate_no_operand() {
    let mut env = standard_env();
    assert_eq!(run("(define 1 (define y 2))", &mut env), Err(EvalError::MalformedSpecialForm));
    assert_eq!(run("(if (define y 2) 1)", &mut env), Err(EvalError::MalformedSpecialForm));
    assert_eq!(run("(set! (define y 2) 1)", &mut env), Err(EvalError::MalformedSpecialForm));
    assert_eq!(env.find("y"), Err(EvalError::UnboundVariable));
}

#[test]
fn set_rebinds_a_defined_name() {
    let mut env = standard_env();
    assert_eq!(run("(define x 1)", &mut env), Ok(num(1.0)));
    assert_eq!(run("(set! x (+ x 1))", &mut env), Ok(num(1.0)));
    assert_eq!(run("x", &mut env), Ok(num(2.0)));
}

#[test]
fn set_rebinds_in_the_scope_that_holds_the_name() {
    let mut root = standard_env();
    root.set("x", num(1.0));
    let mut inner = Env::new(Some(root));
    assert_eq!(run("(set! x 9)", &mut inner), Ok(num(1.0)));
    assert_eq!(run("x", &mut inner), Ok(num(9.0)));
    assert_eq!(run("(define x 3)", &mut inner), Ok(num(1.0)));
    assert_eq!(run("x", &mut inner), Ok(num(3.0)));
}

#[test]
fn set_needs_a_symbol_and_an_expression() {
    assert_eq!(fresh("(set!)"), Err(EvalError::MalformedSpecialForm));
    assert_eq!(fresh("(set! pi)"), Err(EvalError::MalformedSpecialForm));
    assert_eq!(fresh("(set! pi 1 2)"), Err(EvalError::MalformedSpecialForm));
    assert_eq!(fresh("(set! 1 2)"), Err(EvalError::MalformedSpecialForm));
}

#[test]
fn errors_in_operands_surface() {
    assert_eq!(fresh("(+ 1 (undefined 2))"), Err(EvalError::UnboundVariable));
    assert_eq!(fresh("(+ 1 (2 3))"), Err(EvalError::NotCallable));
    assert_eq!(fresh("(define x (+))"), Err(EvalError::ArityError));
    assert_eq!(fresh("(set! pi (if + 1 2))"), Err(EvalError::TypeMismatch));
    assert_eq!(fresh("(if (quote) 1 2)"), Err(EvalError::MalformedSpecialForm));
}

#[test]
fn operands_are_evaluated_from_left_to_right() {
    let mut env = standard_env();
    assert_eq!(run("(define x 1)", &mut env), Ok(num(1.0)));
    assert_eq!(run("(- x (set! x 10) x)", &mut env), Ok(num(1.0 - 1.0 - 10.0)));
    assert_eq!(run("(+ (define y 5) y (missing) (define late 1))", &mut env), Err(EvalError::UnboundVariable));
    assert_eq!(env.find("y"), Ok(num(5.0)));
    assert_eq!(env.find("late"), Err(EvalError::UnboundVariable));
}

#[test]
fn operator_may_be_any_expression() {
    assert_eq!(fresh("((if 1 + -) 5 3)"), Ok(num(8.0)));
    assert_eq!(fresh("((if 0 + -) 5 3)"), Ok(num(2.0)));
    assert_eq!(fresh("((quote max) 5 3)"), Ok(num(5.0)));
}

#[test]
fn keywords_are_special_only_at_the_head() {
    let mut env = standard_env();
    assert_eq!(run("(define if 3)", &mut env), Ok(num(1.0)));
    assert_eq!(run("(+ if 1)", &mut env), Ok(num(4.0)));
    assert_eq!(run("(if if 1 2)", &mut env), Ok(num(1.0)));
    assert_eq!(run("quote", &mut env), Err(EvalError::UnboundVariable));
}

#[test]
fn arithmetic_follows_the_kernel() {
    let first = |_op: Operation, a: u64, _b: u64| a;
    let node = parse("(+ 2 (* 3 4) 5)", &read_number).unwrap();
    assert_eq!(eval(node, &mut standard_env(), &first), Ok(num(2.0)));
    let last = |_op: Operation, _a: u64, b: u64| b;
    let node = parse("(+ 2 (* 3 4) 5)", &read_number).unwrap();
    assert_eq!(eval(node, &mut standard_env(), &last), Ok(num(5.0)));
}

#[test]
fn division_by_zero_propagates() {
    assert_eq!(fresh("(/ 1 0)"), Ok(num(f64::INFINITY)));
    assert_eq!(fresh("(< (/ 1 0) 5)"), Ok(num(0.0)));
    assert_eq!(fresh("(= (/ 0 0) (/ 0 0))"), Ok(num(0.0)));
}

#[test]
fn forms_without_definitions_leave_the_environment() {
    let mut env = standard_env();
    assert_eq!(run("(define x 1)", &mut env), Ok(num(1.0)));
    let texts = ["(+ x 2)", "(if (< x 2) (* x 10) (missing))", "(quote x)", "(max x pi)", "(nothing)", "()"];
    for text in texts {
        let _ = run(text, &mut env);
        assert_eq!(env.find("x"), Ok(num(1.0)), "{}", text);
        assert_eq!(env.find("+"), Ok(Value::Procedure(Builtin::Add)), "{}", text);
        assert_eq!(env.find("nothing"), Err(EvalError::UnboundVariable), "{}", text);
    }
}

#[test]
fn evaluation_never_unbinds_a_name() {
    let mut root = standard_env();
    root.set("outer", num(1.0));
    let mut env = Env::new(Some(root));
    let texts = [
        "(define inner 2)",
        "(set! outer 3)",
        "(set! missing 4)",
        "(define outer (+ outer inner))",
        "(if inner (define more 5) 0)",
        "(+ (define last 6) (oops))",
    ];
    for text in texts {
        let _ = run(text, &mut env);
        assert!(env.find("outer").is_ok(), "{}", text);
        assert!(env.find("pi").is_ok(), "{}", text);
    }
    assert_eq!(env.find("inner"), Ok(num(2.0)));
    assert_eq!(env.find("outer"), Ok(num(5.0)));
    assert_eq!(env.find("more"), Ok(num(5.0)));
    assert_eq!(env.find("last"), Ok(num(6.0)));
    assert_eq!(env.find("missing"), Err(EvalError::UnboundVariable));
}

#[test]
fn evaluation_without_arithmetic_never_calls_the_kernel() {
    let refusing = |_op: Operation, _a: u64, _b: u64| -> u64 { panic!("the kernel was called") };
    let mut env = standard_env();
    let texts = [
        ("(define x 5)", Ok(num(1.0))),
        ("(if (< x 6) (max x 7) 0)", Ok(num(7.0))),
        ("(set! x (- x))", Ok(num(1.0))),
        ("(quote x)", Ok(num(5.0))),
        ("(x 1)", Err(EvalError::NotCallable)),
        ("(+)", Err(EvalError::ArityError)),
    ];
    for (text, expected) in texts {
        let node = parse(text, &read_number).unwrap();
        assert_eq!(eval(node, &mut env, &refusing), expected, "{}", text);
    }
}

#[test]
fn evaluation_goes_by_what_the_kernel_returns_each_time() {
    let count = std::cell::Cell::new(0u64);
    let counting = |_op: Operation, _a: u64, _b: u64| {
        count.set(count.get() + 1);
        (count.get() as f64).to_bits()
    };
    let node = parse("(if (= (+ 1 1) (+ 1 1)) 10 20)", &read_number).unwrap();
    assert_eq!(eval(node, &mut standard_env(), &counting), Ok(num(20.0)));
    assert_eq!(count.get(), 2);
}
