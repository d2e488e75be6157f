//! What holds of every evaluation. It goes by what the kernel can return and by
//! nothing else; special forms do what their names say; and scopes change only by
//! definitions and assignments.
use vstd::prelude::*;
use crate::env::{assign_then_lookup, bind, bind_then_lookup, lookup, Scopes};
use crate::error::EvalError;
use crate::eval::{
    assigned, called, defined, done, evaluated, evaluated_from, joined, may_evaluate_to, may_return,
    operands_may_evaluate_to, returned, selected, special_of, Operands, Outcome, Special,
};
use crate::eval::{
    application_may_evaluate_to, binding_may_evaluate_to, if_may_evaluate_to,
    operand_may_evaluate_to, operator_may_end,
};
use crate::functions::{application_of_a_function, application_under_a_function};
use crate::functions::maths::{determined, function, Operation};
use crate::number::is_truthy;
use crate::parse::Form;
use crate::value::Value;

verus! {

/// Where a function says what can be returned, evaluation can only end as it ends
/// under that function.
pub proof fn evaluation_of_a_function(
    can: spec_fn(Operation, u64, u64, u64) -> bool,
    k: spec_fn(Operation, u64, u64) -> u64,
    form: Form,
    scopes: Scopes,
    outcome: Outcome,
)
    requires
        determined(can, k),
        may_evaluate_to(can, form, scopes, outcome),
    ensures
        outcome == evaluated(k, form, scopes),
    decreases form, 0nat,
{
    match form {
        Form::List(items) => {
            if items.len() > 0 {
                match special_of(items[0]) {
                    Some(Special::Quote) => {
                        if items.len() == 2 {
                            evaluation_of_a_function(can, k, items[1], scopes, outcome);
                        }
                    },
                    Some(Special::If) => {
                        if items.len() == 4 {
                            let test = choose|test: Outcome|
                                {
                                    &&& may_evaluate_to(can, items[1], scopes, test)
                                    &&& match #[trigger] selected(test) {
                                        Ok(true) => may_evaluate_to(can, items[2], test.0, outcome),
                                        Ok(false) => may_evaluate_to(can, items[3], test.0, outcome),
                                        Err(e) => outcome == (test.0, Err::<Value, EvalError>(e)),
                                    }
                                };
                            evaluation_of_a_function(can, k, items[1], scopes, test);
                            match selected(test) {
                                Ok(true) => evaluation_of_a_function(
                                    can,
                                    k,
                                    items[2],
                                    test.0,
                                    outcome,
                                ),
                                Ok(false) => evaluation_of_a_function(
                                    can,
                                    k,
                                    items[3],
                                    test.0,
                                    outcome,
                                ),
                                Err(e) => {},
                            }
                        }
                    },
                    Some(Special::Define) => {
                        if items.len() == 3 && items[1] is Symbol {
                            let value = choose|value: Outcome|
                                {
                                    &&& may_evaluate_to(can, items[2], scopes, value)
                                    &&& outcome == #[trigger] defined(items[1]->Symbol_0, value)
                                };
                            evaluation_of_a_function(can, k, items[2], scopes, value);
                        }
                    },
                    Some(Special::Assign) => {
                        if items.len() == 3 && items[1] is Symbol {
                            let value = choose|value: Outcome|
                                {
                                    &&& may_evaluate_to(can, items[2], scopes, value)
                                    &&& outcome == #[trigger] assigned(items[1]->Symbol_0, value)
                                };
                            evaluation_of_a_function(can, k, items[2], scopes, value);
                        }
                    },
                    None => {
                        let operator = choose|operator: Outcome|
                            {
                                &&& may_evaluate_to(can, items[0], scopes, operator)
                                &&& match #[trigger] called(operator) {
                                    Ok(procedure) => exists|operands: Operands|
                                        {
                                            &&& operands_may_evaluate_to(
                                                can,
                                                items,
                                                1,
                                                operator.0,
                                                operands,
                                            )
                                            &&& outcome.0 == operands.0
                                            &&& #[trigger] may_return(
                                                can,
                                                procedure,
                                                operands,
                                                outcome.1,
                                            )
                                        },
                                    Err(e) => outcome == (operator.0, Err::<Value, EvalError>(e)),
                                }
                            };
                        evaluation_of_a_function(can, k, items[0], scopes, operator);
                        if called(operator) is Ok {
                            let procedure = called(operator)->Ok_0;
                            let operands = choose|operands: Operands|
                                {
                                    &&& operands_may_evaluate_to(can, items, 1, operator.0, operands)
                                    &&& outcome.0 == operands.0
                                    &&& #[trigger] may_return(can, procedure, operands, outcome.1)
                                };
                            operands_of_a_function(can, k, items, 1, operator.0, operands);
                            if operands.1 is Ok {
                                application_of_a_function(
                                    can,
                                    k,
                                    procedure,
                                    operands.1->Ok_0,
                                    outcome.1,
                                );
                            }
                        }
                    },
                }
            }
        },
        _ => {},
    }
}

/// Where a function says what can be returned, the evaluation of operands can only
/// end as it ends under that function.
pub proof fn operands_of_a_function(
    can: spec_fn(Operation, u64, u64, u64) -> bool,
    k: spec_fn(Operation, u64, u64) -> u64,
    items: Seq<Form>,
    from: int,
    scopes: Scopes,
    outcome: Operands,
)
    requires
        determined(can, k),
        operands_may_evaluate_to(can, items, from, scopes, outcome),
    ensures
        outcome == evaluated_from(k, items, from, scopes),
    decreases items, items.len() - from,
{
    if 0 <= from < items.len() {
        let (first, others) = choose|first: Outcome, others: Operands|
            {
                &&& may_evaluate_to(can, items[from], scopes, first)
                &&& first.1 is Ok ==> operands_may_evaluate_to(
                    can,
                    items,
                    from + 1,
                    first.0,
                    others,
                )
                &&& outcome == #[trigger] joined(first, others)
            };
        evaluation_of_a_function(can, k, items[from], scopes, first);
        if first.1 is Ok {
            operands_of_a_function(can, k, items, from + 1, first.0, others);
        }
    }
}

/// Where a function says what can be returned, evaluation can end as it ends under
/// that function.
pub proof fn evaluation_under_a_function(
    k: spec_fn(Operation, u64, u64) -> u64,
    form: Form,
    scopes: Scopes,
)
    ensures
        may_evaluate_to(function(k), form, scopes, evaluated(k, form, scopes)),
    decreases form, 0nat,
{
    let can = function(k);
    match form {
        Form::List(items) => {
            if items.len() > 0 {
                match special_of(items[0]) {
                    Some(Special::Quote) => {
                        if items.len() == 2 {
                            evaluation_under_a_function(k, items[1], scopes);
                        }
                    },
                    Some(Special::If) => {
                        if items.len() == 4 {
                            let test = evaluated(k, items[1], scopes);
                            evaluation_under_a_function(k, items[1], scopes);
                            evaluation_under_a_function(k, items[2], test.0);
                            evaluation_under_a_function(k, items[3], test.0);
                            if_may_evaluate_to(can, items, scopes, test, evaluated(k, form, scopes));
                        }
                    },
                    Some(Special::Define) => {
                        if items.len() == 3 && items[1] is Symbol {
                            evaluation_under_a_function(k, items[2], scopes);
                            binding_may_evaluate_to(can, items, scopes, evaluated(k, items[2], scopes));
                        }
                    },
                    Some(Special::Assign) => {
                        if items.len() == 3 && items[1] is Symbol {
                            evaluation_under_a_function(k, items[2], scopes);
                            binding_may_evaluate_to(can, items, scopes, evaluated(k, items[2], scopes));
                        }
                    },
                    None => {
                        let operator = evaluated(k, items[0], scopes);
                        evaluation_under_a_function(k, items[0], scopes);
                        if called(operator) is Ok {
                            let operands = evaluated_from(k, items, 1, operator.0);
                            operands_under_a_function(k, items, 1, operator.0);
                            if operands.1 is Ok {
                                application_under_a_function(
                                    k,
                                    called(operator)->Ok_0,
                                    operands.1->Ok_0,
                                );
                            }
                            application_may_evaluate_to(
                                can,
                                items,
                                scopes,
                                operator,
                                operands,
                                returned(k, called(operator)->Ok_0, operands),
                            );
                        } else {
                            operator_may_end(can, items, scopes, operator);
                        }
                    },
                }
            }
        },
        _ => {},
    }
}

/// Where a function says what can be returned, the evaluation of operands can end as
/// it ends under that function.
pub proof fn operands_under_a_function(
    k: spec_fn(Operation, u64, u64) -> u64,
    items: Seq<Form>,
    from: int,
    scopes: Scopes,
)
    ensures
        operands_may_evaluate_to(function(k), items, from, scopes, evaluated_from(k, items, from, scopes)),
    decreases items, items.len() - from,
{
    if 0 <= from < items.len() {
        let first = evaluated(k, items[from], scopes);
        evaluation_under_a_function(k, items[from], scopes);
        operands_under_a_function(k, items, from + 1, first.0);
        operand_may_evaluate_to(
            function(k),
            items,
            from,
            scopes,
            first,
            evaluated_from(k, items, from + 1, first.0),
        );
    }
}

/// The keywords differ from one another, so each names its own special form.
pub proof fn keywords_are_told_apart()
    ensures
        special_of(Form::Symbol("quote"@)) == Some(Special::Quote),
        special_of(Form::Symbol("if"@)) == Some(Special::If),
        special_of(Form::Symbol("define"@)) == Some(Special::Define),
        special_of(Form::Symbol("set!"@)) == Some(Special::Assign),
{
    reveal_strlit("quote");
    reveal_strlit("if");
    reveal_strlit("define");
    reveal_strlit("set!");
    assert("quote"@.len() != "if"@.len());
    assert("quote"@.len() != "define"@.len());
    assert("quote"@.len() != "set!"@.len());
    assert("if"@.len() != "define"@.len());
    assert("if"@.len() != "set!"@.len());
    assert("define"@.len() != "set!"@.len());
}

/// A special form with the wrong number of operands, or a definition or assignment
/// whose target is no symbol, fails before any operand is evaluated: the scopes stay
/// as they are.
pub proof fn malformed_forms_touch_nothing(
    k: spec_fn(Operation, u64, u64) -> u64,
    items: Seq<Form>,
    scopes: Scopes,
)
    requires
        items.len() > 0,
        match special_of(items[0]) {
            Some(Special::Quote) => items.len() != 2,
            Some(Special::If) => items.len() != 4,
            Some(Special::Define) => items.len() != 3 || !(items[1] is Symbol),
            Some(Special::Assign) => items.len() != 3 || !(items[1] is Symbol),
            None => false,
        },
    ensures
        evaluated(k, Form::List(items), scopes) == (
            scopes,
            Err::<Value, EvalError>(EvalError::MalformedSpecialForm),
        ),
{
}

/// `(if test conseq alt)` evaluates `test` and then one branch only: `conseq` where
/// the test is a number other than zero, `alt` where it is zero.
pub proof fn if_evaluates_one_branch(
    k: spec_fn(Operation, u64, u64) -> u64,
    test: Form,
    conseq: Form,
    alt: Form,
    scopes: Scopes,
)
    ensures
        ({
            let whole = Form::List(seq![Form::Symbol("if"@), test, conseq, alt]);
            let (tested, value) = evaluated(k, test, scopes);
            match value {
                Ok(Value::Number(n)) => evaluated(k, whole, scopes) == if is_truthy(n) {
                    evaluated(k, conseq, tested)
                } else {
                    evaluated(k, alt, tested)
                },
                Ok(_) => evaluated(k, whole, scopes) == (
                    tested,
                    Err::<Value, EvalError>(EvalError::TypeMismatch),
                ),
                Err(e) => evaluated(k, whole, scopes) == (tested, Err::<Value, EvalError>(e)),
            }
        }),
{
    keywords_are_told_apart();
}

/// What evaluation can do to a chain of scopes: it may add names to the innermost
/// scope and rebind names anywhere, and that is all. No scope is opened or closed, no
/// name is unbound, and no scope but the innermost gains a name.
pub open spec fn grown_from(after: Scopes, before: Scopes) -> bool {
    &&& after.len() == before.len()
    &&& forall|i: int| 1 <= i < before.len() ==> (#[trigger] after[i]).dom() == before[i].dom()
    &&& before.len() > 0 ==> before[0].dom().subset_of(after[0].dom())
}

/// Evaluation, whether it succeeds or fails, only adds names to the innermost scope
/// and rebinds names.
pub proof fn evaluation_grows_the_scopes(
    k: spec_fn(Operation, u64, u64) -> u64,
    form: Form,
    scopes: Scopes,
)
    ensures
        grown_from(evaluated(k, form, scopes).0, scopes),
    decreases form, 0nat,
{
    match form {
        Form::List(items) => {
            if items.len() > 0 {
                match special_of(items[0]) {
                    Some(Special::Quote) => {
                        if items.len() == 2 {
                            evaluation_grows_the_scopes(k, items[1], scopes);
                        }
                    },
                    Some(Special::If) => {
                        if items.len() == 4 {
                            let tested = evaluated(k, items[1], scopes).0;
                            evaluation_grows_the_scopes(k, items[1], scopes);
                            evaluation_grows_the_scopes(k, items[2], tested);
                            evaluation_grows_the_scopes(k, items[3], tested);
                        }
                    },
                    Some(Special::Define) => {
                        if items.len() == 3 && items[1] is Symbol {
                            let (after, value) = evaluated(k, items[2], scopes);
                            evaluation_grows_the_scopes(k, items[2], scopes);
                            if value is Ok && after.len() > 0 {
                                let name = items[1]->Symbol_0;
                                assert(bind(after, name, value->Ok_0)[0].dom() =~= after[0].dom().insert(
                                    name,
                                ));
                            }
                        }
                    },
                    Some(Special::Assign) => {
                        if items.len() == 3 && items[1] is Symbol {
                            let (after, value) = evaluated(k, items[2], scopes);
                            evaluation_grows_the_scopes(k, items[2], scopes);
                            if value is Ok {
                                assign_then_lookup(
                                    after,
                                    items[1]->Symbol_0,
                                    value->Ok_0,
                                    items[1]->Symbol_0,
                                );
                            }
                        }
                    },
                    None => {
                        let after = evaluated(k, items[0], scopes).0;
                        evaluation_grows_the_scopes(k, items[0], scopes);
                        operands_grow_the_scopes(k, items, 1, after);
                    },
                }
            }
        },
        _ => {},
    }
}

/// Evaluating operands only adds names to the innermost scope and rebinds names.
pub proof fn operands_grow_the_scopes(
    k: spec_fn(Operation, u64, u64) -> u64,
    items: Seq<Form>,
    from: int,
    scopes: Scopes,
)
    ensures
        grown_from(evaluated_from(k, items, from, scopes).0, scopes),
    decreases items, items.len() - from,
{
    if 0 <= from < items.len() {
        let after = evaluated(k, items[from], scopes).0;
        evaluation_grows_the_scopes(k, items[from], scopes);
        operands_grow_the_scopes(k, items, from + 1, after);
    }
}

/// Whether `form` holds no definition and no assignment: no list in it begins with
/// `define` or `set!`.
pub open spec fn binds_nothing(form: Form) -> bool
    decreases form,
{
    match form {
        Form::List(items) => {
            &&& items.len() > 0 ==> special_of(items[0]) != Some(Special::Define) && special_of(
                items[0],
            ) != Some(Special::Assign)
            &&& forall|i: int| 0 <= i < items.len() ==> binds_nothing(#[trigger] items[i])
        },
        _ => true,
    }
}

/// Only definitions and assignments change an environment: a form without them
/// leaves the scopes as they are.
pub proof fn other_forms_change_nothing(
    k: spec_fn(Operation, u64, u64) -> u64,
    form: Form,
    scopes: Scopes,
)
    requires
        binds_nothing(form),
    ensures
        evaluated(k, form, scopes).0 == scopes,
    decreases form, 0nat,
{
    match form {
        Form::List(items) => {
            if items.len() > 0 {
                match special_of(items[0]) {
                    Some(Special::Quote) => {
                        if items.len() == 2 {
                            assert(binds_nothing(items[1]));
                            other_forms_change_nothing(k, items[1], scopes);
                        }
                    },
                    Some(Special::If) => {
                        if items.len() == 4 {
                            assert(binds_nothing(items[1]));
                            assert(binds_nothing(items[2]));
                            assert(binds_nothing(items[3]));
                            other_forms_change_nothing(k, items[1], scopes);
                            other_forms_change_nothing(k, items[2], scopes);
                            other_forms_change_nothing(k, items[3], scopes);
                        }
                    },
                    Some(_) => {},
                    None => {
                        assert(binds_nothing(items[0]));
                        other_forms_change_nothing(k, items[0], scopes);
                        other_operands_change_nothing(k, items, 1, scopes);
                    },
                }
            }
        },
        _ => {},
    }
}

/// Operands without definitions and assignments leave the scopes as they are.
pub proof fn other_operands_change_nothing(
    k: spec_fn(Operation, u64, u64) -> u64,
    items: Seq<Form>,
    from: int,
    scopes: Scopes,
)
    requires
        forall|i: int| 0 <= i < items.len() ==> binds_nothing(#[trigger] items[i]),
    ensures
        evaluated_from(k, items, from, scopes).0 == scopes,
    decreases items, items.len() - from,
{
    if 0 <= from < items.len() {
        assert(binds_nothing(items[from]));
        other_forms_change_nothing(k, items[from], scopes);
        other_operands_change_nothing(k, items, from + 1, scopes);
    }
}

/// `(quote exp)` evaluates `exp`.
pub proof fn quote_evaluates_its_operand(
    k: spec_fn(Operation, u64, u64) -> u64,
    exp: Form,
    scopes: Scopes,
)
    ensures
        evaluated(k, Form::List(seq![Form::Symbol("quote"@), exp]), scopes) == evaluated(
            k,
            exp,
            scopes,
        ),
{
    keywords_are_told_apart();
}

/// After `(define name exp)`, where `exp` has a value, `name` evaluates to that value
/// in the same environment, and the definition itself evaluates to one.
pub proof fn define_then_lookup(
    k: spec_fn(Operation, u64, u64) -> u64,
    name: Seq<char>,
    exp: Form,
    scopes: Scopes,
)
    requires
        scopes.len() > 0,
        evaluated(k, exp, scopes).1 is Ok,
    ensures
        ({
            let definition = Form::List(seq![Form::Symbol("define"@), Form::Symbol(name), exp]);
            let (defined, result) = evaluated(k, definition, scopes);
            &&& result == Ok::<Value, EvalError>(done())
            &&& evaluated(k, Form::Symbol(name), defined) == (defined, evaluated(k, exp, scopes).1)
        }),
{
    keywords_are_told_apart();
    let (after, value) = evaluated(k, exp, scopes);
    evaluation_grows_the_scopes(k, exp, scopes);
    bind_then_lookup(after, name, value->Ok_0, name);
}

/// `(set! name exp)` on a name that is unbound once `exp` has its value fails, and
/// binds nothing: the scopes are as the evaluation of `exp` left them. On a bound name
/// it evaluates to one, and the name then evaluates to the value of `exp`.
pub proof fn assignment_needs_a_binding(
    k: spec_fn(Operation, u64, u64) -> u64,
    name: Seq<char>,
    exp: Form,
    scopes: Scopes,
)
    requires
        evaluated(k, exp, scopes).1 is Ok,
    ensures
        ({
            let assignment = Form::List(seq![Form::Symbol("set!"@), Form::Symbol(name), exp]);
            let (after, value) = evaluated(k, exp, scopes);
            let (assigned, result) = evaluated(k, assignment, scopes);
            &&& lookup(after, name) is None ==> assigned == after && result == Err::<Value, EvalError>(
                EvalError::UnboundVariable,
            )
            &&& lookup(after, name) is Some ==> result == Ok::<Value, EvalError>(done()) && evaluated(
                k,
                Form::Symbol(name),
                assigned,
            ) == (assigned, value)
        }),
{
    keywords_are_told_apart();
    let (after, value) = evaluated(k, exp, scopes);
    assign_then_lookup(after, name, value->Ok_0, name);
}

/// A list whose operator does not evaluate to a procedure cannot be applied: no
/// operand is evaluated. A number for an operator is such a case.
pub proof fn only_procedures_apply(
    k: spec_fn(Operation, u64, u64) -> u64,
    items: Seq<Form>,
    scopes: Scopes,
)
    requires
        items.len() > 0,
        special_of(items[0]) is None,
    ensures
        ({
            let (after, operator) = evaluated(k, items[0], scopes);
            operator is Ok && !(operator->Ok_0 is Procedure) ==> evaluated(
                k,
                Form::List(items),
                scopes,
            ) == (after, Err::<Value, EvalError>(EvalError::NotCallable))
        }),
        items[0] is Number ==> evaluated(k, Form::List(items), scopes) == (
            scopes,
            Err::<Value, EvalError>(EvalError::NotCallable),
        ),
{
}

} // verus!
