//! The evaluator: what a form evaluates to in an environment, and the function that
//! computes it.
use vstd::prelude::*;
use crate::env::{assign, assign_then_lookup, bind, lookup, Env, Scope, Scopes};
use crate::error::EvalError;
use crate::functions::{application_may_give, applied, apply};
use crate::eval::laws::operands_of_a_function;
use crate::functions::maths::{always_callable, answers, computes, Operation};
use crate::number::{is_truthy, truthy, ONE, PI};
use crate::parse::{forms, forms_are_views, AstNode, Form};
use crate::value::{Builtin, Value};

pub mod laws;

verus! {

/// The bindings of the root scope: `pi` and the builtin procedures.
pub open spec fn standard_scope() -> Scope {
    Map::<Seq<char>, Value>::empty().insert("pi"@, Value::Number(PI)).insert(
        "+"@,
        Value::Procedure(Builtin::Add),
    ).insert("-"@, Value::Procedure(Builtin::Subtract)).insert(
        "*"@,
        Value::Procedure(Builtin::Multiply),
    ).insert("/"@, Value::Procedure(Builtin::Divide)).insert(
        "max"@,
        Value::Procedure(Builtin::Max),
    ).insert("min"@, Value::Procedure(Builtin::Min)).insert(
        "="@,
        Value::Procedure(Builtin::Eq),
    ).insert("<"@, Value::Procedure(Builtin::Lt)).insert(
        "<="@,
        Value::Procedure(Builtin::Lte),
    ).insert(">"@, Value::Procedure(Builtin::Gt)).insert(
        ">="@,
        Value::Procedure(Builtin::Gte),
    ).insert("not"@, Value::Procedure(Builtin::Not))
}

/// A root environment with `pi` and the builtin procedures.
pub fn standard_env() -> (env: Env)
    ensures
        env@ == seq![standard_scope()],
{
    let mut env: Env = Env::new(None);
    env.set("pi", Value::Number(PI));

    env.set("+", Value::Procedure(Builtin::Add));
    env.set("-", Value::Procedure(Builtin::Subtract));
    env.set("*", Value::Procedure(Builtin::Multiply));
    env.set("/", Value::Procedure(Builtin::Divide));
    env.set("max", Value::Procedure(Builtin::Max));
    env.set("min", Value::Procedure(Builtin::Min));

    env.set("=", Value::Procedure(Builtin::Eq));
    env.set("<", Value::Procedure(Builtin::Lt));
    env.set("<=", Value::Procedure(Builtin::Lte));
    env.set(">", Value::Procedure(Builtin::Gt));
    env.set(">=", Value::Procedure(Builtin::Gte));
    env.set("not", Value::Procedure(Builtin::Not));

    assert(env@ =~= seq![standard_scope()]);
    env
}

/// In the root scope each standard name stands for its builtin, and `pi` for the
/// circle constant.
pub proof fn standard_names()
    ensures
        lookup(seq![standard_scope()], "pi"@) == Some(Value::Number(PI)),
        lookup(seq![standard_scope()], "+"@) == Some(Value::Procedure(Builtin::Add)),
        lookup(seq![standard_scope()], "-"@) == Some(Value::Procedure(Builtin::Subtract)),
        lookup(seq![standard_scope()], "*"@) == Some(Value::Procedure(Builtin::Multiply)),
        lookup(seq![standard_scope()], "/"@) == Some(Value::Procedure(Builtin::Divide)),
        lookup(seq![standard_scope()], "max"@) == Some(Value::Procedure(Builtin::Max)),
        lookup(seq![standard_scope()], "min"@) == Some(Value::Procedure(Builtin::Min)),
        lookup(seq![standard_scope()], "="@) == Some(Value::Procedure(Builtin::Eq)),
        lookup(seq![standard_scope()], "<"@) == Some(Value::Procedure(Builtin::Lt)),
        lookup(seq![standard_scope()], "<="@) == Some(Value::Procedure(Builtin::Lte)),
        lookup(seq![standard_scope()], ">"@) == Some(Value::Procedure(Builtin::Gt)),
        lookup(seq![standard_scope()], ">="@) == Some(Value::Procedure(Builtin::Gte)),
        lookup(seq![standard_scope()], "not"@) == Some(Value::Procedure(Builtin::Not)),
        standard_scope().dom().len() == 13,
{
    reveal_strlit("pi");
    reveal_strlit("+");
    reveal_strlit("-");
    reveal_strlit("*");
    reveal_strlit("/");
    reveal_strlit("max");
    reveal_strlit("min");
    reveal_strlit("=");
    reveal_strlit("<");
    reveal_strlit("<=");
    reveal_strlit(">");
    reveal_strlit(">=");
    reveal_strlit("not");
    let one = seq!["+"@, "-"@, "*"@, "/"@, "="@, "<"@, ">"@];
    let two = seq!["pi"@, "<="@, ">="@];
    let three = seq!["max"@, "min"@, "not"@];
    assert(forall|i: int, j: int| 0 <= i < j < 7 ==> one[i][0] != one[j][0]);
    assert(forall|i: int, j: int| 0 <= i < j < 3 ==> two[i][0] != two[j][0]);
    assert(forall|i: int, j: int| 0 <= i < j < 3 ==> three[i][1] != three[j][1]);
    assert(forall|i: int, j: int| 0 <= i < 7 && 0 <= j < 3 ==> one[i].len() != two[j].len());
    assert(forall|i: int, j: int| 0 <= i < 7 && 0 <= j < 3 ==> one[i].len() != three[j].len());
    assert(forall|i: int, j: int| 0 <= i < 3 && 0 <= j < 3 ==> two[i].len() != three[j].len());
    assert(standard_scope().dom().len() == 13) by {
        broadcast use vstd::set::group_set_axioms;
        broadcast use vstd::map::group_map_axioms;
    }
}

/// The forms that are not evaluated operand by operand.
#[derive(Clone, Copy, PartialEq, Eq, Structural, Debug)]
pub enum Special {
    Quote,
    If,
    Define,
    Assign,
}

/// The special form that a list with `head` for its first element is, if any: the
/// head has to be the bare keyword.
pub open spec fn special_of(head: Form) -> Option<Special> {
    match head {
        Form::Symbol(name) => if name == "quote"@ {
            Some(Special::Quote)
        } else if name == "if"@ {
            Some(Special::If)
        } else if name == "define"@ {
            Some(Special::Define)
        } else if name == "set!"@ {
            Some(Special::Assign)
        } else {
            None
        },
        _ => None,
    }
}

/// What a definition or an assignment returns.
pub open spec fn done() -> Value {
    Value::Number(ONE)
}

/// The scopes after an evaluation, and its result.
pub type Outcome = (Scopes, Result<Value, EvalError>);

/// The scopes after the evaluation of operands, and their values.
pub type Operands = (Scopes, Result<Seq<Value>, EvalError>);

/// What the test of an `if` selects: the consequence where it is a number other than
/// zero, the alternative where it is zero. A test that is no number is a type
/// mismatch, and a test that failed has failed the `if`.
pub open spec fn selected(test: Outcome) -> Result<bool, EvalError> {
    match test.1 {
        Ok(Value::Number(n)) => Ok(is_truthy(n)),
        Ok(_) => Err(EvalError::TypeMismatch),
        Err(e) => Err(e),
    }
}

/// The procedure that an operator calls. An operator that is no procedure cannot be
/// called, and one that failed has failed the application.
pub open spec fn called(operator: Outcome) -> Result<Builtin, EvalError> {
    match operator.1 {
        Ok(Value::Procedure(procedure)) => Ok(procedure),
        Ok(_) => Err(EvalError::NotCallable),
        Err(e) => Err(e),
    }
}

/// The outcome of a definition of `name`, given the outcome for its expression.
pub open spec fn defined(name: Seq<char>, value: Outcome) -> Outcome {
    match value.1 {
        Ok(v) => (bind(value.0, name, v), Ok(done())),
        Err(e) => (value.0, Err(e)),
    }
}

/// The outcome of an assignment to `name`, given the outcome for its expression.
pub open spec fn assigned(name: Seq<char>, value: Outcome) -> Outcome {
    match value.1 {
        Ok(v) => if lookup(value.0, name) is Some {
            (assign(value.0, name, v), Ok(done()))
        } else {
            (value.0, Err(EvalError::UnboundVariable))
        },
        Err(e) => (value.0, Err(e)),
    }
}

/// The outcome for a run of operands, given the values of those before and the outcome
/// for those behind.
pub open spec fn following(values: Seq<Value>, others: Operands) -> Operands {
    match others.1 {
        Ok(more) => (others.0, Ok(values + more)),
        Err(e) => (others.0, Err(e)),
    }
}

/// The outcome for a run of operands, given the outcome for the first and, where that
/// has a value, the outcome for those behind it. Where the first failed, the others
/// are not evaluated.
pub open spec fn joined(first: Outcome, others: Operands) -> Operands {
    match first.1 {
        Ok(value) => following(seq![value], others),
        Err(e) => (first.0, Err(e)),
    }
}

/// What an application returns, given its procedure and the outcome for its operands,
/// with `k` for the kernel.
pub open spec fn returned(
    k: spec_fn(Operation, u64, u64) -> u64,
    procedure: Builtin,
    operands: Operands,
) -> Result<Value, EvalError> {
    match operands.1 {
        Ok(args) => applied(k, procedure, args),
        Err(e) => Err(e),
    }
}

/// Whether an application can return `result`, given its procedure and the outcome
/// for its operands, going by what the kernel can return.
pub open spec fn may_return(
    can: spec_fn(Operation, u64, u64, u64) -> bool,
    procedure: Builtin,
    operands: Operands,
    result: Result<Value, EvalError>,
) -> bool {
    match operands.1 {
        Ok(args) => application_may_give(can, procedure, args, result),
        Err(e) => result == Err::<Value, EvalError>(e),
    }
}

/// The scopes and the result after `form` is evaluated in `scopes`, with `k` for the
/// kernel. Where evaluation fails, the scopes are as they were when it failed.
pub open spec fn evaluated(k: spec_fn(Operation, u64, u64) -> u64, form: Form, scopes: Scopes) -> Outcome
    decreases form, 0nat,
{
    match form {
        Form::Symbol(name) => match lookup(scopes, name) {
            Some(value) => (scopes, Ok(value)),
            None => (scopes, Err(EvalError::UnboundVariable)),
        },
        Form::Number(n) => (scopes, Ok(Value::Number(n))),
        Form::List(items) => if items.len() == 0 {
            (scopes, Err(EvalError::EmptyApplication))
        } else {
            match special_of(items[0]) {
                Some(Special::Quote) => if items.len() != 2 {
                    (scopes, Err(EvalError::MalformedSpecialForm))
                } else {
                    evaluated(k, items[1], scopes)
                },
                Some(Special::If) => if items.len() != 4 {
                    (scopes, Err(EvalError::MalformedSpecialForm))
                } else {
                    let test = evaluated(k, items[1], scopes);
                    match selected(test) {
                        Ok(true) => evaluated(k, items[2], test.0),
                        Ok(false) => evaluated(k, items[3], test.0),
                        Err(e) => (test.0, Err(e)),
                    }
                },
                Some(Special::Define) => if items.len() != 3 || !(items[1] is Symbol) {
                    (scopes, Err(EvalError::MalformedSpecialForm))
                } else {
                    defined(items[1]->Symbol_0, evaluated(k, items[2], scopes))
                },
                Some(Special::Assign) => if items.len() != 3 || !(items[1] is Symbol) {
                    (scopes, Err(EvalError::MalformedSpecialForm))
                } else {
                    assigned(items[1]->Symbol_0, evaluated(k, items[2], scopes))
                },
                None => {
                    let operator = evaluated(k, items[0], scopes);
                    match called(operator) {
                        Ok(procedure) => {
                            let operands = evaluated_from(k, items, 1, operator.0);
                            (operands.0, returned(k, procedure, operands))
                        },
                        Err(e) => (operator.0, Err(e)),
                    }
                },
            }
        },
    }
}

/// The scopes and the values after the forms from `from` on are evaluated in
/// `scopes`, left to right, up to the first that fails.
pub open spec fn evaluated_from(
    k: spec_fn(Operation, u64, u64) -> u64,
    items: Seq<Form>,
    from: int,
    scopes: Scopes,
) -> Operands
    decreases items, items.len() - from,
{
    if from < 0 || from >= items.len() {
        (scopes, Ok(Seq::empty()))
    } else {
        let first = evaluated(k, items[from], scopes);
        joined(first, evaluated_from(k, items, from + 1, first.0))
    }
}

/// Whether evaluating `form` in `scopes` can end in `outcome`, going by what the
/// kernel can return. It says of every kernel what `evaluated` says of a kernel that
/// is a function: the steps are the same, and where arithmetic is applied, the result
/// is one that can be returned.
pub open spec fn may_evaluate_to(
    can: spec_fn(Operation, u64, u64, u64) -> bool,
    form: Form,
    scopes: Scopes,
    outcome: Outcome,
) -> bool
    decreases form, 0nat,
{
    match form {
        Form::Symbol(name) => match lookup(scopes, name) {
            Some(value) => outcome == (scopes, Ok::<Value, EvalError>(value)),
            None => outcome == (scopes, Err::<Value, EvalError>(EvalError::UnboundVariable)),
        },
        Form::Number(n) => outcome == (scopes, Ok::<Value, EvalError>(Value::Number(n))),
        Form::List(items) => if items.len() == 0 {
            outcome == (scopes, Err::<Value, EvalError>(EvalError::EmptyApplication))
        } else {
            match special_of(items[0]) {
                Some(Special::Quote) => if items.len() != 2 {
                    outcome == (scopes, Err::<Value, EvalError>(EvalError::MalformedSpecialForm))
                } else {
                    may_evaluate_to(can, items[1], scopes, outcome)
                },
                Some(Special::If) => if items.len() != 4 {
                    outcome == (scopes, Err::<Value, EvalError>(EvalError::MalformedSpecialForm))
                } else {
                    exists|test: Outcome|
                        {
                            &&& may_evaluate_to(can, items[1], scopes, test)
                            &&& match #[trigger] selected(test) {
                                Ok(true) => may_evaluate_to(can, items[2], test.0, outcome),
                                Ok(false) => may_evaluate_to(can, items[3], test.0, outcome),
                                Err(e) => outcome == (test.0, Err::<Value, EvalError>(e)),
                            }
                        }
                },
                Some(Special::Define) => if items.len() != 3 || !(items[1] is Symbol) {
                    outcome == (scopes, Err::<Value, EvalError>(EvalError::MalformedSpecialForm))
                } else {
                    exists|value: Outcome|
                        {
                            &&& may_evaluate_to(can, items[2], scopes, value)
                            &&& outcome == #[trigger] defined(items[1]->Symbol_0, value)
                        }
                },
                Some(Special::Assign) => if items.len() != 3 || !(items[1] is Symbol) {
                    outcome == (scopes, Err::<Value, EvalError>(EvalError::MalformedSpecialForm))
                } else {
                    exists|value: Outcome|
                        {
                            &&& may_evaluate_to(can, items[2], scopes, value)
                            &&& outcome == #[trigger] assigned(items[1]->Symbol_0, value)
                        }
                },
                None => exists|operator: Outcome|
                    {
                        &&& may_evaluate_to(can, items[0], scopes, operator)
                        &&& match #[trigger] called(operator) {
                            Ok(procedure) => exists|operands: Operands|
                                {
                                    &&& operands_may_evaluate_to(
                                        can,
                                        items,
                                        1,
                                        operator.0,
                                        operands,
                                    )
                                    &&& outcome.0 == operands.0
                                    &&& #[trigger] may_return(can, procedure, operands, outcome.1)
                                },
                            Err(e) => outcome == (operator.0, Err::<Value, EvalError>(e)),
                        }
                    },
            }
        },
    }
}

/// Whether evaluating the forms from `from` on in `scopes`, left to right and up to
/// the first that fails, can end in `outcome`, going by what the kernel can return.
pub open spec fn operands_may_evaluate_to(
    can: spec_fn(Operation, u64, u64, u64) -> bool,
    items: Seq<Form>,
    from: int,
    scopes: Scopes,
    outcome: Operands,
) -> bool
    decreases items, items.len() - from,
{
    if from < 0 || from >= items.len() {
        outcome == (scopes, Ok::<Seq<Value>, EvalError>(Seq::empty()))
    } else {
        exists|first: Outcome, others: Operands|
            {
                &&& may_evaluate_to(can, items[from], scopes, first)
                &&& first.1 is Ok ==> operands_may_evaluate_to(
                    can,
                    items,
                    from + 1,
                    first.0,
                    others,
                )
                &&& outcome == #[trigger] joined(first, others)
            }
    }
}

fn is_word(name: &String, word: &str) -> (r: bool)
    ensures
        r == (name@ == word@),
{
    let other = word.to_owned();
    *name == other
}

fn special(head: &AstNode) -> (form: Option<Special>)
    ensures
        form == special_of(head@),
{
    match head {
        AstNode::Symbol(name) => if is_word(name, "quote") {
            Some(Special::Quote)
        } else if is_word(name, "if") {
            Some(Special::If)
        } else if is_word(name, "define") {
            Some(Special::Define)
        } else if is_word(name, "set!") {
            Some(Special::Assign)
        } else {
            None
        },
        _ => None,
    }
}

proof fn forms_remove_first(nodes: Seq<AstNode>)
    requires
        nodes.len() > 0,
    ensures
        forms(nodes.remove(0)) == forms(nodes).skip(1),
        forms(nodes)[0] == nodes[0]@,
        forms(nodes).len() == nodes.len(),
{
    let rest = nodes.remove(0);
    forms_are_views(nodes);
    forms_are_views(rest);
    assert forall|i: int| 0 <= i < rest.len() implies forms(rest)[i] == forms(nodes).skip(1)[i] by {
        assert(rest[i] == nodes[i + 1]);
    }
    assert(forms(rest) =~= forms(nodes).skip(1));
}

/// A test that gave `test` and then led to `outcome` is an outcome of the whole `if`.
pub proof fn if_may_evaluate_to(
    can: spec_fn(Operation, u64, u64, u64) -> bool,
    items: Seq<Form>,
    scopes: Scopes,
    test: Outcome,
    outcome: Outcome,
)
    requires
        items.len() == 4,
        special_of(items[0]) == Some(Special::If),
        may_evaluate_to(can, items[1], scopes, test),
        match selected(test) {
            Ok(true) => may_evaluate_to(can, items[2], test.0, outcome),
            Ok(false) => may_evaluate_to(can, items[3], test.0, outcome),
            Err(e) => outcome == (test.0, Err::<Value, EvalError>(e)),
        },
    ensures
        may_evaluate_to(can, Form::List(items), scopes, outcome),
{
}

/// An expression that gave `value` makes a definition or an assignment end as
/// `defined` and `assigned` say.
pub proof fn binding_may_evaluate_to(
    can: spec_fn(Operation, u64, u64, u64) -> bool,
    items: Seq<Form>,
    scopes: Scopes,
    value: Outcome,
)
    requires
        items.len() == 3,
        items[1] is Symbol,
        may_evaluate_to(can, items[2], scopes, value),
    ensures
        special_of(items[0]) == Some(Special::Define) ==> may_evaluate_to(
            can,
            Form::List(items),
            scopes,
            defined(items[1]->Symbol_0, value),
        ),
        special_of(items[0]) == Some(Special::Assign) ==> may_evaluate_to(
            can,
            Form::List(items),
            scopes,
            assigned(items[1]->Symbol_0, value),
        ),
{
}

/// An operator that is no procedure, or that failed, ends the application there.
pub proof fn operator_may_end(
    can: spec_fn(Operation, u64, u64, u64) -> bool,
    items: Seq<Form>,
    scopes: Scopes,
    operator: Outcome,
)
    requires
        items.len() > 0,
        special_of(items[0]) is None,
        may_evaluate_to(can, items[0], scopes, operator),
        called(operator) is Err,
    ensures
        may_evaluate_to(
            can,
            Form::List(items),
            scopes,
            (operator.0, Err::<Value, EvalError>(called(operator)->Err_0)),
        ),
{
}

/// An operator that gave a procedure, operands that gave `operands`, and a result
/// that the procedure can return on them make an outcome of the application.
pub proof fn application_may_evaluate_to(
    can: spec_fn(Operation, u64, u64, u64) -> bool,
    items: Seq<Form>,
    scopes: Scopes,
    operator: Outcome,
    operands: Operands,
    result: Result<Value, EvalError>,
)
    requires
        items.len() > 0,
        special_of(items[0]) is None,
        may_evaluate_to(can, items[0], scopes, operator),
        called(operator) is Ok,
        operands_may_evaluate_to(can, items, 1, operator.0, operands),
        may_return(can, called(operator)->Ok_0, operands, result),
    ensures
        may_evaluate_to(can, Form::List(items), scopes, (operands.0, result)),
{
    let outcome = (operands.0, result);
    let procedure = called(operator)->Ok_0;
    assert(may_return(can, procedure, operands, outcome.1));
    assert(exists|given: Operands|
        {
            &&& operands_may_evaluate_to(can, items, 1, operator.0, given)
            &&& outcome.0 == given.0
            &&& #[trigger] may_return(can, procedure, given, outcome.1)
        });
}

/// An operand that gave `first` stands before the outcome of the operands behind it,
/// or ends the operands where it failed.
pub proof fn operand_may_evaluate_to(
    can: spec_fn(Operation, u64, u64, u64) -> bool,
    items: Seq<Form>,
    from: int,
    scopes: Scopes,
    first: Outcome,
    others: Operands,
)
    requires
        0 <= from < items.len(),
        may_evaluate_to(can, items[from], scopes, first),
        first.1 is Ok ==> operands_may_evaluate_to(can, items, from + 1, first.0, others),
    ensures
        operands_may_evaluate_to(can, items, from, scopes, joined(first, others)),
{
}

/// Whether the operands from `at` on are what is left to evaluate: whatever they can
/// give in `scopes`, put behind the values `args`, is an outcome of the operands from
/// the first on in `start`.
spec fn remaining(
    can: spec_fn(Operation, u64, u64, u64) -> bool,
    items: Seq<Form>,
    start: Scopes,
    args: Seq<Value>,
    at: int,
    scopes: Scopes,
) -> bool {
    forall|others: Operands| #[trigger]
        operands_may_evaluate_to(can, items, at, scopes, others) ==> operands_may_evaluate_to(
            can,
            items,
            1,
            start,
            following(args, others),
        )
}

proof fn all_remaining(can: spec_fn(Operation, u64, u64, u64) -> bool, items: Seq<Form>, start: Scopes)
    ensures
        remaining(can, items, start, Seq::empty(), 1, start),
{
    assert forall|others: Operands| #[trigger]
        operands_may_evaluate_to(can, items, 1, start, others) implies operands_may_evaluate_to(
        can,
        items,
        1,
        start,
        following(Seq::empty(), others),
    ) by {
        if others.1 is Ok {
            assert(Seq::<Value>::empty() + others.1->Ok_0 =~= others.1->Ok_0);
        }
    }
}

proof fn one_less_remaining(
    can: spec_fn(Operation, u64, u64, u64) -> bool,
    items: Seq<Form>,
    start: Scopes,
    args: Seq<Value>,
    at: int,
    scopes: Scopes,
    operand: Outcome,
)
    requires
        0 <= at < items.len(),
        remaining(can, items, start, args, at, scopes),
        may_evaluate_to(can, items[at], scopes, operand),
    ensures
        match operand.1 {
            Ok(value) => remaining(can, items, start, args.push(value), at + 1, operand.0),
            Err(e) => operands_may_evaluate_to(
                can,
                items,
                1,
                start,
                (operand.0, Err::<Seq<Value>, EvalError>(e)),
            ),
        },
{
    match operand.1 {
        Ok(value) => {
            assert forall|others: Operands| #[trigger]
                operands_may_evaluate_to(
                    can,
                    items,
                    at + 1,
                    operand.0,
                    others,
                ) implies operands_may_evaluate_to(
                can,
                items,
                1,
                start,
                following(args.push(value), others),
            ) by {
                operand_may_evaluate_to(can, items, at, scopes, operand, others);
                if others.1 is Ok {
                    assert(args + (seq![value] + others.1->Ok_0) =~= args.push(value) + others.1->Ok_0);
                }
                assert(following(args, joined(operand, others)) == following(
                    args.push(value),
                    others,
                ));
            }
        },
        Err(e) => {
            let ended = (operand.0, Err::<Seq<Value>, EvalError>(e));
            operand_may_evaluate_to(can, items, at, scopes, operand, ended);
            assert(following(args, ended) == ended);
        },
    }
}

proof fn none_remaining(
    can: spec_fn(Operation, u64, u64, u64) -> bool,
    items: Seq<Form>,
    start: Scopes,
    args: Seq<Value>,
    scopes: Scopes,
)
    requires
        remaining(can, items, start, args, items.len() as int, scopes),
    ensures
        operands_may_evaluate_to(can, items, 1, start, (scopes, Ok::<Seq<Value>, EvalError>(args))),
{
    let none = (scopes, Ok::<Seq<Value>, EvalError>(Seq::empty()));
    assert(operands_may_evaluate_to(can, items, items.len() as int, scopes, none));
    assert(args + Seq::<Value>::empty() =~= args);
    assert(following(args, none) == (scopes, Ok::<Seq<Value>, EvalError>(args)));
}

proof fn operands_evaluated_as_by_a_function<K: Fn(Operation, u64, u64) -> u64>(
    kernel: K,
    items: Seq<Form>,
    scopes: Scopes,
    operands: Operands,
)
    requires
        operands_may_evaluate_to(answers(kernel), items, 1, scopes, operands),
    ensures
        forall|k: spec_fn(Operation, u64, u64) -> u64| #[trigger]
            computes(kernel, k) ==> evaluated_from(k, items, 1, scopes) == operands,
{
    assert forall|k: spec_fn(Operation, u64, u64) -> u64| #[trigger]
        computes(kernel, k) implies evaluated_from(k, items, 1, scopes) == operands by {
        operands_of_a_function(answers(kernel), k, items, 1, scopes, operands);
    }
}

/// Evaluates an expression in an environment.
///
/// A symbol stands for its binding and a number for itself. A list is a special form
/// where it begins with `quote`, `if`, `define` or `set!`, and else the application of
/// a procedure: its first element is evaluated, then the others from left to right,
/// and the procedure is called on their values.
#[verifier::loop_isolation(false)]
pub fn eval<K: Fn(Operation, u64, u64) -> u64>(atom: AstNode, env: &mut Env, kernel: &K) -> (result:
    Result<Value, EvalError>)
    requires
        always_callable(*kernel),
    ensures
        forall|k: spec_fn(Operation, u64, u64) -> u64| #[trigger]
            computes(*kernel, k) ==> (final(env)@, result) == evaluated(k, atom@, old(env)@),
        may_evaluate_to(answers(*kernel), atom@, old(env)@, (final(env)@, result)),
        final(env)@.len() == old(env)@.len(),
    decreases atom@,
{
    match atom {
        AstNode::Symbol(symbol) => env.find(symbol.as_str()),
        AstNode::Number(n) => Ok(Value::Number(n)),
        AstNode::List(l) => {
            let mut list = l;
            let ghost items = forms(list@);
            if list.len() == 0 {
                return Err(EvalError::EmptyApplication);
            }
            proof {
                forms_remove_first(list@);
            }
            let first: AstNode = list.remove(0);
            match special(&first) {
                Some(Special::Quote) => {
                    if list.len() != 1 {
                        return Err(EvalError::MalformedSpecialForm);
                    }
                    proof {
                        forms_remove_first(list@);
                    }
                    let exp = list.remove(0);
                    eval(exp, env, kernel)
                },
                Some(Special::If) => {
                    if list.len() != 3 {
                        return Err(EvalError::MalformedSpecialForm);
                    }
                    proof {
                        forms_remove_first(list@);
                    }
                    let test = list.remove(0);
                    proof {
                        forms_remove_first(list@);
                    }
                    let conseq = list.remove(0);
                    proof {
                        forms_remove_first(list@);
                    }
                    let alt = list.remove(0);
                    let tested = eval(test, env, kernel);
                    let ghost test_outcome = (env@, tested);
                    let result = match tested {
                        Ok(Value::Number(n)) => if truthy(n) {
                            eval(conseq, env, kernel)
                        } else {
                            eval(alt, env, kernel)
                        },
                        Ok(_) => Err(EvalError::TypeMismatch),
                        Err(e) => Err(e),
                    };
                    proof {
                        if_may_evaluate_to(answers(*kernel), items, old(env)@, test_outcome, (env@, result));
                    }
                    result
                },
                Some(Special::Define) => {
                    if list.len() != 2 {
                        return Err(EvalError::MalformedSpecialForm);
                    }
                    proof {
                        forms_remove_first(list@);
                    }
                    match list.remove(0) {
                        AstNode::Symbol(v) => {
                            proof {
                                forms_remove_first(list@);
                            }
                            let value = eval(list.remove(0), env, kernel);
                            proof {
                                binding_may_evaluate_to(answers(*kernel), items, old(env)@, (env@, value));
                            }
                            match value {
                                Ok(exp) => {
                                    env.set(v.as_str(), exp);
                                    Ok(Value::Number(ONE))
                                },
                                Err(e) => Err(e),
                            }
                        },
                        _ => Err(EvalError::MalformedSpecialForm),
                    }
                },
                Some(Special::Assign) => {
                    if list.len() != 2 {
                        return Err(EvalError::MalformedSpecialForm);
                    }
                    proof {
                        forms_remove_first(list@);
                    }
                    match list.remove(0) {
                        AstNode::Symbol(v) => {
                            proof {
                                forms_remove_first(list@);
                            }
                            let value = eval(list.remove(0), env, kernel);
                            proof {
                                binding_may_evaluate_to(answers(*kernel), items, old(env)@, (env@, value));
                            }
                            match value {
                                Ok(exp) => {
                                    proof {
                                        assign_then_lookup(env@, v@, exp, v@);
                                    }
                                    match env.find_and_set(v.as_str(), exp) {
                                        Ok(()) => Ok(Value::Number(ONE)),
                                        Err(e) => Err(e),
                                    }
                                },
                                Err(e) => Err(e),
                            }
                        },
                        _ => Err(EvalError::MalformedSpecialForm),
                    }
                },
                None => {
                    let operator = eval(first, env, kernel);
                    let ghost operator_outcome = (env@, operator);
                    let op = match operator {
                        Ok(Value::Procedure(f)) => f,
                        Ok(_) => {
                            proof {
                                operator_may_end(answers(*kernel), items, old(env)@, operator_outcome);
                            }
                            return Err(EvalError::NotCallable);
                        },
                        Err(e) => {
                            proof {
                                operator_may_end(answers(*kernel), items, old(env)@, operator_outcome);
                            }
                            return Err(e);
                        },
                    };
                    let ghost after = env@;
                    let ghost mut at: int = 1;
                    let mut args: Vec<Value> = Vec::new();
                    proof {
                        all_remaining(answers(*kernel), items, after);
                    }
                    while list.len() > 0
                        invariant
                            1 <= at <= items.len(),
                            forms(list@) == items.skip(at),
                            env@.len() == old(env)@.len(),
                            remaining(answers(*kernel), items, after, args@, at, env@),
                        decreases list.len(),
                    {
                        proof {
                            forms_remove_first(list@);
                        }
                        let ghost before = env@;
                        let arg = list.remove(0);
                        let operand = eval(arg, env, kernel);
                        proof {
                            one_less_remaining(
                                answers(*kernel),
                                items,
                                after,
                                args@,
                                at,
                                before,
                                (env@, operand),
                            );
                        }
                        match operand {
                            Ok(value) => {
                                proof {
                                    assert(forms(list@) =~= items.skip(at + 1));
                                    at = at + 1;
                                }
                                args.push(value);
                            },
                            Err(e) => {
                                proof {
                                    let ended = (env@, Err::<Seq<Value>, EvalError>(e));
                                    operands_evaluated_as_by_a_function(*kernel, items, after, ended);
                                    application_may_evaluate_to(
                                        answers(*kernel),
                                        items,
                                        old(env)@,
                                        operator_outcome,
                                        ended,
                                        Err::<Value, EvalError>(e),
                                    );
                                }
                                return Err(e);
                            },
                        }
                    }
                    let ghost operands = (env@, Ok::<Seq<Value>, EvalError>(args@));
                    proof {
                        forms_are_views(list@);
                        assert(items.skip(at).len() == 0);
                        none_remaining(answers(*kernel), items, after, args@, env@);
                        operands_evaluated_as_by_a_function(*kernel, items, after, operands);
                    }
                    let result = apply(op, args, kernel);
                    proof {
                        application_may_evaluate_to(
                            answers(*kernel),
                            items,
                            old(env)@,
                            operator_outcome,
                            operands,
                            result,
                        );
                    }
                    result
                },
            }
        },
    }
}

} // verus!
