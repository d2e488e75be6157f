//! What holds of every reading. It goes by what the reader can return and by nothing
//! else; it fails alike under every reader; forms that are written down are read
//! back, and what is cut short or closed too often is refused.
use vstd::prelude::*;
use crate::error::EvalError;
use crate::parse::{
    after, atom_may_be_read, atom_read, continued, failure, first_failure, function,
    item_may_be_read, list_may_be_read, listed, may_parse_to, may_read, may_read_items, no_numbers,
    parsed, read, read_by, read_items, read_takes_tokens, whole, Form, Reading, Readings,
};
use crate::token::{
    closing, is_atom_text, is_token_text, opening, spaced, spaced_tokens_are_the_tokens, tokens_of,
};

verus! {

/// Where a function says what can be read, reading can only end as it ends
/// under that function.
pub proof fn reading_of_a_function(
    can: spec_fn(Seq<char>, Option<u64>) -> bool,
    rd: spec_fn(Seq<char>) -> Option<u64>,
    tokens: Seq<Seq<char>>,
    outcome: Reading,
)
    requires
        read_by(can, rd),
        may_read(can, tokens, outcome),
    ensures
        outcome == read(rd, tokens),
    decreases tokens.len(), 0nat,
{
    if tokens.len() > 0 {
        if tokens[0] == opening() {
            let items = choose|items: Readings|
                {
                    &&& may_read_items(can, tokens.drop_first(), items)
                    &&& outcome == #[trigger] listed(items)
                };
            items_of_a_function(can, rd, tokens.drop_first(), items);
        } else if tokens[0] != closing() {
            let number = choose|number: Option<u64>|
                {
                    &&& can(tokens[0], number)
                    &&& outcome == #[trigger] atom_read(tokens[0], number, tokens.drop_first())
                };
        }
    }
}

/// Where a function says what can be read, reading the items of a list can
/// only end as it ends under that function.
pub proof fn items_of_a_function(
    can: spec_fn(Seq<char>, Option<u64>) -> bool,
    rd: spec_fn(Seq<char>) -> Option<u64>,
    tokens: Seq<Seq<char>>,
    outcome: Readings,
)
    requires
        read_by(can, rd),
        may_read_items(can, tokens, outcome),
    ensures
        outcome == read_items(rd, tokens),
    decreases tokens.len(), 1nat,
{
    if tokens.len() > 0 && tokens[0] != closing() {
        let (first, others) = choose|first: Reading, others: Readings|
            {
                &&& may_read(can, tokens, first)
                &&& first.0 is Ok ==> first.1.len() < tokens.len() && may_read_items(
                    can,
                    first.1,
                    others,
                )
                &&& outcome == #[trigger] continued(first, others)
            };
        reading_of_a_function(can, rd, tokens, first);
        if first.0 is Ok {
            items_of_a_function(can, rd, first.1, others);
        }
    }
}

/// Where a function says what can be read, `parse` can only make of a text
/// what it makes of it under that function.
pub proof fn parsing_of_a_function(
    can: spec_fn(Seq<char>, Option<u64>) -> bool,
    rd: spec_fn(Seq<char>) -> Option<u64>,
    text: Seq<char>,
    result: Result<Form, EvalError>,
)
    requires
        read_by(can, rd),
        may_parse_to(can, text, result),
    ensures
        result == parsed(rd, text),
{
    let first = choose|first: Reading|
        may_read(can, tokens_of(text), first) && result == #[trigger] whole(first);
    reading_of_a_function(can, rd, tokens_of(text), first);
}

/// Where a function says what can be read, reading can end as it ends under that
/// function.
pub proof fn reading_under_a_function(rd: spec_fn(Seq<char>) -> Option<u64>, tokens: Seq<Seq<char>>)
    ensures
        read_by(function(rd), rd),
        may_read(function(rd), tokens, read(rd, tokens)),
        may_read_items(function(rd), tokens, read_items(rd, tokens)),
    decreases tokens.len(),
{
    let can = function(rd);
    if tokens.len() > 0 {
        reading_under_a_function(rd, tokens.drop_first());
        if tokens[0] == opening() {
            list_may_be_read(can, tokens, read_items(rd, tokens.drop_first()));
        } else if tokens[0] != closing() {
            assert(can(tokens[0], rd(tokens[0])));
            atom_may_be_read(can, tokens, rd(tokens[0]));
        }
        if tokens[0] != closing() {
            let first = read(rd, tokens);
            read_takes_tokens(rd, tokens);
            reading_under_a_function(rd, first.1);
            item_may_be_read(can, tokens, first, read_items(rd, first.1));
        }
    }
}

/// Where a function says what can be read, `parse` can make of a text what it makes
/// of it under that function.
pub proof fn parsing_under_a_function(rd: spec_fn(Seq<char>) -> Option<u64>, text: Seq<char>)
    ensures
        may_parse_to(function(rd), text, parsed(rd, text)),
{
    reading_under_a_function(rd, tokens_of(text));
    let first = read(rd, tokens_of(text));
    assert(parsed(rd, text) == whole(first));
}

/// Whatever can be read, reading fails where it fails with no token a number,
/// for the same reason, and leaves the same tokens.
pub proof fn reading_fails_alike(
    can: spec_fn(Seq<char>, Option<u64>) -> bool,
    tokens: Seq<Seq<char>>,
    outcome: Reading,
)
    requires
        may_read(can, tokens, outcome),
    ensures
        failure(outcome.0) == failure(read(no_numbers(), tokens).0),
        outcome.1 == read(no_numbers(), tokens).1,
    decreases tokens.len(), 0nat,
{
    if tokens.len() > 0 {
        if tokens[0] == opening() {
            let items = choose|items: Readings|
                {
                    &&& may_read_items(can, tokens.drop_first(), items)
                    &&& outcome == #[trigger] listed(items)
                };
            items_fail_alike(can, tokens.drop_first(), items);
        } else if tokens[0] != closing() {
            let number = choose|number: Option<u64>|
                {
                    &&& can(tokens[0], number)
                    &&& outcome == #[trigger] atom_read(tokens[0], number, tokens.drop_first())
                };
        }
    }
}

/// Whatever can be read, reading the items of a list fails where it fails with
/// no token a number, for the same reason, and leaves the same tokens.
pub proof fn items_fail_alike(
    can: spec_fn(Seq<char>, Option<u64>) -> bool,
    tokens: Seq<Seq<char>>,
    outcome: Readings,
)
    requires
        may_read_items(can, tokens, outcome),
    ensures
        failure(outcome.0) == failure(read_items(no_numbers(), tokens).0),
        outcome.1 == read_items(no_numbers(), tokens).1,
    decreases tokens.len(), 1nat,
{
    if tokens.len() > 0 && tokens[0] != closing() {
        let (first, others) = choose|first: Reading, others: Readings|
            {
                &&& may_read(can, tokens, first)
                &&& first.0 is Ok ==> first.1.len() < tokens.len() && may_read_items(
                    can,
                    first.1,
                    others,
                )
                &&& outcome == #[trigger] continued(first, others)
            };
        reading_fails_alike(can, tokens, first);
        if first.0 is Ok {
            items_fail_alike(can, first.1, others);
        }
    }
}

/// Whatever can be read, a text parses where it parses with no token a number,
/// and is refused for the same reason where it is refused.
pub proof fn parsing_fails_alike(
    can: spec_fn(Seq<char>, Option<u64>) -> bool,
    text: Seq<char>,
    result: Result<Form, EvalError>,
)
    requires
        may_parse_to(can, text, result),
    ensures
        failure(result) == failure(parsed(no_numbers(), text)),
{
    let first = choose|first: Reading|
        may_read(can, tokens_of(text), first) && result == #[trigger] whole(first);
    reading_fails_alike(can, tokens_of(text), first);
}

/// Which atoms are numbers is all that the reader decides: whether reading fails, why,
/// and which tokens are left are the same under any two readings.
pub proof fn reader_decides_atoms_only(
    first: spec_fn(Seq<char>) -> Option<u64>,
    second: spec_fn(Seq<char>) -> Option<u64>,
    tokens: Seq<Seq<char>>,
)
    ensures
        failure(read(first, tokens).0) == failure(read(second, tokens).0),
        read(first, tokens).1 == read(second, tokens).1,
        failure(read_items(first, tokens).0) == failure(read_items(second, tokens).0),
        read_items(first, tokens).1 == read_items(second, tokens).1,
    decreases tokens.len(),
{
    if tokens.len() > 0 {
        reader_decides_atoms_only(first, second, tokens.drop_first());
        if tokens[0] != closing() {
            read_takes_tokens(first, tokens);
            reader_decides_atoms_only(first, second, read(first, tokens).1);
        }
    }
}

/// Whether a text parses, and why not, is the same under any two readings.
pub proof fn reader_decides_no_failure(
    first: spec_fn(Seq<char>) -> Option<u64>,
    second: spec_fn(Seq<char>) -> Option<u64>,
    text: Seq<char>,
)
    ensures
        failure(parsed(first, text)) == failure(parsed(second, text)),
{
    reader_decides_atoms_only(first, second, tokens_of(text));
}

/// The tokens that write `form` down, where `spell` gives the token of each number.
pub open spec fn written(spell: spec_fn(u64) -> Seq<char>, form: Form) -> Seq<Seq<char>>
    decreases form, 0nat,
{
    match form {
        Form::Symbol(name) => seq![name],
        Form::Number(n) => seq![spell(n)],
        Form::List(items) => seq![opening()] + written_all(spell, items) + seq![closing()],
    }
}

/// The tokens that write the forms of `items` down, one after the other.
pub open spec fn written_all(spell: spec_fn(u64) -> Seq<char>, items: Seq<Form>) -> Seq<Seq<char>>
    decreases items, items.len(),
{
    if items.len() == 0 {
        Seq::empty()
    } else {
        written(spell, items[0]) + written_all(spell, items.drop_first())
    }
}

/// Whether `form` can be read back from what writes it down: no symbol is a
/// parenthesis or reads as a number, and each number is spelled by a token that is no
/// parenthesis and reads as that number.
pub open spec fn readable(
    rd: spec_fn(Seq<char>) -> Option<u64>,
    spell: spec_fn(u64) -> Seq<char>,
    form: Form,
) -> bool
    decreases form,
{
    match form {
        Form::Symbol(name) => name != opening() && name != closing() && rd(name) is None,
        Form::Number(n) => spell(n) != opening() && spell(n) != closing() && rd(spell(n)) == Some(n),
        Form::List(items) => forall|i: int|
            0 <= i < items.len() ==> readable(rd, spell, #[trigger] items[i]),
    }
}

/// Reading what writes a form down gives the form back and takes no token more.
pub proof fn written_is_read(
    rd: spec_fn(Seq<char>) -> Option<u64>,
    spell: spec_fn(u64) -> Seq<char>,
    form: Form,
    rest: Seq<Seq<char>>,
)
    requires
        readable(rd, spell, form),
    ensures
        read(rd, written(spell, form) + rest) == (Ok::<Form, EvalError>(form), rest),
        written(spell, form).len() > 0,
        written(spell, form)[0] != closing(),
    decreases form, 0nat,
{
    let tokens = written(spell, form) + rest;
    assert(opening() != closing()) by {
        assert(opening()[0] != closing()[0]);
    }
    match form {
        Form::Symbol(name) => {
            assert(tokens.drop_first() =~= rest);
        },
        Form::Number(n) => {
            assert(tokens.drop_first() =~= rest);
        },
        Form::List(items) => {
            assert(tokens.drop_first() =~= written_all(spell, items) + seq![closing()] + rest);
            written_items_are_read(rd, spell, items, rest);
        },
    }
}

/// Reading the items of a list from what writes them down, up to the closing
/// parenthesis, gives the items back.
pub proof fn written_items_are_read(
    rd: spec_fn(Seq<char>) -> Option<u64>,
    spell: spec_fn(u64) -> Seq<char>,
    items: Seq<Form>,
    rest: Seq<Seq<char>>,
)
    requires
        forall|i: int| 0 <= i < items.len() ==> readable(rd, spell, #[trigger] items[i]),
    ensures
        read_items(rd, written_all(spell, items) + seq![closing()] + rest) == (
            Ok::<Seq<Form>, EvalError>(items),
            rest,
        ),
    decreases items, items.len(),
{
    let tokens = written_all(spell, items) + seq![closing()] + rest;
    if items.len() == 0 {
        assert(tokens =~= seq![closing()] + rest);
        assert(tokens.drop_first() =~= rest);
        assert(items =~= Seq::<Form>::empty());
    } else {
        let first = items[0];
        let others = items.drop_first();
        let behind = written_all(spell, others) + seq![closing()] + rest;
        assert(readable(rd, spell, first));
        assert forall|i: int| 0 <= i < others.len() implies readable(rd, spell, #[trigger] others[i]) by {
            assert(others[i] == items[i + 1]);
        }
        written_is_read(rd, spell, first, behind);
        written_items_are_read(rd, spell, others, rest);
        assert(tokens =~= written(spell, first) + behind);
        assert(tokens[0] == written(spell, first)[0]);
        assert(read(rd, tokens) == (Ok::<Form, EvalError>(first), behind));
        assert(behind.len() < tokens.len());
        assert(read_items(rd, behind) == (Ok::<Seq<Form>, EvalError>(others), rest));
        assert(seq![first] + others =~= items);
        assert(read_items(rd, tokens) == after(seq![first], read_items(rd, behind)));
    }
}

/// Reading runs out of tokens where what writes a form down is cut short.
pub proof fn cut_short_is_unfinished(
    rd: spec_fn(Seq<char>) -> Option<u64>,
    spell: spec_fn(u64) -> Seq<char>,
    form: Form,
    n: int,
)
    requires
        readable(rd, spell, form),
        0 <= n < written(spell, form).len(),
    ensures
        read(rd, written(spell, form).take(n)).0 == Err::<Form, EvalError>(
            EvalError::UnexpectedEndOfInput,
        ),
    decreases form, 0nat,
{
    let whole = written(spell, form);
    let tokens = whole.take(n);
    if n > 0 {
        match form {
            Form::List(items) => {
                let inner = written_all(spell, items) + seq![closing()];
                assert(whole =~= seq![opening()] + inner);
                assert(tokens[0] == opening());
                assert(tokens.drop_first() =~= inner.take(n - 1));
                items_cut_short(rd, spell, items, n - 1);
            },
            _ => {},
        }
    }
}

/// Reading the items of a list runs out of tokens where they are cut short before the
/// closing parenthesis.
pub proof fn items_cut_short(
    rd: spec_fn(Seq<char>) -> Option<u64>,
    spell: spec_fn(u64) -> Seq<char>,
    items: Seq<Form>,
    n: int,
)
    requires
        forall|i: int| 0 <= i < items.len() ==> readable(rd, spell, #[trigger] items[i]),
        0 <= n <= written_all(spell, items).len(),
    ensures
        read_items(rd, (written_all(spell, items) + seq![closing()]).take(n)).0 == Err::<
            Seq<Form>,
            EvalError,
        >(EvalError::UnexpectedEndOfInput),
    decreases items, items.len(),
{
    let whole = written_all(spell, items) + seq![closing()];
    let tokens = whole.take(n);
    if n > 0 {
        let first = items[0];
        let others = items.drop_first();
        let head = written(spell, first);
        let behind = written_all(spell, others) + seq![closing()];
        assert(readable(rd, spell, first));
        assert forall|i: int| 0 <= i < others.len() implies readable(rd, spell, #[trigger] others[i]) by {
            assert(others[i] == items[i + 1]);
        }
        assert(whole =~= head + behind);
        written_is_read(rd, spell, first, behind.take(n - head.len()));
        assert(tokens[0] == head[0]);
        if n < head.len() {
            assert(tokens =~= head.take(n));
            cut_short_is_unfinished(rd, spell, first, n);
        } else {
            let left = behind.take(n - head.len());
            assert(tokens =~= head + left);
            assert(read(rd, tokens) == (Ok::<Form, EvalError>(first), left));
            items_cut_short(rd, spell, others, n - head.len());
            assert(read_items(rd, tokens) == after(seq![first], read_items(rd, left)));
        }
    }
}

/// Forms that are written down one after the other are read without a failure.
pub proof fn written_forms_do_not_fail(
    rd: spec_fn(Seq<char>) -> Option<u64>,
    spell: spec_fn(u64) -> Seq<char>,
    items: Seq<Form>,
)
    requires
        forall|i: int| 0 <= i < items.len() ==> readable(rd, spell, #[trigger] items[i]),
    ensures
        first_failure(written_all(spell, items)) is None,
    decreases items.len(),
{
    if items.len() > 0 {
        let others = items.drop_first();
        let behind = written_all(spell, others);
        assert(readable(rd, spell, items[0]));
        assert forall|i: int| 0 <= i < others.len() implies readable(rd, spell, #[trigger] others[i]) by {
            assert(others[i] == items[i + 1]);
        }
        written_is_read(rd, spell, items[0], behind);
        reader_decides_atoms_only(rd, no_numbers(), written_all(spell, items));
        written_forms_do_not_fail(rd, spell, others);
    }
}

/// Behind forms that are written down one after the other, a failure is the failure
/// of what follows them.
pub proof fn failure_behind_written_forms(
    rd: spec_fn(Seq<char>) -> Option<u64>,
    spell: spec_fn(u64) -> Seq<char>,
    items: Seq<Form>,
    rest: Seq<Seq<char>>,
)
    requires
        forall|i: int| 0 <= i < items.len() ==> readable(rd, spell, #[trigger] items[i]),
    ensures
        first_failure(written_all(spell, items) + rest) == first_failure(rest),
    decreases items.len(),
{
    if items.len() == 0 {
        assert(written_all(spell, items) + rest =~= rest);
    } else {
        let others = items.drop_first();
        let behind = written_all(spell, others) + rest;
        assert(readable(rd, spell, items[0]));
        assert forall|i: int| 0 <= i < others.len() implies readable(rd, spell, #[trigger] others[i]) by {
            assert(others[i] == items[i + 1]);
        }
        written_is_read(rd, spell, items[0], behind);
        assert(written_all(spell, items) + rest =~= written(spell, items[0]) + behind);
        reader_decides_atoms_only(rd, no_numbers(), written_all(spell, items) + rest);
        failure_behind_written_forms(rd, spell, others, rest);
    }
}

/// A text that writes one or more forms down parses to the first of them.
pub proof fn written_text_is_parsed(
    rd: spec_fn(Seq<char>) -> Option<u64>,
    spell: spec_fn(u64) -> Seq<char>,
    items: Seq<Form>,
    text: Seq<char>,
)
    requires
        items.len() > 0,
        forall|i: int| 0 <= i < items.len() ==> readable(rd, spell, #[trigger] items[i]),
        tokens_of(text) == written_all(spell, items),
    ensures
        parsed(rd, text) == Ok::<Form, EvalError>(items[0]),
{
    let others = items.drop_first();
    assert(readable(rd, spell, items[0]));
    assert forall|i: int| 0 <= i < others.len() implies readable(rd, spell, #[trigger] others[i]) by {
        assert(others[i] == items[i + 1]);
    }
    written_is_read(rd, spell, items[0], written_all(spell, others));
    written_forms_do_not_fail(rd, spell, others);
}

/// A text with a closing parenthesis that closes nothing is refused for it, whatever
/// stands behind it: the forms before it are complete, and it begins no form.
pub proof fn stray_closing_is_refused(
    rd: spec_fn(Seq<char>) -> Option<u64>,
    spell: spec_fn(u64) -> Seq<char>,
    items: Seq<Form>,
    rest: Seq<Seq<char>>,
    text: Seq<char>,
)
    requires
        forall|i: int| 0 <= i < items.len() ==> readable(rd, spell, #[trigger] items[i]),
        tokens_of(text) == written_all(spell, items) + (seq![closing()] + rest),
    ensures
        parsed(rd, text) == Err::<Form, EvalError>(EvalError::UnexpectedToken),
{
    let stray = seq![closing()] + rest;
    assert(opening() != closing()) by {
        assert(opening()[0] != closing()[0]);
    }
    assert(first_failure(stray) == Some(EvalError::UnexpectedToken));
    if items.len() > 0 {
        let others = items.drop_first();
        assert(readable(rd, spell, items[0]));
        assert forall|i: int| 0 <= i < others.len() implies readable(rd, spell, #[trigger] others[i]) by {
            assert(others[i] == items[i + 1]);
        }
        written_is_read(rd, spell, items[0], written_all(spell, others) + stray);
        assert(written_all(spell, items) + stray =~= written(spell, items[0]) + (written_all(
            spell,
            others,
        ) + stray));
        failure_behind_written_forms(rd, spell, others, stray);
    } else {
        assert(written_all(spell, items) + stray =~= stray);
    }
}

/// A text that stops before a form is complete is refused for what is missing, and
/// so is a text without a token: behind any complete forms stands a form cut short.
pub proof fn unfinished_text_is_refused(
    rd: spec_fn(Seq<char>) -> Option<u64>,
    spell: spec_fn(u64) -> Seq<char>,
    items: Seq<Form>,
    last: Form,
    n: int,
    text: Seq<char>,
)
    requires
        forall|i: int| 0 <= i < items.len() ==> readable(rd, spell, #[trigger] items[i]),
        readable(rd, spell, last),
        0 <= n < written(spell, last).len(),
        items.len() == 0 || n > 0,
        tokens_of(text) == written_all(spell, items) + written(spell, last).take(n),
    ensures
        parsed(rd, text) == Err::<Form, EvalError>(EvalError::UnexpectedEndOfInput),
{
    let cut = written(spell, last).take(n);
    cut_short_is_unfinished(rd, spell, last, n);
    reader_decides_atoms_only(rd, no_numbers(), cut);
    if items.len() > 0 {
        let others = items.drop_first();
        assert(readable(rd, spell, items[0]));
        assert forall|i: int| 0 <= i < others.len() implies readable(rd, spell, #[trigger] others[i]) by {
            assert(others[i] == items[i + 1]);
        }
        written_is_read(rd, spell, items[0], written_all(spell, others) + cut);
        assert(written_all(spell, items) + cut =~= written(spell, items[0]) + (written_all(spell, others)
            + cut));
        failure_behind_written_forms(rd, spell, others, cut);
        assert(first_failure(cut) == Some(EvalError::UnexpectedEndOfInput));
    } else {
        assert(written_all(spell, items) + cut =~= cut);
    }
}

/// Whether `form` can be written as text: every symbol, and the spelling of every
/// number, has a character and none that is whitespace or a parenthesis.
pub open spec fn writable(spell: spec_fn(u64) -> Seq<char>, form: Form) -> bool
    decreases form,
{
    match form {
        Form::Symbol(name) => is_atom_text(name),
        Form::Number(n) => is_atom_text(spell(n)),
        Form::List(items) => forall|i: int| 0 <= i < items.len() ==> writable(spell, #[trigger] items[i]),
    }
}

/// What writes a form down is made of tokens.
pub proof fn written_is_made_of_tokens(spell: spec_fn(u64) -> Seq<char>, form: Form)
    requires
        writable(spell, form),
    ensures
        forall|i: int|
            0 <= i < written(spell, form).len() ==> is_token_text(#[trigger] written(spell, form)[i]),
    decreases form, 0nat,
{
    match form {
        Form::List(items) => {
            written_items_are_made_of_tokens(spell, items);
            let inner = written_all(spell, items);
            assert forall|i: int| 0 <= i < written(spell, form).len() implies is_token_text(
                #[trigger] written(spell, form)[i],
            ) by {
                if 0 < i <= inner.len() {
                    assert(written(spell, form)[i] == inner[i - 1]);
                }
            }
        },
        _ => {},
    }
}

/// What writes forms down one after the other is made of tokens.
pub proof fn written_items_are_made_of_tokens(spell: spec_fn(u64) -> Seq<char>, items: Seq<Form>)
    requires
        forall|i: int| 0 <= i < items.len() ==> writable(spell, #[trigger] items[i]),
    ensures
        forall|i: int|
            0 <= i < written_all(spell, items).len() ==> is_token_text(
                #[trigger] written_all(spell, items)[i],
            ),
    decreases items, items.len(),
{
    if items.len() > 0 {
        let head = written(spell, items[0]);
        let others = items.drop_first();
        let behind = written_all(spell, others);
        assert(writable(spell, items[0]));
        assert forall|i: int| 0 <= i < others.len() implies writable(spell, #[trigger] others[i]) by {
            assert(others[i] == items[i + 1]);
        }
        written_is_made_of_tokens(spell, items[0]);
        written_items_are_made_of_tokens(spell, others);
        assert forall|i: int| 0 <= i < written_all(spell, items).len() implies is_token_text(
            #[trigger] written_all(spell, items)[i],
        ) by {
            if i < head.len() {
                assert(written_all(spell, items)[i] == head[i]);
            } else {
                assert(written_all(spell, items)[i] == behind[i - head.len()]);
            }
        }
    }
}

/// A form that is written as text, token by token with a space behind each, parses
/// back to itself.
pub proof fn written_form_parses_back(
    rd: spec_fn(Seq<char>) -> Option<u64>,
    spell: spec_fn(u64) -> Seq<char>,
    form: Form,
)
    requires
        readable(rd, spell, form),
        writable(spell, form),
    ensures
        parsed(rd, spaced(written(spell, form))) == Ok::<Form, EvalError>(form),
{
    written_is_made_of_tokens(spell, form);
    spaced_tokens_are_the_tokens(written(spell, form));
    written_is_read(rd, spell, form, Seq::empty());
    assert(written(spell, form) + Seq::<Seq<char>>::empty() =~= written(spell, form));
}

} // verus!
