//! Reading text: tokens, the forms they make up, and the program that a text holds.
use vstd::prelude::*;
use vstd::string::*;
use crate::error::EvalError;
use crate::parse::laws::{items_of_a_function, reading_fails_alike};
use crate::token::{
    closing, is_break, is_whitespace, lex, lex_step_atom, lex_step_paren, lex_step_space, opening,
    tokens_are_lexed, tokens_of,
};

pub mod laws;

verus! {

/// A form: a symbol, a number, or a list of forms in order.
#[derive(PartialEq, Eq, Debug)]
pub enum AstNode {
    /// A name.
    Symbol(String),
    /// A literal, as the bit pattern of an IEEE-754 binary64 value.
    Number(u64),
    /// A list, whose first element is the operator or keyword.
    List(Vec<AstNode>),
}

/// What an `AstNode` stands for.
pub ghost enum Form {
    Symbol(Seq<char>),
    Number(u64),
    List(Seq<Form>),
}

impl View for AstNode {
    type V = Form;

    open spec fn view(&self) -> Form {
        self.form()
    }
}

/// The forms that a sequence of nodes stands for, in order.
pub open spec fn forms(nodes: Seq<AstNode>) -> Seq<Form>
    decreases nodes, 0nat,
{
    if nodes.len() == 0 {
        Seq::empty()
    } else {
        forms(nodes.drop_last()).push(nodes.last().form())
    }
}

/// A sequence of nodes stands for as many forms, each node for its own.
pub proof fn forms_are_views(nodes: Seq<AstNode>)
    ensures
        forms(nodes).len() == nodes.len(),
        forall|i: int| 0 <= i < nodes.len() ==> forms(nodes)[i] == (#[trigger] nodes[i])@,
    decreases nodes.len(),
{
    if nodes.len() > 0 {
        let front = nodes.drop_last();
        forms_are_views(front);
        assert forall|i: int| 0 <= i < nodes.len() implies forms(nodes)[i] == (#[trigger] nodes[i])@ by {
            if i < front.len() {
                assert(front[i] == nodes[i]);
            }
        }
    }
}

impl AstNode {
    /// What the node stands for.
    pub open spec fn form(self) -> Form
        decreases self, 1nat,
    {
        match self {
            AstNode::Symbol(name) => Form::Symbol(name@),
            AstNode::Number(n) => Form::Number(n),
            AstNode::List(nodes) => Form::List(forms(nodes@)),
        }
    }

    /// The empty list.
    pub fn new() -> (node: AstNode)
        ensures
            node@ == Form::List(Seq::empty()),
    {
        AstNode::List(Vec::new())
    }

    /// A copy of the node itself: an atom with its payload, a list without its
    /// elements.
    pub fn clone(&self) -> (copy: AstNode)
        ensures
            copy@ == match self@ {
                Form::List(_) => Form::List(Seq::empty()),
                atom => atom,
            },
    {
        match self {
            AstNode::Symbol(name) => AstNode::Symbol(name.clone()),
            AstNode::Number(n) => AstNode::Number(*n),
            AstNode::List(_) => AstNode::new(),
        }
    }
}

/// The texts of a sequence of strings.
pub open spec fn texts(strings: Seq<String>) -> Seq<Seq<char>> {
    Seq::new(strings.len(), |i: int| strings[i]@)
}

/// The text between the character positions `from` and `to`, as a string of its own.
fn piece_of(s: &str, from: usize, to: usize) -> (token: String)
    requires
        from <= to <= s@.len(),
    ensures
        token@ == s@.subrange(from as int, to as int),
{
    s.substring_char(from, to).to_owned()
}

/// Splits a text into its tokens: each parenthesis, and each run of other characters
/// between whitespace and parentheses. Any text has tokens, possibly none.
pub fn tokenize(s: &str) -> (tokens: Vec<String>)
    ensures
        texts(tokens@) == tokens_of(s@),
{
    let n = s.unicode_len();
    let mut tokens: Vec<String> = Vec::new();
    let mut start: usize = 0;
    let mut i: usize = 0;
    proof {
        assert(s@.skip(0) =~= s@);
        assert(texts(tokens@) =~= Seq::<Seq<char>>::empty());
    }
    for c in it: s.chars()
        invariant
            n == s@.len(),
            it.seq() == s@,
            i == it.index(),
            start <= i <= n,
            forall|j: int| start <= j < i ==> !is_break(#[trigger] s@[j]),
            lex(s@) == texts(tokens@) + lex(s@.skip(start as int)),
    {
        assert(c == s@[i as int]);
        let space = is_whitespace(c);
        if space || c == '(' || c == ')' {
            if start < i {
                let token = piece_of(s, start, i);
                proof {
                    lex_step_atom(s@, start as int, i as int);
                    assert(texts(tokens@.push(token)) =~= texts(tokens@) + seq![token@]);
                }
                tokens.push(token);
            }
            if space {
                proof {
                    lex_step_space(s@, i as int);
                }
            } else {
                let token = if c == '(' {
                    String::from_str("(")
                } else {
                    String::from_str(")")
                };
                proof {
                    reveal_strlit("(");
                    reveal_strlit(")");
                    assert(token@ =~= seq![c]);
                    lex_step_paren(s@, i as int);
                    assert(texts(tokens@.push(token)) =~= texts(tokens@) + seq![token@]);
                }
                tokens.push(token);
            }
            start = i + 1;
        }
        i = i + 1;
    }
    if start < i {
        let token = piece_of(s, start, i);
        proof {
            lex_step_atom(s@, start as int, i as int);
            assert(texts(tokens@.push(token)) =~= texts(tokens@) + seq![token@]);
        }
        tokens.push(token);
    }
    proof {
        assert(s@.skip(n as int) =~= Seq::<char>::empty());
        assert(lex(s@) =~= texts(tokens@));
        tokens_are_lexed(s@);
    }
    tokens
}

/// The reader can be called on every token.
pub open spec fn always_readable<R: Fn(&str) -> Option<u64>>(reader: R) -> bool {
    forall|token: &str| call_requires(reader, (token,))
}

/// What the reader can return: whether `number` can come back from a call on a
/// token with this text.
pub open spec fn readings<R: Fn(&str) -> Option<u64>>(reader: R) -> spec_fn(
    Seq<char>,
    Option<u64>,
) -> bool {
    |text: Seq<char>, number: Option<u64>|
        exists|token: &str| token@ == text && #[trigger] call_ensures(reader, (token,), number)
}

/// The function `rd` says what can be read: nothing but its value.
pub open spec fn read_by(
    can: spec_fn(Seq<char>, Option<u64>) -> bool,
    rd: spec_fn(Seq<char>) -> Option<u64>,
) -> bool {
    forall|text: Seq<char>, number: Option<u64>| #[trigger] can(text, number) ==> number == rd(text)
}

/// What can be read where the function `rd` says it: its value, and nothing else.
pub open spec fn function(rd: spec_fn(Seq<char>) -> Option<u64>) -> spec_fn(
    Seq<char>,
    Option<u64>,
) -> bool {
    |text: Seq<char>, number: Option<u64>| number == rd(text)
}

/// The function `rd` says what the reader returns: whatever a call of the reader can
/// give back for a token is the value of `rd` on the token's text.
pub open spec fn reads<R: Fn(&str) -> Option<u64>>(
    reader: R,
    rd: spec_fn(Seq<char>) -> Option<u64>,
) -> bool {
    read_by(readings(reader), rd)
}

/// What reading gives: a form or a failure, and the tokens that are left.
pub type Reading = (Result<Form, EvalError>, Seq<Seq<char>>);

/// What reading the items of a list gives: the forms or a failure, and the tokens
/// that are left.
pub type Readings = (Result<Seq<Form>, EvalError>, Seq<Seq<char>>);

/// The atom that a token is: the number it was read as, or else a symbol of its text.
pub open spec fn atom_of(token: Seq<char>, number: Option<u64>) -> Form {
    match number {
        Some(n) => Form::Number(n),
        None => Form::Symbol(token),
    }
}

/// The reading of an atom, given what its token was read as and the tokens behind it.
pub open spec fn atom_read(token: Seq<char>, number: Option<u64>, rest: Seq<Seq<char>>) -> Reading {
    (Ok(atom_of(token, number)), rest)
}

/// The reading of a list, given the reading of its items.
pub open spec fn listed(items: Readings) -> Reading {
    match items.0 {
        Ok(list) => (Ok(Form::List(list)), items.1),
        Err(e) => (Err(e), items.1),
    }
}

/// The reading of the items of a list, given the reading of the first and, where that
/// is a form, the reading of the items behind it.
pub open spec fn continued(first: Reading, others: Readings) -> Readings {
    match first.0 {
        Ok(form) => after(seq![form], others),
        Err(e) => (Err(e), first.1),
    }
}

/// The outcome of reading the items of a list, given the items read so far and the
/// outcome for the items behind them.
pub open spec fn after(items: Seq<Form>, others: Readings) -> Readings {
    match others.0 {
        Ok(list) => (Ok(items + list), others.1),
        Err(e) => (Err(e), others.1),
    }
}

/// The first complete form of `tokens`, and the tokens that are left behind it, with
/// `rd` for the reader. A list runs from `(` to the matching `)`; a `)` cannot begin
/// a form; any other token is an atom. Where reading fails, the tokens left are those
/// not yet taken.
pub open spec fn read(rd: spec_fn(Seq<char>) -> Option<u64>, tokens: Seq<Seq<char>>) -> Reading
    decreases tokens.len(), 0nat,
{
    if tokens.len() == 0 {
        (Err(EvalError::UnexpectedEndOfInput), tokens)
    } else if tokens[0] == opening() {
        listed(read_items(rd, tokens.drop_first()))
    } else if tokens[0] == closing() {
        (Err(EvalError::UnexpectedToken), tokens.drop_first())
    } else {
        atom_read(tokens[0], rd(tokens[0]), tokens.drop_first())
    }
}

/// The forms of `tokens` up to the `)` that closes the list they are in, and the
/// tokens left behind that `)`, with `rd` for the reader. A form takes at least one
/// token (`read_takes_tokens`), so the case of one that took none is never met.
pub open spec fn read_items(rd: spec_fn(Seq<char>) -> Option<u64>, tokens: Seq<Seq<char>>) -> Readings
    decreases tokens.len(), 1nat,
{
    if tokens.len() == 0 {
        (Err(EvalError::UnexpectedEndOfInput), tokens)
    } else if tokens[0] == closing() {
        (Ok(Seq::empty()), tokens.drop_first())
    } else {
        let first = read(rd, tokens);
        if first.1.len() < tokens.len() {
            continued(first, read_items(rd, first.1))
        } else {
            continued(first, (Err(EvalError::UnexpectedEndOfInput), first.1))
        }
    }
}

/// Reading a form takes at least one token, and never adds one.
pub proof fn read_takes_tokens(rd: spec_fn(Seq<char>) -> Option<u64>, tokens: Seq<Seq<char>>)
    ensures
        tokens.len() > 0 ==> read(rd, tokens).1.len() < tokens.len(),
        tokens.len() > 0 ==> read_items(rd, tokens).1.len() < tokens.len(),
        read(rd, tokens).1.len() <= tokens.len(),
        read_items(rd, tokens).1.len() <= tokens.len(),
    decreases tokens.len(),
{
    if tokens.len() > 0 {
        read_takes_tokens(rd, tokens.drop_first());
        if tokens[0] != opening() && tokens[0] != closing() {
            let rest = read(rd, tokens).1;
            assert(rest == tokens.drop_first());
            read_takes_tokens(rd, rest);
        } else if tokens[0] == opening() {
            let rest = read(rd, tokens).1;
            read_takes_tokens(rd, rest);
        }
    }
}

/// The reading under which no token is a number.
pub open spec fn no_numbers() -> spec_fn(Seq<char>) -> Option<u64> {
    |token: Seq<char>| None::<u64>
}

/// Why a result is a failure, if it is one.
pub open spec fn failure<T>(result: Result<T, EvalError>) -> Option<EvalError> {
    match result {
        Ok(_) => None,
        Err(e) => Some(e),
    }
}

/// Why reading the forms of `tokens` one after the other fails, if it does: the
/// failure of the first form that cannot be read.
pub open spec fn first_failure(tokens: Seq<Seq<char>>) -> Option<EvalError>
    decreases tokens.len(),
{
    if tokens.len() == 0 {
        None
    } else {
        let (form, rest) = read(no_numbers(), tokens);
        match form {
            Ok(_) => {
                proof {
                    read_takes_tokens(no_numbers(), tokens);
                }
                first_failure(rest)
            },
            Err(e) => Some(e),
        }
    }
}

/// What a text parses to, given the reading of its first form: that form, unless
/// reading the forms behind it fails.
pub open spec fn whole(first: Reading) -> Result<Form, EvalError> {
    match first.0 {
        Ok(form) => match first_failure(first.1) {
            Some(e) => Err(e),
            None => Ok(form),
        },
        Err(e) => Err(e),
    }
}

/// What `parse` makes of a text, with `rd` for the reader: the first of its forms. A
/// text whose parentheses do not match is refused, wherever in the text they are.
pub open spec fn parsed(rd: spec_fn(Seq<char>) -> Option<u64>, text: Seq<char>) -> Result<
    Form,
    EvalError,
> {
    whole(read(rd, tokens_of(text)))
}

/// Whether reading the first form of `tokens` can end in `outcome`, going by what
/// the reader can return. It says of every reader what `read` says of a reader that
/// is a function: the steps are the same, and an atom is a number where one can be
/// returned for its token.
pub open spec fn may_read(
    can: spec_fn(Seq<char>, Option<u64>) -> bool,
    tokens: Seq<Seq<char>>,
    outcome: Reading,
) -> bool
    decreases tokens.len(), 0nat,
{
    if tokens.len() == 0 {
        outcome == (Err::<Form, EvalError>(EvalError::UnexpectedEndOfInput), tokens)
    } else if tokens[0] == opening() {
        exists|items: Readings|
            {
                &&& may_read_items(can, tokens.drop_first(), items)
                &&& outcome == #[trigger] listed(items)
            }
    } else if tokens[0] == closing() {
        outcome == (Err::<Form, EvalError>(EvalError::UnexpectedToken), tokens.drop_first())
    } else {
        exists|number: Option<u64>|
            {
                &&& can(tokens[0], number)
                &&& outcome == #[trigger] atom_read(tokens[0], number, tokens.drop_first())
            }
    }
}

/// Whether reading the items of a list from `tokens` can end in `outcome`, going by
/// what the reader can return.
pub open spec fn may_read_items(
    can: spec_fn(Seq<char>, Option<u64>) -> bool,
    tokens: Seq<Seq<char>>,
    outcome: Readings,
) -> bool
    decreases tokens.len(), 1nat,
{
    if tokens.len() == 0 {
        outcome == (Err::<Seq<Form>, EvalError>(EvalError::UnexpectedEndOfInput), tokens)
    } else if tokens[0] == closing() {
        outcome == (Ok::<Seq<Form>, EvalError>(Seq::empty()), tokens.drop_first())
    } else {
        exists|first: Reading, others: Readings|
            {
                &&& may_read(can, tokens, first)
                &&& first.0 is Ok ==> first.1.len() < tokens.len() && may_read_items(
                    can,
                    first.1,
                    others,
                )
                &&& outcome == #[trigger] continued(first, others)
            }
    }
}

/// Whether `parse` can make `result` of a text, going by what the reader can return.
pub open spec fn may_parse_to(
    can: spec_fn(Seq<char>, Option<u64>) -> bool,
    text: Seq<char>,
    result: Result<Form, EvalError>,
) -> bool {
    exists|first: Reading| may_read(can, tokens_of(text), first) && result == #[trigger] whole(first)
}

/// An atom whose token can be read as `number` is read as `atom_of` says.
pub proof fn atom_may_be_read(
    can: spec_fn(Seq<char>, Option<u64>) -> bool,
    tokens: Seq<Seq<char>>,
    number: Option<u64>,
)
    requires
        tokens.len() > 0,
        tokens[0] != opening(),
        tokens[0] != closing(),
        can(tokens[0], number),
    ensures
        may_read(can, tokens, atom_read(tokens[0], number, tokens.drop_first())),
{
}

/// Items that can be read make a list that can be read.
pub proof fn list_may_be_read(
    can: spec_fn(Seq<char>, Option<u64>) -> bool,
    tokens: Seq<Seq<char>>,
    items: Readings,
)
    requires
        tokens.len() > 0,
        tokens[0] == opening(),
        may_read_items(can, tokens.drop_first(), items),
    ensures
        may_read(can, tokens, listed(items)),
{
}

/// An item that can be read stands before the items that can be read behind it, or
/// ends the reading where it failed.
pub proof fn item_may_be_read(
    can: spec_fn(Seq<char>, Option<u64>) -> bool,
    tokens: Seq<Seq<char>>,
    first: Reading,
    others: Readings,
)
    requires
        tokens.len() > 0,
        tokens[0] != closing(),
        may_read(can, tokens, first),
        first.0 is Ok ==> first.1.len() < tokens.len() && may_read_items(can, first.1, others),
    ensures
        may_read_items(can, tokens, continued(first, others)),
{
}

/// What a result of reading stands for.
pub open spec fn form_of(result: Result<AstNode, EvalError>) -> Result<Form, EvalError> {
    match result {
        Ok(node) => Ok(node@),
        Err(e) => Err(e),
    }
}

fn is_token(token: &String, c: char) -> (r: bool)
    ensures
        r == (token@ == seq![c]),
{
    let text = token.as_str();
    let r = text.unicode_len() == 1 && text.get_char(0) == c;
    proof {
        if r {
            assert(token@ =~= seq![c]);
        }
    }
    r
}

/// The atom for a token, given what the token was read as: a number where it reads as
/// one, a symbol of its text where it does not.
pub fn atom(token: String, number: Option<u64>) -> (node: AstNode)
    ensures
        node@ == atom_of(token@, number),
{
    match number {
        Some(n) => AstNode::Number(n),
        None => AstNode::Symbol(token),
    }
}

proof fn texts_drop_first(strings: Seq<String>)
    requires
        strings.len() > 0,
    ensures
        texts(strings.remove(0)) == texts(strings).drop_first(),
        texts(strings)[0] == strings[0]@,
        texts(strings).len() == strings.len(),
        strings.remove(0) == strings.skip(1),
{
    assert(texts(strings.remove(0)) =~= texts(strings).drop_first());
    assert(strings.remove(0) =~= strings.skip(1));
}

proof fn forms_push(nodes: Seq<AstNode>, node: AstNode)
    ensures
        forms(nodes.push(node)) == forms(nodes) + seq![node@],
{
    assert(nodes.push(node).drop_last() =~= nodes);
    assert(forms(nodes.push(node)) =~= forms(nodes) + seq![node@]);
}

/// Whether the tokens `left` are what is left to read of the items of a list:
/// whatever can be read from them, put behind the forms `list`, can be read from the
/// tokens `inner` behind the opening parenthesis.
spec fn remaining(
    can: spec_fn(Seq<char>, Option<u64>) -> bool,
    inner: Seq<Seq<char>>,
    list: Seq<Form>,
    left: Seq<Seq<char>>,
) -> bool {
    forall|others: Readings| #[trigger]
        may_read_items(can, left, others) ==> may_read_items(can, inner, after(list, others))
}

proof fn all_remaining(can: spec_fn(Seq<char>, Option<u64>) -> bool, inner: Seq<Seq<char>>)
    ensures
        remaining(can, inner, Seq::empty(), inner),
{
    assert forall|others: Readings| #[trigger] may_read_items(can, inner, others) implies may_read_items(
        can,
        inner,
        after(Seq::empty(), others),
    ) by {
        if others.0 is Ok {
            assert(Seq::<Form>::empty() + others.0->Ok_0 =~= others.0->Ok_0);
        }
    }
}

proof fn one_less_remaining(
    can: spec_fn(Seq<char>, Option<u64>) -> bool,
    inner: Seq<Seq<char>>,
    list: Seq<Form>,
    left: Seq<Seq<char>>,
    item: Reading,
)
    requires
        left.len() > 0,
        left[0] != closing(),
        remaining(can, inner, list, left),
        may_read(can, left, item),
        item.1.len() < left.len(),
    ensures
        match item.0 {
            Ok(form) => remaining(can, inner, list.push(form), item.1),
            Err(e) => may_read_items(can, inner, (Err::<Seq<Form>, EvalError>(e), item.1)),
        },
{
    match item.0 {
        Ok(form) => {
            assert forall|others: Readings| #[trigger]
                may_read_items(can, item.1, others) implies may_read_items(
                can,
                inner,
                after(list.push(form), others),
            ) by {
                item_may_be_read(can, left, item, others);
                if others.0 is Ok {
                    assert(list + (seq![form] + others.0->Ok_0) =~= list.push(form) + others.0->Ok_0);
                }
                assert(after(list, continued(item, others)) == after(list.push(form), others));
            }
        },
        Err(e) => {
            let ended = (Err::<Seq<Form>, EvalError>(e), item.1);
            item_may_be_read(can, left, item, ended);
            assert(after(list, ended) == ended);
        },
    }
}

proof fn none_remaining(
    can: spec_fn(Seq<char>, Option<u64>) -> bool,
    inner: Seq<Seq<char>>,
    list: Seq<Form>,
    left: Seq<Seq<char>>,
)
    requires
        remaining(can, inner, list, left),
    ensures
        left.len() == 0 ==> may_read_items(
            can,
            inner,
            (Err::<Seq<Form>, EvalError>(EvalError::UnexpectedEndOfInput), left),
        ),
        left.len() > 0 && left[0] == closing() ==> may_read_items(
            can,
            inner,
            (Ok::<Seq<Form>, EvalError>(list), left.drop_first()),
        ),
{
    if left.len() == 0 {
        let ended = (Err::<Seq<Form>, EvalError>(EvalError::UnexpectedEndOfInput), left);
        assert(may_read_items(can, left, ended));
        assert(after(list, ended) == ended);
    } else if left[0] == closing() {
        let closed = (Ok::<Seq<Form>, EvalError>(Seq::empty()), left.drop_first());
        assert(may_read_items(can, left, closed));
        assert(list + Seq::<Form>::empty() =~= list);
        assert(after(list, closed) == (Ok::<Seq<Form>, EvalError>(list), left.drop_first()));
    }
}

/// The items that could be read make the list that was read, under every function
/// that says what the reader returns too.
proof fn list_was_read<R: Fn(&str) -> Option<u64>>(
    reader: R,
    tokens: Seq<Seq<char>>,
    items: Readings,
)
    requires
        tokens.len() > 0,
        tokens[0] == opening(),
        may_read_items(readings(reader), tokens.drop_first(), items),
    ensures
        may_read(readings(reader), tokens, listed(items)),
        forall|rd: spec_fn(Seq<char>) -> Option<u64>| #[trigger]
            reads(reader, rd) ==> read(rd, tokens) == listed(items),
{
    list_may_be_read(readings(reader), tokens, items);
    assert forall|rd: spec_fn(Seq<char>) -> Option<u64>| #[trigger]
        reads(reader, rd) implies read(rd, tokens) == listed(items) by {
        items_of_a_function(readings(reader), rd, tokens.drop_first(), items);
    }
}

/// Takes the first complete form off the front of `tokens`: a list from `(` to its
/// `)`, or one atom. The tokens behind the form stay; where reading fails, those stay
/// that were not yet taken.
#[verifier::loop_isolation(false)]
pub fn read_from_tokens<R: Fn(&str) -> Option<u64>>(tokens: &mut Vec<String>, reader: &R) -> (result:
    Result<AstNode, EvalError>)
    requires
        always_readable(*reader),
    ensures
        forall|rd: spec_fn(Seq<char>) -> Option<u64>| #[trigger]
            reads(*reader, rd) ==> (form_of(result), texts(final(tokens)@)) == read(
                rd,
                texts(old(tokens)@),
            ),
        may_read(readings(*reader), texts(old(tokens)@), (form_of(result), texts(final(tokens)@))),
        final(tokens)@.len() <= old(tokens)@.len(),
        old(tokens)@.len() > 0 ==> final(tokens)@.len() < old(tokens)@.len(),
        final(tokens)@ == old(tokens)@.skip(old(tokens)@.len() - final(tokens)@.len()),
    decreases old(tokens)@.len(),
{
    if tokens.len() == 0 {
        proof {
            assert(tokens@.skip(0) =~= tokens@);
        }
        return Err(EvalError::UnexpectedEndOfInput);
    }
    proof {
        texts_drop_first(tokens@);
    }
    let token = tokens.remove(0);
    let ghost inner = tokens@;
    if is_token(&token, '(') {
        let mut list: Vec<AstNode> = Vec::new();
        proof {
            all_remaining(readings(*reader), texts(inner));
        }
        loop
            invariant
                always_readable(*reader),
                tokens@.len() <= inner.len(),
                tokens@ == inner.skip(inner.len() - tokens@.len()),
                remaining(readings(*reader), texts(inner), forms(list@), texts(tokens@)),
            decreases tokens@.len(),
        {
            proof {
                none_remaining(readings(*reader), texts(inner), forms(list@), texts(tokens@));
            }
            if tokens.len() == 0 {
                proof {
                    list_was_read(
                        *reader,
                        texts(old(tokens)@),
                        (Err::<Seq<Form>, EvalError>(EvalError::UnexpectedEndOfInput), texts(tokens@)),
                    );
                }
                return Err(EvalError::UnexpectedEndOfInput);
            }
            proof {
                texts_drop_first(tokens@);
            }
            if is_token(&tokens[0], ')') {
                tokens.remove(0);
                proof {
                    assert(tokens@ =~= inner.skip(inner.len() - tokens@.len()));
                    assert(tokens@ =~= old(tokens)@.skip(old(tokens)@.len() - tokens@.len()));
                    list_was_read(
                        *reader,
                        texts(old(tokens)@),
                        (Ok::<Seq<Form>, EvalError>(forms(list@)), texts(tokens@)),
                    );
                }
                return Ok(AstNode::List(list));
            }
            let ghost before = tokens@;
            let item = read_from_tokens(tokens, reader);
            proof {
                assert(tokens@ =~= inner.skip(inner.len() - tokens@.len()));
                assert(tokens@ =~= old(tokens)@.skip(old(tokens)@.len() - tokens@.len()));
                one_less_remaining(
                    readings(*reader),
                    texts(inner),
                    forms(list@),
                    texts(before),
                    (form_of(item), texts(tokens@)),
                );
            }
            match item {
                Ok(node) => {
                    proof {
                        forms_push(list@, node);
                        assert(forms(list@) + seq![node@] =~= forms(list@).push(node@));
                    }
                    list.push(node);
                },
                Err(e) => {
                    proof {
                        list_was_read(
                            *reader,
                            texts(old(tokens)@),
                            (Err::<Seq<Form>, EvalError>(e), texts(tokens@)),
                        );
                    }
                    return Err(e);
                },
            }
        }
    } else if is_token(&token, ')') {
        proof {
            assert(tokens@ =~= old(tokens)@.skip(old(tokens)@.len() - tokens@.len()));
        }
        Err(EvalError::UnexpectedToken)
    } else {
        proof {
            assert(tokens@ =~= old(tokens)@.skip(old(tokens)@.len() - tokens@.len()));
        }
        let number = reader(token.as_str());
        proof {
            assert(readings(*reader)(token@, number));
            atom_may_be_read(readings(*reader), texts(old(tokens)@), number);
        }
        Ok(atom(token, number))
    }
}

/// Reads a program: the first form that its text holds. The forms behind it are read
/// too, so that parentheses that do not match are found wherever they are.
#[verifier::loop_isolation(false)]
pub fn parse<R: Fn(&str) -> Option<u64>>(program: &str, reader: &R) -> (result: Result<
    AstNode,
    EvalError,
>)
    requires
        always_readable(*reader),
    ensures
        forall|rd: spec_fn(Seq<char>) -> Option<u64>| #[trigger]
            reads(*reader, rd) ==> form_of(result) == parsed(rd, program@),
        may_parse_to(readings(*reader), program@, form_of(result)),
{
    let mut tokens = tokenize(program);
    let read = read_from_tokens(&mut tokens, reader);
    let ghost first = (form_of(read), texts(tokens@));
    let node = match read {
        Ok(node) => node,
        Err(e) => {
            assert(form_of(read) == whole(first));
            return Err(e);
        },
    };
    while tokens.len() > 0
        invariant
            always_readable(*reader),
            first_failure(first.1) == first_failure(texts(tokens@)),
        decreases tokens@.len(),
    {
        let ghost before = texts(tokens@);
        let next = read_from_tokens(&mut tokens, reader);
        proof {
            reading_fails_alike(readings(*reader), before, (form_of(next), texts(tokens@)));
        }
        match next {
            Ok(_) => {},
            Err(e) => {
                assert(Err::<Form, EvalError>(e) == whole(first));
                return Err(e);
            },
        }
    }
    assert(Ok::<Form, EvalError>(node@) == whole(first));
    Ok(node)
}

} // verus!
