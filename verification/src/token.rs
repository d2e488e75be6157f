//! The tokens of a text: what they are, stated as padding and splitting, and the same
//! read off from the left, which is how they are found.
use vstd::prelude::*;

verus! {

/// Unicode's White_Space property: the characters at which text is split.
pub open spec fn is_space(c: char) -> bool {
    let n = c as u32;
    ||| 0x09 <= n <= 0x0d
    ||| n == 0x20
    ||| n == 0x85
    ||| n == 0xa0
    ||| n == 0x1680
    ||| 0x2000 <= n <= 0x200a
    ||| n == 0x2028
    ||| n == 0x2029
    ||| n == 0x202f
    ||| n == 0x205f
    ||| n == 0x3000
}

/// An opening or a closing parenthesis.
pub open spec fn is_paren(c: char) -> bool {
    c == '(' || c == ')'
}

/// A character that ends an atom.
pub open spec fn is_break(c: char) -> bool {
    is_space(c) || is_paren(c)
}

/// Whether `c` is whitespace, as Unicode's White_Space property has it.
pub fn is_whitespace(c: char) -> (r: bool)
    ensures
        r == is_space(c),
{
    let n: u32 = c as u32;
    (0x09 <= n && n <= 0x0d) || n == 0x20 || n == 0x85 || n == 0xa0 || n == 0x1680 || (0x2000 <= n
        && n <= 0x200a) || n == 0x2028 || n == 0x2029 || n == 0x202f || n == 0x205f || n == 0x3000
}

/// What one character becomes when parentheses are set apart: a parenthesis gets a
/// space on each side.
pub open spec fn piece(c: char) -> Seq<char> {
    if is_paren(c) {
        seq![' ', c, ' ']
    } else {
        seq![c]
    }
}

/// The text with a space put before and after every parenthesis.
pub open spec fn pad(text: Seq<char>) -> Seq<char>
    decreases text.len(),
{
    if text.len() == 0 {
        Seq::empty()
    } else {
        pad(text.drop_last()) + piece(text.last())
    }
}

/// The length of the longest prefix of `text` that holds no whitespace.
pub open spec fn word_len(text: Seq<char>) -> nat
    decreases text.len(),
{
    if text.len() == 0 || is_space(text[0]) {
        0
    } else {
        1 + word_len(text.drop_first())
    }
}

/// The maximal runs of characters other than whitespace, in order.
pub open spec fn split(text: Seq<char>) -> Seq<Seq<char>>
    decreases text.len(),
{
    if text.len() == 0 {
        Seq::empty()
    } else if is_space(text[0]) {
        split(text.drop_first())
    } else {
        proof {
            word_len_bounds(text);
        }
        seq![text.take(word_len(text) as int)] + split(text.skip(word_len(text) as int))
    }
}

/// The tokens of a text: set the parentheses apart, then split at whitespace.
pub open spec fn tokens_of(text: Seq<char>) -> Seq<Seq<char>> {
    split(pad(text))
}

/// The length of the longest prefix of `text` that holds no whitespace and no
/// parenthesis.
pub open spec fn atom_len(text: Seq<char>) -> nat
    decreases text.len(),
{
    if text.len() == 0 || is_break(text[0]) {
        0
    } else {
        1 + atom_len(text.drop_first())
    }
}

/// The tokens of a text, read off from the left: whitespace is passed over, a
/// parenthesis is a token, and any other character starts an atom that runs up to the
/// next whitespace or parenthesis.
pub open spec fn lex(text: Seq<char>) -> Seq<Seq<char>>
    decreases text.len(),
{
    if text.len() == 0 {
        Seq::empty()
    } else if is_space(text[0]) {
        lex(text.drop_first())
    } else if is_paren(text[0]) {
        seq![seq![text[0]]] + lex(text.drop_first())
    } else {
        proof {
            atom_len_bounds(text);
        }
        seq![text.take(atom_len(text) as int)] + lex(text.skip(atom_len(text) as int))
    }
}

/// The first word ends at the first whitespace, or at the end of the text.
pub proof fn word_len_bounds(text: Seq<char>)
    ensures
        word_len(text) <= text.len(),
        forall|i: int| 0 <= i < word_len(text) ==> !is_space(#[trigger] text[i]),
        word_len(text) < text.len() ==> is_space(text[word_len(text) as int]),
    decreases text.len(),
{
    if text.len() > 0 && !is_space(text[0]) {
        let rest = text.drop_first();
        word_len_bounds(rest);
        assert forall|i: int| 0 <= i < word_len(text) implies !is_space(#[trigger] text[i]) by {
            if i > 0 {
                assert(text[i] == rest[i - 1]);
            }
        }
        if word_len(text) < text.len() {
            assert(text[word_len(text) as int] == rest[word_len(rest) as int]);
        }
    }
}

/// The first atom ends at the first whitespace or parenthesis, or at the end of the
/// text.
pub proof fn atom_len_bounds(text: Seq<char>)
    ensures
        atom_len(text) <= text.len(),
        forall|i: int| 0 <= i < atom_len(text) ==> !is_break(#[trigger] text[i]),
        atom_len(text) < text.len() ==> is_break(text[atom_len(text) as int]),
    decreases text.len(),
{
    if text.len() > 0 && !is_break(text[0]) {
        let rest = text.drop_first();
        atom_len_bounds(rest);
        assert forall|i: int| 0 <= i < atom_len(text) implies !is_break(#[trigger] text[i]) by {
            if i > 0 {
                assert(text[i] == rest[i - 1]);
            }
        }
        if atom_len(text) < text.len() {
            assert(text[atom_len(text) as int] == rest[atom_len(rest) as int]);
        }
    }
}

/// A run of `n` characters free of whitespace, followed by whitespace or by the end,
/// is the first word.
proof fn word_len_is(text: Seq<char>, n: int)
    requires
        0 <= n <= text.len(),
        forall|i: int| 0 <= i < n ==> !is_space(#[trigger] text[i]),
        n < text.len() ==> is_space(text[n]),
    ensures
        word_len(text) == n,
    decreases n,
{
    if n > 0 {
        let rest = text.drop_first();
        assert(!is_space(text[0]));
        assert forall|i: int| 0 <= i < n - 1 implies !is_space(#[trigger] rest[i]) by {
            assert(rest[i] == text[i + 1]);
        }
        word_len_is(rest, n - 1);
    }
}

proof fn atom_len_is(text: Seq<char>, n: int)
    requires
        0 <= n <= text.len(),
        forall|i: int| 0 <= i < n ==> !is_break(#[trigger] text[i]),
        n < text.len() ==> is_break(text[n]),
    ensures
        atom_len(text) == n,
    decreases n,
{
    if n > 0 {
        let rest = text.drop_first();
        assert(!is_break(text[0]));
        assert forall|i: int| 0 <= i < n - 1 implies !is_break(#[trigger] rest[i]) by {
            assert(rest[i] == text[i + 1]);
        }
        atom_len_is(rest, n - 1);
    }
}

proof fn pad_concat(a: Seq<char>, b: Seq<char>)
    ensures
        pad(a + b) == pad(a) + pad(b),
    decreases b.len(),
{
    if b.len() == 0 {
        assert(a + b =~= a);
        assert(pad(a) + pad(b) =~= pad(a));
    } else {
        assert((a + b).drop_last() =~= a + b.drop_last());
        assert((a + b).last() == b.last());
        pad_concat(a, b.drop_last());
        assert(pad(a + b) =~= pad(a) + pad(b));
    }
}

proof fn pad_one(c: char)
    ensures
        pad(seq![c]) == piece(c),
{
    assert(seq![c].drop_last() =~= Seq::<char>::empty());
    assert(pad(Seq::<char>::empty()) =~= Seq::<char>::empty());
    assert(seq![c].last() == c);
    assert(pad(seq![c]) =~= piece(c));
}

proof fn pad_plain(a: Seq<char>)
    requires
        forall|i: int| 0 <= i < a.len() ==> !is_paren(#[trigger] a[i]),
    ensures
        pad(a) == a,
    decreases a.len(),
{
    if a.len() > 0 {
        pad_plain(a.drop_last());
        assert(pad(a) =~= a);
    }
}

/// The padded text is empty or begins with whitespace, where the text is empty or
/// begins with whitespace or a parenthesis.
proof fn pad_starts_with_space(r: Seq<char>)
    requires
        r.len() > 0 ==> is_break(r[0]),
    ensures
        pad(r).len() > 0 ==> is_space(pad(r)[0]),
        r.len() == 0 ==> pad(r).len() == 0,
{
    if r.len() > 0 {
        assert(r =~= seq![r[0]] + r.drop_first());
        pad_concat(seq![r[0]], r.drop_first());
        pad_one(r[0]);
    }
}

/// Setting the parentheses apart and splitting at whitespace gives the same tokens as
/// reading them off from the left.
pub proof fn tokens_are_lexed(text: Seq<char>)
    ensures
        tokens_of(text) == lex(text),
    decreases text.len(),
{
    if text.len() == 0 {
    } else {
        let c = text[0];
        let rest = text.drop_first();
        assert(text =~= seq![c] + rest);
        if is_space(c) {
            pad_concat(seq![c], rest);
            pad_one(c);
            assert(pad(text) =~= seq![c] + pad(rest));
            assert(pad(text).drop_first() =~= pad(rest));
            tokens_are_lexed(rest);
        } else if is_paren(c) {
            pad_concat(seq![c], rest);
            pad_one(c);
            let padded = pad(text);
            assert(padded =~= seq![' ', c, ' '] + pad(rest));
            let space_passed = padded.drop_first();
            assert(space_passed =~= seq![c, ' '] + pad(rest));
            assert(is_space(padded[0]));
            assert(split(padded) == split(space_passed));
            word_len_is(space_passed, 1);
            assert(space_passed.take(1) =~= seq![c]);
            let word_passed = space_passed.skip(1);
            assert(word_passed =~= seq![' '] + pad(rest));
            assert(is_space(word_passed[0]));
            assert(word_passed.drop_first() =~= pad(rest));
            assert(split(word_passed) == split(pad(rest)));
            tokens_are_lexed(rest);
        } else {
            atom_len_bounds(text);
            let n = atom_len(text) as int;
            let atom = text.take(n);
            let r = text.skip(n);
            assert(text =~= atom + r);
            pad_concat(atom, r);
            assert forall|i: int| 0 <= i < atom.len() implies !is_paren(#[trigger] atom[i]) by {
                assert(atom[i] == text[i]);
                assert(!is_break(text[i]));
            }
            pad_plain(atom);
            pad_starts_with_space(r);
            let padded = pad(text);
            assert(padded =~= atom + pad(r));
            assert forall|i: int| 0 <= i < n implies !is_space(#[trigger] padded[i]) by {
                assert(padded[i] == text[i]);
                assert(!is_break(text[i]));
            }
            if n < padded.len() {
                assert(padded[n] == pad(r)[0]);
            }
            word_len_is(padded, n);
            assert(padded.take(n) =~= atom);
            assert(padded.skip(n) =~= pad(r));
            tokens_are_lexed(r);
        }
    }
}

/// Whitespace is passed over.
pub proof fn lex_step_space(text: Seq<char>, i: int)
    requires
        0 <= i < text.len(),
        is_space(text[i]),
    ensures
        lex(text.skip(i)) == lex(text.skip(i + 1)),
{
    assert(text.skip(i).drop_first() =~= text.skip(i + 1));
}

/// A parenthesis is a token of its own.
pub proof fn lex_step_paren(text: Seq<char>, i: int)
    requires
        0 <= i < text.len(),
        is_paren(text[i]),
    ensures
        lex(text.skip(i)) == seq![seq![text[i]]] + lex(text.skip(i + 1)),
{
    assert(text.skip(i).drop_first() =~= text.skip(i + 1));
    assert(!is_space('(') && !is_space(')'));
}

/// A run of characters that are neither whitespace nor parentheses, up to the first
/// that is one or to the end of the text, is one token.
pub proof fn lex_step_atom(text: Seq<char>, start: int, i: int)
    requires
        0 <= start < i <= text.len(),
        forall|j: int| start <= j < i ==> !is_break(#[trigger] text[j]),
        i < text.len() ==> is_break(text[i]),
    ensures
        lex(text.skip(start)) == seq![text.subrange(start, i)] + lex(text.skip(i)),
{
    let tail = text.skip(start);
    assert forall|j: int| 0 <= j < i - start implies !is_break(#[trigger] tail[j]) by {
        assert(tail[j] == text[start + j]);
    }
    if i < text.len() {
        assert(tail[i - start] == text[i]);
    }
    atom_len_is(tail, i - start);
    assert(!is_break(tail[0]));
    assert(tail.take(i - start) =~= text.subrange(start, i));
    assert(tail.skip(i - start) =~= text.skip(i));
}

/// The token that opens a list.
pub open spec fn opening() -> Seq<char> {
    seq!['(']
}

/// The token that closes a list.
pub open spec fn closing() -> Seq<char> {
    seq![')']
}

/// A token that is no parenthesis: it has a character, and none that is whitespace or
/// a parenthesis.
pub open spec fn is_atom_text(token: Seq<char>) -> bool {
    token.len() > 0 && forall|j: int| 0 <= j < token.len() ==> !is_break(#[trigger] token[j])
}

/// What a token can be: `(`, `)` or the text of an atom.
pub open spec fn is_token_text(token: Seq<char>) -> bool {
    token == opening() || token == closing() || is_atom_text(token)
}

/// Every token is `(`, `)` or the text of an atom.
pub proof fn tokens_are_parens_or_atoms(text: Seq<char>)
    ensures
        forall|i: int| 0 <= i < tokens_of(text).len() ==> is_token_text(#[trigger] tokens_of(text)[i]),
{
    tokens_are_lexed(text);
    lexed_parens_or_atoms(text);
}

proof fn lexed_parens_or_atoms(text: Seq<char>)
    ensures
        forall|i: int| 0 <= i < lex(text).len() ==> is_token_text(#[trigger] lex(text)[i]),
    decreases text.len(),
{
    if text.len() > 0 {
        if is_space(text[0]) {
            lexed_parens_or_atoms(text.drop_first());
            assert(lex(text) == lex(text.drop_first()));
        } else if is_paren(text[0]) {
            let rest = lex(text.drop_first());
            lexed_parens_or_atoms(text.drop_first());
            assert forall|i: int| 0 <= i < lex(text).len() implies is_token_text(
                #[trigger] lex(text)[i],
            ) by {
                if i == 0 {
                    assert(seq![text[0]] =~= opening() || seq![text[0]] =~= closing());
                } else {
                    assert(lex(text)[i] == rest[i - 1]);
                }
            }
        } else {
            atom_len_bounds(text);
            let n = atom_len(text) as int;
            let rest = lex(text.skip(n));
            lexed_parens_or_atoms(text.skip(n));
            assert forall|i: int| 0 <= i < lex(text).len() implies is_token_text(
                #[trigger] lex(text)[i],
            ) by {
                if i == 0 {
                    let token = text.take(n);
                    assert forall|j: int| 0 <= j < token.len() implies !is_break(#[trigger] token[j]) by {
                        assert(token[j] == text[j]);
                    }
                    assert(n > 0);
                    assert(is_atom_text(token));
                } else {
                    assert(lex(text)[i] == rest[i - 1]);
                }
            }
        }
    }
}

/// The token texts written one after the other, a space behind each.
pub open spec fn spaced(tokens: Seq<Seq<char>>) -> Seq<char>
    decreases tokens.len(),
{
    if tokens.len() == 0 {
        Seq::empty()
    } else {
        tokens[0] + seq![' '] + spaced(tokens.drop_first())
    }
}

/// Tokens that are written with a space behind each are the tokens of that text.
pub proof fn spaced_tokens_are_the_tokens(tokens: Seq<Seq<char>>)
    requires
        forall|i: int| 0 <= i < tokens.len() ==> is_token_text(#[trigger] tokens[i]),
    ensures
        tokens_of(spaced(tokens)) == tokens,
    decreases tokens.len(),
{
    tokens_are_lexed(spaced(tokens));
    if tokens.len() == 0 {
        assert(lex(spaced(tokens)) =~= tokens);
    } else {
        let first = tokens[0];
        let others = tokens.drop_first();
        let text = spaced(tokens);
        let n = first.len() as int;
        assert(is_token_text(first));
        assert forall|i: int| 0 <= i < others.len() implies is_token_text(#[trigger] others[i]) by {
            assert(others[i] == tokens[i + 1]);
        }
        spaced_tokens_are_the_tokens(others);
        tokens_are_lexed(spaced(others));
        assert(text =~= first + (seq![' '] + spaced(others)));
        assert(text[n] == ' ');
        assert(is_space(' '));
        assert(!is_space('(') && !is_space(')'));
        assert(text.skip(n + 1) =~= spaced(others));
        lex_step_space(text, n);
        if is_atom_text(first) {
            assert forall|j: int| 0 <= j < n implies !is_break(#[trigger] text[j]) by {
                assert(text[j] == first[j]);
            }
            assert(text.skip(0) =~= text);
            lex_step_atom(text, 0, n);
            assert(text.subrange(0, n) =~= first);
        } else {
            assert(n == 1);
            assert(text[0] == first[0]);
            assert(text.skip(0) =~= text);
            lex_step_paren(text, 0);
            assert(seq![text[0]] =~= first);
        }
        assert(lex(text) =~= seq![first] + lex(spaced(others)));
        assert(seq![first] + others =~= tokens);
    }
}

} // verus!
