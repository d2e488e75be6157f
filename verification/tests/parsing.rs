use lispy::error::EvalError;
use lispy::parse::{atom, parse, read_from_tokens, tokenize, AstNode};
use lispy::token::is_whitespace;

fn decimal(token: &str) -> Option<u64> {
    token.parse::<f64>().ok().map(f64::to_bits)
}

fn number(x: f64) -> AstNode {
    AstNode::Number(x.to_bits())
}

fn symbol(name: &str) -> AstNode {
    AstNode::Symbol(name.to_string())
}

fn strings(tokens: &[&str]) -> Vec<String> {
    tokens.iter().map(|t| t.to_string()).collect()
}

#[test]
fn tokenizes_a_simple_list() {
    assert_eq!(tokenize("(+ 1 2)"), strings(&["(", "+", "1", "2", ")"]));
}

#[test]
fn parses_a_simple_list() {
    assert_eq!(
        parse("(+ 1 2)", &decimal),
        Ok(AstNode::List(vec![symbol("+"), number(1.0), number(2.0)]))
    );
}

#[test]
fn tokenizes_without_spaces_around_parentheses() {
    assert_eq!(
        tokenize("(define r(* 2 pi))"),
        strings(&["(", "define", "r", "(", "*", "2", "pi", ")", ")"])
    );
}

#[test]
fn tokenizes_nothing_from_blank_text() {
    assert_eq!(tokenize(""), Vec::<String>::new());
    assert_eq!(tokenize("  \t\n "), Vec::<String>::new());
}

#[test]
fn tokenizes_adjacent_parentheses() {
    assert_eq!(tokenize("(()"), strings(&["(", "(", ")"]));
    assert_eq!(tokenize(")("), strings(&[")", "("]));
}

#[test]
fn splits_at_every_kind_of_whitespace() {
    assert_eq!(
        tokenize("a\tb\nc\r\nd\u{a0}e\u{2003}f\u{3000}g\u{85}h"),
        strings(&["a", "b", "c", "d", "e", "f", "g", "h"])
    );
}

#[test]
fn keeps_other_characters_inside_atoms() {
    assert_eq!(tokenize("set! <= café x-1"), strings(&["set!", "<=", "café", "x-1"]));
    assert_eq!(tokenize("a\u{200b}b"), strings(&["a\u{200b}b"]));
}

#[test]
fn tokenizes_as_padding_and_splitting_does() {
    let texts = [
        "(+ 1 2)",
        "((a)b(c  d))e",
        " ( ) ",
        "x",
        ")))(((",
        "(if (> 3 2)\n\t1\n\t0)",
        "\u{2028}(q\u{1680}r)\u{205f}",
    ];
    for text in texts {
        let padded = text.replace("(", " ( ").replace(")", " ) ");
        let expected: Vec<String> = padded.split_whitespace().map(|x| x.to_string()).collect();
        assert_eq!(tokenize(text), expected);
    }
}

#[test]
fn whitespace_is_what_the_standard_library_says() {
    let mut code: u32 = 0;
    while code <= 0x10ffff {
        if let Some(c) = char::from_u32(code) {
            assert_eq!(is_whitespace(c), c.is_whitespace(), "U+{:04X}", code);
        }
        code += 1;
    }
}

#[test]
fn parses_nested_lists() {
    assert_eq!(
        parse("(+ 2 (* 3 2))", &decimal),
        Ok(AstNode::List(vec![
            symbol("+"),
            number(2.0),
            AstNode::List(vec![symbol("*"), number(3.0), number(2.0)]),
        ]))
    );
}

#[test]
fn parses_the_empty_list() {
    assert_eq!(parse("()", &decimal), Ok(AstNode::List(vec![])));
}

#[test]
fn parses_atoms() {
    assert_eq!(parse("42", &decimal), Ok(number(42.0)));
    assert_eq!(parse("-2.5", &decimal), Ok(number(-2.5)));
    assert_eq!(parse("1e3", &decimal), Ok(number(1000.0)));
    assert_eq!(parse(".5", &decimal), Ok(number(0.5)));
    assert_eq!(parse("pi", &decimal), Ok(symbol("pi")));
    assert_eq!(parse("+", &decimal), Ok(symbol("+")));
    assert_eq!(parse("1+", &decimal), Ok(symbol("1+")));
    assert_eq!(parse("set!", &decimal), Ok(symbol("set!")));
}

#[test]
fn classifies_atoms_as_the_reader_says() {
    let only_seven = |token: &str| if token == "seven" { Some(7u64) } else { None };
    assert_eq!(
        parse("(seven 7)", &only_seven),
        Ok(AstNode::List(vec![AstNode::Number(7), symbol("7")]))
    );
}

#[test]
fn unterminated_list_is_unexpected_end_of_input() {
    assert_eq!(parse("(+ 1 2", &decimal), Err(EvalError::UnexpectedEndOfInput));
    assert_eq!(parse("(", &decimal), Err(EvalError::UnexpectedEndOfInput));
    assert_eq!(parse("(a (b c)", &decimal), Err(EvalError::UnexpectedEndOfInput));
}

#[test]
fn trailing_parenthesis_is_unexpected_token() {
    assert_eq!(parse("1 2)", &decimal), Err(EvalError::UnexpectedToken));
    assert_eq!(parse("1 )", &decimal), Err(EvalError::UnexpectedToken));
    assert_eq!(parse("(+ 1 2))", &decimal), Err(EvalError::UnexpectedToken));
}

#[test]
fn leading_closing_parenthesis_is_unexpected_token() {
    assert_eq!(parse(")", &decimal), Err(EvalError::UnexpectedToken));
    assert_eq!(parse(") 1", &decimal), Err(EvalError::UnexpectedToken));
}

#[test]
fn parse_gives_the_first_of_several_forms() {
    assert_eq!(parse("1 2", &decimal), Ok(number(1.0)));
    assert_eq!(parse("(a) (b)", &decimal), Ok(AstNode::List(vec![symbol("a")])));
    assert_eq!(parse("x () (y (z))", &decimal), Ok(symbol("x")));
}

#[test]
fn parentheses_have_to_match_behind_the_first_form_too() {
    assert_eq!(parse("1 (2", &decimal), Err(EvalError::UnexpectedEndOfInput));
    assert_eq!(parse("(a) (b (c)", &decimal), Err(EvalError::UnexpectedEndOfInput));
    assert_eq!(parse("(a) (b)) (", &decimal), Err(EvalError::UnexpectedToken));
    assert_eq!(parse("(a) ((b) c", &decimal), Err(EvalError::UnexpectedEndOfInput));
}

#[test]
fn reader_does_not_decide_whether_a_text_parses() {
    let nothing = |_token: &str| None;
    let everything = |_token: &str| Some(0u64);
    let texts = ["", "(", ")", "1 2)", "(a (b) c)", "(a))", "a (b", "((", "x y z", "(+ 1 2"];
    for text in texts {
        let usual = parse(text, &decimal);
        assert_eq!(parse(text, &nothing).err(), usual.as_ref().err().copied(), "{}", text);
        assert_eq!(parse(text, &everything).err(), usual.as_ref().err().copied(), "{}", text);
    }
}

#[test]
fn empty_input_is_unexpected_end_of_input() {
    assert_eq!(parse("", &decimal), Err(EvalError::UnexpectedEndOfInput));
    assert_eq!(parse("   ", &decimal), Err(EvalError::UnexpectedEndOfInput));
}

#[test]
fn reading_takes_the_first_form_and_leaves_the_rest() {
    let mut tokens = tokenize("(a b) c (d)");
    assert_eq!(
        read_from_tokens(&mut tokens, &decimal),
        Ok(AstNode::List(vec![symbol("a"), symbol("b")]))
    );
    assert_eq!(tokens, strings(&["c", "(", "d", ")"]));
    assert_eq!(read_from_tokens(&mut tokens, &decimal), Ok(symbol("c")));
    assert_eq!(tokens, strings(&["(", "d", ")"]));
    assert_eq!(
        read_from_tokens(&mut tokens, &decimal),
        Ok(AstNode::List(vec![symbol("d")]))
    );
    assert!(tokens.is_empty());
    assert_eq!(
        read_from_tokens(&mut tokens, &decimal),
        Err(EvalError::UnexpectedEndOfInput)
    );
}

#[test]
fn reading_a_closing_parenthesis_takes_it() {
    let mut tokens = strings(&[")", "x"]);
    assert_eq!(read_from_tokens(&mut tokens, &decimal), Err(EvalError::UnexpectedToken));
    assert_eq!(tokens, strings(&["x"]));
}

#[test]
fn reading_an_unterminated_list_takes_every_token() {
    let mut tokens = strings(&["(", "a", "(", "b", ")"]);
    assert_eq!(
        read_from_tokens(&mut tokens, &decimal),
        Err(EvalError::UnexpectedEndOfInput)
    );
    assert!(tokens.is_empty());
}

#[test]
fn atom_is_a_number_where_one_was_read() {
    assert_eq!(atom("12".to_string(), Some(12.0f64.to_bits())), number(12.0));
    assert_eq!(atom("twelve".to_string(), None), symbol("twelve"));
    assert_eq!(atom("x".to_string(), Some(3)), AstNode::Number(3));
}

#[test]
fn new_node_is_the_empty_list() {
    assert_eq!(AstNode::new(), AstNode::List(vec![]));
}

#[test]
fn clone_copies_atoms_and_drops_elements() {
    assert_eq!(symbol("abc").clone(), symbol("abc"));
    assert_eq!(number(1.5).clone(), number(1.5));
    assert_eq!(AstNode::List(vec![symbol("a"), number(1.0)]).clone(), AstNode::List(vec![]));
}

#[test]
fn written_forms_read_back() {
    let texts = ["(a (b 1.5) () ((c)))", "x", "(+ 1 2)", "(if (> 3 2) 1 0)"];
    for text in texts {
        let form = parse(text, &decimal).unwrap();
        let mut tokens = tokenize(text);
        tokens.push("extra".to_string());
        assert_eq!(read_from_tokens(&mut tokens, &decimal), Ok(form));
        assert_eq!(tokens, strings(&["extra"]));
    }
}

#[test]
fn every_proper_prefix_of_a_form_is_unfinished() {
    let whole = tokenize("(a (b 1.5) () ((c)))");
    for n in 0..whole.len() {
        let mut tokens: Vec<String> = whole[..n].to_vec();
        assert_eq!(
            read_from_tokens(&mut tokens, &decimal),
            Err(EvalError::UnexpectedEndOfInput)
        );
    }
}

#[test]
fn tokens_written_with_spaces_are_tokenized_back() {
    let lists = [
        vec!["(", "+", "1", "2", ")"],
        vec![")", ")", "(", "a"],
        vec!["x"],
        vec![],
        vec!["(", "(", "define", "r", "10", ")", "set!", "<=", ")"],
    ];
    for tokens in lists {
        let mut text = String::new();
        for token in &tokens {
            text.push_str(token);
            text.push(' ');
        }
        assert_eq!(tokenize(&text), strings(&tokens));
    }
}

#[test]
fn no_token_is_empty_or_holds_whitespace() {
    let texts = ["(a  (b\tc)\n)", "  x  ", "((()))", "a(b)c", "\u{3000}(\u{3000})\u{3000}"];
    for text in texts {
        for token in tokenize(text) {
            assert!(!token.is_empty());
            assert!(token == "(" || token == ")" || !token.chars().any(|c| c.is_whitespace() || c == '(' || c == ')'));
        }
    }
}

#[test]
fn reader_is_asked_once_for_each_atom_in_order() {
    let asked = std::cell::RefCell::new(Vec::new());
    let noting = |token: &str| {
        asked.borrow_mut().push(token.to_string());
        None
    };
    let mut tokens = tokenize("(a (b) c) d");
    assert!(read_from_tokens(&mut tokens, &noting).is_ok());
    assert_eq!(*asked.borrow(), strings(&["a", "b", "c"]));
}
