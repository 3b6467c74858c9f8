use lisp_front::eval::{add, eval_file, EvalContext, EvalError, RootContext, Builtin};
use lisp_front::nodes::{IntoListIter, Node, NodePtr};
use lisp_front::parser::{parse_expr, parse_file, ParseError};
use lisp_front::pos::TokenPos;
use lisp_front::tokenizer::{is_reserved_char, skip_spaces, tokenize, TokenizeError, Tokenizer};
use lisp_front::tokens::{Token, TokenKind};
use std::rc::Rc;

fn at(line: usize, column: usize) -> TokenPos {
    TokenPos { line, column }
}

fn parse_text(text: &str) -> Result<NodePtr, ParseError> {
    let tokens = tokenize(text).expect("text should tokenize");
    parse_file(&tokens)
}

fn first_form(text: &str) -> NodePtr {
    let file = parse_text(text).expect("text should parse");
    match &*file {
        Node::List(head, _, _) => head.clone(),
        _ => panic!("empty file"),
    }
}

fn cells_flags(node: &NodePtr) -> Vec<bool> {
    let mut flags = Vec::new();
    let mut cur = node.clone();
    loop {
        let next = match &*cur {
            Node::List(_, tail, literal) => {
                flags.push(*literal);
                tail.clone()
            }
            _ => break,
        };
        cur = next;
    }
    flags
}

fn integer(n: i64) -> NodePtr {
    Rc::new(Node::Integer(n))
}

fn list_of(items: Vec<NodePtr>) -> NodePtr {
    let mut acc = Rc::new(Node::Nil);
    for item in items.into_iter().rev() {
        acc = Rc::new(Node::List(item, acc, false));
    }
    acc
}

#[test]
fn tokenize_call_positions() {
    let tokens = tokenize("(add 1 2)").unwrap();
    let expected = vec![
        Token(TokenKind::LParen, at(1, 1)),
        Token(TokenKind::Symbol("add".to_string()), at(1, 2)),
        Token(TokenKind::Integer(1), at(1, 6)),
        Token(TokenKind::Integer(2), at(1, 8)),
        Token(TokenKind::RParen, at(1, 9)),
    ];
    assert_eq!(tokens, expected);
}

#[test]
fn tokenize_tracks_lines() {
    let tokens = tokenize("a\n  :b").unwrap();
    assert_eq!(tokens[0], Token(TokenKind::Symbol("a".to_string()), at(1, 1)));
    assert_eq!(tokens[1], Token(TokenKind::Ident(":b".to_string()), at(2, 3)));
}

#[test]
fn tokenize_every_kind() {
    let tokens = tokenize("[ ] { } # , ' \"hi there\" \\x 42 sym :id").unwrap();
    let kinds: Vec<TokenKind> = tokens.into_iter().map(|t| t.0).collect();
    assert_eq!(
        kinds,
        vec![
            TokenKind::LBrack,
            TokenKind::RBrack,
            TokenKind::LCurl,
            TokenKind::RCurl,
            TokenKind::Hash,
            TokenKind::Comma,
            TokenKind::SingleQuote,
            TokenKind::String("hi there".to_string()),
            TokenKind::Char('x'),
            TokenKind::Integer(42),
            TokenKind::Symbol("sym".to_string()),
            TokenKind::Ident(":id".to_string()),
        ]
    );
}

#[test]
fn tokenize_symbol_stops_at_delimiters() {
    let tokens = tokenize("ab(cd\"e\"").unwrap();
    let kinds: Vec<TokenKind> = tokens.into_iter().map(|t| t.0).collect();
    assert_eq!(
        kinds,
        vec![
            TokenKind::Symbol("ab".to_string()),
            TokenKind::LParen,
            TokenKind::Symbol("cd".to_string()),
            TokenKind::String("e".to_string()),
        ]
    );
}

#[test]
fn tokenize_empty_and_blank() {
    assert_eq!(tokenize("").unwrap(), vec![]);
    assert_eq!(tokenize(" \t\r\n ").unwrap(), vec![]);
}

#[test]
fn tokenize_largest_integer() {
    let tokens = tokenize("9223372036854775807").unwrap();
    assert_eq!(tokens, vec![Token(TokenKind::Integer(i64::MAX), at(1, 1))]);
}

#[test]
fn tokenize_integer_too_large() {
    let err = tokenize("(x 9223372036854775808)").unwrap_err();
    assert_eq!(err.message(), "Integer literal out of range");
    assert_eq!(err.pos(), at(1, 4));
}

#[test]
fn tokenize_string_with_newline_fails() {
    let err: TokenizeError = tokenize("\"ab\ncd\"").unwrap_err();
    assert_eq!(err.message(), "Unexpected end of line while parsing a string");
    assert_eq!(err.pos(), at(1, 1));
    assert_eq!(err.describe(), "Tokenize Error (1:1) Unexpected end of line while parsing a string");
}

#[test]
fn tokenize_unterminated_string_fails() {
    let err = tokenize("  \"abc").unwrap_err();
    assert_eq!(err.message(), "Unexpected End of File while parsing String");
    assert_eq!(err.pos(), at(1, 3));
}

#[test]
fn tokenize_backslash_at_end_fails() {
    let err = tokenize("a \\").unwrap_err();
    assert_eq!(err.message(), "Unexpected End of File while parsing Char");
    assert_eq!(err.pos(), at(1, 3));
}

#[test]
fn tokenize_unexpected_character_fails() {
    let err = tokenize("(a\n  %)").unwrap_err();
    assert_eq!(err.message(), "Unexpected Character: %");
    assert_eq!(err.pos(), at(2, 3));
}

#[test]
fn tokenizer_cursor_moves() {
    let mut t = Tokenizer::new(vec![' ', '\n', 'x']);
    assert_eq!(t.peek(), Some(' '));
    skip_spaces(&mut t);
    assert_eq!(t.peek(), Some('x'));
    assert_eq!(t.pos(), at(2, 1));
    assert_eq!(t.next(), Some('x'));
    assert_eq!(t.pos(), at(2, 2));
    assert_eq!(t.next(), None);
}

#[test]
fn reserved_characters() {
    for c in ['[', ']', '(', ')', '{', '}', '\'', '"'] {
        assert!(is_reserved_char(c));
    }
    assert!(!is_reserved_char('a'));
    assert!(!is_reserved_char('#'));
}

#[test]
fn list_length_counts_elements() {
    let node = first_form("(a b c)");
    assert_eq!(node.len(), Some(3));
    let node = first_form("(a (b c) [d e] 4 \"s\")");
    assert_eq!(node.len(), Some(5));
    let vector = first_form("[1 2 3 4]");
    assert_eq!(vector.len(), Some(4));
    assert_eq!(first_form("sym").len(), None);
}

#[test]
fn empty_list_is_nil() {
    let node = first_form("()");
    assert!(matches!(&*node, Node::Nil));
    assert!(!node.is_list());
}

#[test]
fn quoted_list_is_literal_on_every_cell() {
    let node = first_form("'(1 2)");
    assert_eq!(cells_flags(&node), vec![true, true]);
    let node = first_form("(1 2)");
    assert_eq!(cells_flags(&node), vec![false, false]);
}

#[test]
fn nested_list_inside_quote_is_not_marked() {
    let node = first_form("'(1 (2 3))");
    assert_eq!(cells_flags(&node), vec![true, true]);
    let inner = match &*node {
        Node::List(_, tail, _) => match &**tail {
            Node::List(head, _, _) => head.clone(),
            _ => panic!("short list"),
        },
        _ => panic!("not a list"),
    };
    assert_eq!(cells_flags(&inner), vec![false, false]);
}

#[test]
fn file_is_unquoted_list_of_forms() {
    let file = parse_text("1 'x' (a) [b]").unwrap_err();
    assert_eq!(file.message(), "Expected a list but got 'x'");
    let file = parse_text("1 (a) [b]").unwrap();
    assert_eq!(file.len(), Some(3));
    assert_eq!(cells_flags(&file), vec![false, false, false]);
    let empty = parse_text("").unwrap();
    assert!(matches!(&*empty, Node::Nil));
}

#[test]
fn unclosed_list_points_at_open_paren() {
    let err = parse_text("(1 2").unwrap_err();
    assert_eq!(err.pos(), Some(at(1, 1)));
    assert_eq!(err.message(), "Unexpected End of Token List while parsing List");
    assert_eq!(err.describe(), "Parse Error (1:1) Unexpected End of Token List while parsing List");
}

#[test]
fn unclosed_vector_points_at_open_bracket() {
    let err = parse_text("(a)\n  [1 (2)").unwrap_err();
    assert_eq!(err.pos(), Some(at(2, 3)));
    assert_eq!(err.message(), "Unexpected End of Token List while parsing Vector");
}

#[test]
fn unexpected_closing_token() {
    let err = parse_text("a )").unwrap_err();
    assert_eq!(err.pos(), Some(at(1, 3)));
    assert_eq!(err.message(), "Unexpected token ')'");
}

#[test]
fn quote_without_list() {
    let err = parse_text("'").unwrap_err();
    assert_eq!(err.pos(), None);
    assert_eq!(err.message(), "Expected a list but got nothing.");
    assert_eq!(err.describe(), "Expected a list but got nothing.");
    let err = parse_text("'[1]").unwrap_err();
    assert_eq!(err.pos(), Some(at(1, 2)));
    assert_eq!(err.message(), "Expected a list but got '['");
}

#[test]
fn reserved_set_and_map_syntax() {
    let err = parse_text("#(1)").unwrap_err();
    assert_eq!(err.message(), "Set literals are not supported");
    assert_eq!(err.pos(), Some(at(1, 1)));
    let err = parse_text("{1 2}").unwrap_err();
    assert_eq!(err.message(), "Map literals are not supported");
}

#[test]
fn parse_expr_past_end() {
    let tokens = tokenize("a").unwrap();
    let err = parse_expr(&tokens, 1).unwrap_err();
    assert_eq!(err.pos(), None);
    assert_eq!(err.message(), "Unexpected End of Token List");
    let (node, next) = parse_expr(&tokens, 0).unwrap();
    assert_eq!(next, 1);
    assert_eq!(node.to_text(), "a");
}

#[test]
fn printing_round_trip() {
    for text in [
        "(add 1 2)",
        "[1 [2 3] (a :b)]",
        "sym",
        ":ident",
        "\"a string\"",
        "\\c",
        "1234",
        "(f (g \"x\" \\y) [] :k)",
    ] {
        assert_eq!(first_form(text).to_text(), text);
    }
}

#[test]
fn printing_drops_quote() {
    assert_eq!(first_form("'(1 2)").to_text(), "(1 2)");
    assert_eq!(Node::Nil.to_text(), "Nil");
    assert_eq!(Node::Integer(-15).to_text(), "-15");
    assert_eq!(Node::Integer(i64::MIN).to_text(), "-9223372036854775808");
}

#[test]
fn node_equality_is_narrow() {
    assert!(Node::Nil == Node::Nil);
    assert!(Node::Integer(3) == Node::Integer(3));
    assert!(Node::Integer(3) != Node::Integer(4));
    assert!(Node::Symbol("a".to_string()) == Node::Symbol("a".to_string()));
    assert!(Node::Ident(":a".to_string()) == Node::Ident(":a".to_string()));
    assert!(Node::Symbol("a".to_string()) != Node::Ident("a".to_string()));
    assert!(Node::String("s".to_string()) != Node::String("s".to_string()));
    assert!(Node::Char('c') != Node::Char('c'));
}

#[test]
fn list_iteration_walks_elements() {
    let list = first_form("(1 2 3)");
    let mut iter = list.list_iter();
    let mut seen = Vec::new();
    while let Some(node) = iter.next() {
        seen.push(node.to_text());
    }
    assert_eq!(seen, vec!["1", "2", "3"]);
    assert!(iter.next().is_none());
}

#[test]
fn token_kind_names() {
    assert_eq!(TokenKind::LParen.describe(), "'('");
    assert_eq!(TokenKind::Symbol("ab".to_string()).describe(), "'ab'");
    assert_eq!(TokenKind::Integer(-7).describe(), "'-7'");
    assert_eq!(TokenKind::Char('q').describe(), "'q'");
}

#[test]
fn add_of_two_integers() {
    let result = add(&list_of(vec![integer(1), integer(2)])).unwrap();
    assert!(matches!(&*result, Node::Integer(3)));
}

#[test]
fn add_rejects_non_integers() {
    let args = list_of(vec![integer(1), Rc::new(Node::Symbol("x".to_string()))]);
    let err: EvalError = add(&args).unwrap_err();
    assert_eq!(err.message(), "add: invalid argument types");
    assert_eq!(err.describe(), "Eval Error: add: invalid argument types");
}

#[test]
fn add_names_wrong_argument_count() {
    let err = add(&list_of(vec![integer(1), integer(2), integer(3)])).unwrap_err();
    assert_eq!(err.message(), "Expected 2 arguments but got 3");
    let err = add(&list_of(vec![integer(1)])).unwrap_err();
    assert_eq!(err.message(), "Expected 2 arguments but got 1");
    let err = add(&Rc::new(Node::Nil)).unwrap_err();
    assert_eq!(err.message(), "Expected 2 arguments but got 0");
}

#[test]
fn add_reports_overflow() {
    let err = add(&list_of(vec![integer(i64::MAX), integer(1)])).unwrap_err();
    assert_eq!(err.message(), "add: integer overflow");
}

#[test]
fn eval_file_returns_last_value() {
    let mut context = EvalContext::new_main();
    let file = parse_text("(add 1 2) (add 10 (add 1 1))").unwrap();
    let err = eval_file(&mut context, &file).unwrap_err();
    assert_eq!(err.message(), "add: invalid argument types");
    let file = parse_text("(add 1 2) (add 10 20)").unwrap();
    let result = eval_file(&mut context, &file).unwrap();
    assert!(matches!(&*result, Node::Integer(30)));
    let empty = parse_text("").unwrap();
    let result = eval_file(&mut context, &empty).unwrap();
    assert!(matches!(&*result, Node::Nil));
}

#[test]
fn eval_file_quoted_list_is_data() {
    let mut context = EvalContext::new_main();
    let file = parse_text("'(add 1 2)").unwrap();
    let result = eval_file(&mut context, &file).unwrap();
    assert_eq!(result.to_text(), "(add 1 2)");
}

#[test]
fn eval_file_errors() {
    let mut context = EvalContext::new_main();
    let file = parse_text("(sub 1 2)").unwrap();
    let err = eval_file(&mut context, &file).unwrap_err();
    assert_eq!(err.message(), "Function 'sub' not found");
    let file = parse_text("(1 2)").unwrap();
    let err = eval_file(&mut context, &file).unwrap_err();
    assert_eq!(err.message(), "Node is not a function");
    let file = parse_text("(add 1 :a)").unwrap();
    let err = eval_file(&mut context, &file).unwrap_err();
    assert_eq!(err.message(), "add: invalid argument types");
}

#[test]
fn registry_lookup_and_insert() {
    let mut root = RootContext::new();
    assert_eq!(root.get_builtin("add"), Some(Builtin::Add));
    assert_eq!(root.get_builtin("plus"), None);
    root.insert_builtin("plus".to_string(), Builtin::Add);
    assert_eq!(root.get_builtin("plus"), Some(Builtin::Add));
}

#[test]
fn variables_in_scopes() {
    let mut main = EvalContext::new_main();
    assert!(main.get_var("x").is_none());
    main.set_var("x", integer(1));
    main.set_var("x", integer(2));
    assert!(matches!(&**main.get_var("x").unwrap(), Node::Integer(2)));
    assert!(main.parent().is_none());
    let parent = Rc::new(main);
    let child = EvalContext::new_child(&parent);
    assert!(child.parent().is_some());
    assert!(child.get_var("x").is_none());
    assert_eq!(child.root().get_builtin("add"), Some(Builtin::Add));
}

#[test]
fn error_constructors_keep_their_parts() {
    let e = TokenizeError::new("bad", at(3, 4));
    assert_eq!(e.message(), "bad");
    assert_eq!(e.pos(), at(3, 4));
    assert_eq!(e.describe(), "Tokenize Error (3:4) bad");
    let p = ParseError::new("worse", Some(at(10, 12)));
    assert_eq!(p.message(), "worse");
    assert_eq!(p.pos(), Some(at(10, 12)));
    assert_eq!(p.describe(), "Parse Error (10:12) worse");
    let v = EvalError::new("worst");
    assert_eq!(v.message(), "worst");
    assert_eq!(v.describe(), "Eval Error: worst");
}

#[test]
fn is_list_only_for_cells() {
    assert!(first_form("(a)").is_list());
    assert!(!first_form("[a]").is_list());
    assert!(!Node::Nil.is_list());
}

#[test]
fn char_token_stands_at_backslash() {
    let tokens = tokenize("(\\a)").unwrap();
    assert_eq!(tokens[1], Token(TokenKind::Char('a'), at(1, 2)));
    assert_eq!(tokens[2], Token(TokenKind::RParen, at(1, 4)));
}

#[test]
fn empty_list_prints_as_nil() {
    assert_eq!(first_form("(a ())").to_text(), "(a Nil)");
}

#[test]
fn quote_token_name() {
    assert_eq!(TokenKind::SingleQuote.describe(), "'\"'");
    let err = parse_text("''(1)").unwrap_err();
    assert_eq!(err.message(), "Expected a list but got '\"'");
    assert_eq!(err.pos(), Some(at(1, 2)));
}
