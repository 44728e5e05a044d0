use literal_parser::ast::{Node, ParserError};
use literal_parser::lexing::tokenize;
use literal_parser::numeric::{check_float_text, parse_integer};
use literal_parser::parser::{parse, parse_expression, parse_tokens};
use literal_parser::token::{Token, TokenKind};

fn int_node(value: isize, line: usize, column: usize) -> Node {
    Node::Integer { value, line, column }
}

fn str_node(value: &str, line: usize, column: usize) -> Node {
    Node::Str { value: value.to_string(), line, column }
}

fn doc(children: Vec<Node>) -> Result<Node, ParserError> {
    Ok(Node::Expressions { children })
}

#[test]
fn single_integer() {
    assert_eq!(parse("42"), doc(vec![int_node(42, 1, 1)]));
}

#[test]
fn single_negative_integer() {
    assert_eq!(parse("-7"), doc(vec![int_node(-7, 1, 1)]));
}

#[test]
fn single_float() {
    assert_eq!(
        parse("1.5"),
        doc(vec![Node::Float { text: "1.5".to_string(), line: 1, column: 1 }])
    );
}

#[test]
fn negative_float_text_preserved() {
    assert_eq!(
        parse("-2.25"),
        doc(vec![Node::Float { text: "-2.25".to_string(), line: 1, column: 1 }])
    );
}

#[test]
fn single_string() {
    assert_eq!(parse("\"hello\""), doc(vec![str_node("hello", 1, 1)]));
}

#[test]
fn empty_document_is_valid() {
    assert_eq!(parse(""), doc(vec![]));
}

#[test]
fn array_of_integers() {
    assert_eq!(
        parse("[1,2,3]"),
        doc(vec![Node::Array {
            values: vec![int_node(1, 1, 2), int_node(2, 1, 4), int_node(3, 1, 6)],
            line: 1,
            column: 1,
        }])
    );
}

#[test]
fn empty_array_fails() {
    assert_eq!(parse("[]"), Err(ParserError::InvalidToken));
}

#[test]
fn empty_hash_fails() {
    assert_eq!(parse("{}"), Err(ParserError::InvalidToken));
}

#[test]
fn hash_single_pair() {
    assert_eq!(
        parse("{\"a\":1}"),
        doc(vec![Node::Hash {
            pairs: vec![(str_node("a", 1, 2), int_node(1, 1, 6))],
            line: 1,
            column: 1,
        }])
    );
}

#[test]
fn unterminated_array_fails_with_end_of_input() {
    assert_eq!(parse("[1,2"), Err(ParserError::EndOfInput));
}

#[test]
fn missing_comma_fails_with_invalid_token() {
    assert_eq!(parse("[1 2]"), Err(ParserError::InvalidToken));
}

#[test]
fn integer_overflow_fails_with_invalid_token_value() {
    assert_eq!(parse("99999999999999999999"), Err(ParserError::InvalidTokenValue));
}

#[test]
fn array_position_is_the_open_bracket() {
    assert_eq!(
        parse("  [1]"),
        doc(vec![Node::Array { values: vec![int_node(1, 1, 4)], line: 1, column: 3 }])
    );
}

#[test]
fn parsing_twice_yields_identical_trees() {
    let first = parse("[1,{\"k\":2}]");
    let second = parse("[1,{\"k\":2}]");
    assert!(first.is_ok());
    assert_eq!(first, second);
}

#[test]
fn multiple_top_level_expressions() {
    assert_eq!(
        parse("1 2 3"),
        doc(vec![int_node(1, 1, 1), int_node(2, 1, 3), int_node(3, 1, 5)])
    );
}

#[test]
fn nested_structures() {
    assert_eq!(
        parse("[[1],2]"),
        doc(vec![Node::Array {
            values: vec![
                Node::Array { values: vec![int_node(1, 1, 3)], line: 1, column: 2 },
                int_node(2, 1, 6),
            ],
            line: 1,
            column: 1,
        }])
    );
}

#[test]
fn newline_advances_line_and_resets_column() {
    assert_eq!(
        parse("\n[1]"),
        doc(vec![Node::Array { values: vec![int_node(1, 2, 2)], line: 2, column: 1 }])
    );
}

#[test]
fn carriage_return_is_blank() {
    assert_eq!(parse("\r\n1"), doc(vec![int_node(1, 2, 1)]));
}

#[test]
fn string_escape_passes_character_through() {
    assert_eq!(parse("\"a\\\"b\""), doc(vec![str_node("a\"b", 1, 1)]));
}

#[test]
fn unterminated_string_fails() {
    assert_eq!(parse("\"ab"), Err(ParserError::InvalidToken));
}

#[test]
fn string_with_raw_newline_fails() {
    assert_eq!(parse("\"a\nb\""), Err(ParserError::InvalidToken));
}

#[test]
fn stray_character_fails() {
    assert_eq!(parse("@"), Err(ParserError::InvalidToken));
}

#[test]
fn minus_without_digit_fails() {
    assert_eq!(parse("-x"), Err(ParserError::InvalidToken));
}

#[test]
fn hash_missing_colon_fails() {
    assert_eq!(parse("{1 2}"), Err(ParserError::InvalidToken));
}

#[test]
fn hash_unterminated_fails_with_end_of_input() {
    assert_eq!(parse("{\"a\":1"), Err(ParserError::EndOfInput));
}

#[test]
fn trailing_comma_fails() {
    assert_eq!(parse("[1,]"), Err(ParserError::InvalidToken));
}

#[test]
fn extreme_integers_parse_exactly() {
    let max = isize::MAX.to_string();
    assert_eq!(parse(&max), doc(vec![int_node(isize::MAX, 1, 1)]));
    let min = isize::MIN.to_string();
    assert_eq!(parse(&min), doc(vec![int_node(isize::MIN, 1, 1)]));
}

#[test]
fn plus_sign_accepted_through_tokens() {
    let toks = vec![Token {
        kind: TokenKind::Integer,
        text: "+5".to_string(),
        line: 3,
        column: 9,
    }];
    assert_eq!(parse_tokens(&toks), doc(vec![int_node(5, 3, 9)]));
}

#[test]
fn malformed_float_token_fails() {
    let toks = vec![Token {
        kind: TokenKind::Float,
        text: "1.".to_string(),
        line: 1,
        column: 1,
    }];
    assert_eq!(parse_tokens(&toks), Err(ParserError::InvalidTokenValue));
}

#[test]
fn parse_integer_accepts_and_rejects() {
    assert_eq!(parse_integer("007"), Some(7));
    assert_eq!(parse_integer("-0"), Some(0));
    assert_eq!(parse_integer("+42"), Some(42));
    assert_eq!(parse_integer("9223372036854775807"), Some(9223372036854775807));
    assert_eq!(parse_integer(""), None);
    assert_eq!(parse_integer("-"), None);
    assert_eq!(parse_integer("12a"), None);
    assert_eq!(parse_integer("1 2"), None);
    assert_eq!(parse_integer("99999999999999999999"), None);
}

#[test]
fn float_text_shape() {
    assert!(check_float_text("1.5"));
    assert!(check_float_text("-0.25"));
    assert!(check_float_text("10.05"));
    assert!(!check_float_text("1."));
    assert!(!check_float_text(".5"));
    assert!(!check_float_text("1"));
    assert!(!check_float_text("1.5.2"));
    assert!(!check_float_text(""));
}

#[test]
fn tokenize_reports_kinds_and_positions() {
    let toks = tokenize("[1, \"x\"]");
    let got: Vec<(TokenKind, &str, usize, usize)> = toks
        .iter()
        .map(|t| (t.kind, t.text.as_str(), t.line, t.column))
        .collect();
    assert_eq!(
        got,
        vec![
            (TokenKind::BrackOpen, "[", 1, 1),
            (TokenKind::Integer, "1", 1, 2),
            (TokenKind::Comma, ",", 1, 3),
            (TokenKind::Str, "x", 1, 5),
            (TokenKind::BrackClose, "]", 1, 8),
        ]
    );
}

#[test]
fn hash_preserves_pair_order_and_duplicates() {
    assert_eq!(
        parse("{1:2,1:3}"),
        doc(vec![Node::Hash {
            pairs: vec![
                (int_node(1, 1, 2), int_node(2, 1, 4)),
                (int_node(1, 1, 6), int_node(3, 1, 8)),
            ],
            line: 1,
            column: 1,
        }])
    );
}

#[test]
fn hash_keys_may_be_compound() {
    assert_eq!(
        parse("{[1]:2}"),
        doc(vec![Node::Hash {
            pairs: vec![(
                Node::Array { values: vec![int_node(1, 1, 3)], line: 1, column: 2 },
                int_node(2, 1, 6),
            )],
            line: 1,
            column: 1,
        }])
    );
}

#[test]
fn parse_expression_reports_next_index() {
    let toks = tokenize("[1] 2");
    let r = parse_expression(&toks, 0);
    match r {
        Ok((Node::Array { values, line, column }, next)) => {
            assert_eq!(values, vec![int_node(1, 1, 2)]);
            assert_eq!((line, column), (1, 1));
            assert_eq!(next, 3);
        }
        other => panic!("unexpected result: {:?}", other),
    }
}
