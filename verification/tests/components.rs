//! Unit tests for the individual engine components.

use minregex::engine::consume_optional;
use minregex::engine::consume_repeated;
use minregex::engine::consume_single;
use minregex::engine::match_char;
use minregex::engine::match_from_start;
use minregex::engine::parse_pattern;
use minregex::semantics::ParseError;

fn chars(s: &str) -> Vec<char> {
    s.chars().collect()
}

#[test]
fn match_char_classes() {
    assert!(match_char('5', &chars("\\d")));
    assert!(!match_char('x', &chars("\\d")));
    assert!(match_char('x', &chars("\\w")));
    assert!(!match_char('_', &chars("\\w")));
    assert!(match_char('!', &chars(".")));
    assert!(match_char('b', &chars("[abc]")));
    assert!(!match_char('d', &chars("[abc]")));
    assert!(match_char('d', &chars("[^abc]")));
    assert!(!match_char('a', &chars("[^abc]")));
    assert!(match_char('q', &chars("q")));
    assert!(!match_char('q', &chars("r")));
    assert!(match_char('+', &chars("\\+")));
}

#[test]
fn parse_pattern_spans() {
    assert_eq!(parse_pattern(&chars("abc")), Ok(1));
    assert_eq!(parse_pattern(&chars("\\d+")), Ok(2));
    assert_eq!(parse_pattern(&chars("[abc]x")), Ok(5));
    assert_eq!(parse_pattern(&chars("[^ab]x")), Ok(5));
    assert_eq!(parse_pattern(&chars(".x")), Ok(1));
}

#[test]
fn parse_pattern_defects() {
    assert_eq!(parse_pattern(&chars("\\")), Err(ParseError::TruncatedEscape));
    assert_eq!(parse_pattern(&chars("[abc")), Err(ParseError::UnterminatedClass));
}

#[test]
fn consume_single_advances_once() {
    let input = chars("ab");
    let mut cursor: usize = 0;
    assert!(consume_single(&input, &mut cursor, &chars("a")));
    assert_eq!(cursor, 1);
    assert!(!consume_single(&input, &mut cursor, &chars("a")));
    assert_eq!(cursor, 1);
}

#[test]
fn consume_optional_never_fails() {
    let input = chars("ba");
    let mut cursor: usize = 0;
    consume_optional(&input, &mut cursor, &chars("a"));
    assert_eq!(cursor, 0);
    consume_optional(&input, &mut cursor, &chars("b"));
    assert_eq!(cursor, 1);
}

#[test]
fn consume_repeated_is_greedy() {
    let input = chars("aaab");
    let mut cursor: usize = 0;
    assert!(consume_repeated(&input, &mut cursor, &chars("a")));
    assert_eq!(cursor, 3);
    assert!(!consume_repeated(&input, &mut cursor, &chars("a")));
    assert_eq!(cursor, 3);
}

#[test]
fn match_from_start_requires_full_pattern() {
    assert_eq!(match_from_start(&chars("abc"), &chars("ab")), Ok(true));
    assert_eq!(match_from_start(&chars("ab"), &chars("abc")), Ok(false));
    assert_eq!(match_from_start(&chars("aaab"), &chars("a+ab")), Ok(false));
}
