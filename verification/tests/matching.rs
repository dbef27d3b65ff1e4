//! End-to-end matching scenarios through the public entry point.

use minregex::engine::match_pattern;
use minregex::semantics::ParseError;

fn run(input: &str, pattern: &str) -> Result<bool, ParseError> {
    let i: Vec<char> = input.chars().collect();
    let p: Vec<char> = pattern.chars().collect();
    match_pattern(&i, &p)
}

#[test]
fn anchored_exact_match() {
    assert_eq!(run("hello", "^hello$"), Ok(true));
}

#[test]
fn anchored_exact_length_mismatch() {
    assert_eq!(run("helloo", "^hello$"), Ok(false));
}

#[test]
fn start_anchor_prefix() {
    assert_eq!(run("abcdef", "^abc"), Ok(true));
}

#[test]
fn end_anchor_rejects_trailing_text() {
    assert_eq!(run("abcdef", "abc$"), Ok(false));
}

#[test]
fn end_anchor_accepts_suffix() {
    assert_eq!(run("abc", "abc$"), Ok(true));
}

#[test]
fn wildcard_between_literals() {
    assert_eq!(run("a1b", "a.b"), Ok(true));
}

#[test]
fn wildcard_needs_a_character() {
    assert_eq!(run("ab", "a.b"), Ok(false));
}

#[test]
fn digits_one_or_more() {
    assert_eq!(run("12345", "\\d+"), Ok(true));
}

#[test]
fn digits_found_after_letters() {
    assert_eq!(run("abc123", "\\d+"), Ok(true));
}

#[test]
fn alternation_second_branch() {
    assert_eq!(run("b", "(a|b)"), Ok(true));
}

#[test]
fn alternation_no_branch() {
    assert_eq!(run("c", "(a|b)"), Ok(false));
}

#[test]
fn alternation_with_suffix_first_branch() {
    assert_eq!(run("ac", "(a|b)c"), Ok(true));
}

#[test]
fn alternation_with_suffix_second_branch() {
    assert_eq!(run("bc", "(a|b)c"), Ok(true));
}

#[test]
fn one_or_more_then_literals() {
    assert_eq!(run("aaabc", "a+bc"), Ok(true));
}

#[test]
fn optional_present() {
    assert_eq!(run("abc", "a?bc"), Ok(true));
}

#[test]
fn wildcard_single_char_input() {
    assert_eq!(run("a", "."), Ok(true));
}

#[test]
fn wildcard_empty_input() {
    assert_eq!(run("", "."), Ok(false));
}

#[test]
fn wildcard_longer_input_unanchored() {
    // the unanchored scan needs only one character somewhere
    assert_eq!(run("ab", "."), Ok(true));
}

#[test]
fn greedy_plus_never_backtracks() {
    // a+ consumes all three a's; nothing is left for the literal a
    assert_eq!(run("aaab", "a+ab"), Ok(false));
}

#[test]
fn empty_pattern_matches_empty_input() {
    assert_eq!(run("", ""), Ok(true));
}

#[test]
fn empty_pattern_matches_any_input() {
    assert_eq!(run("abc", ""), Ok(true));
}

#[test]
fn literal_self_match_example() {
    assert_eq!(run("world", "^world$"), Ok(true));
    assert_eq!(run("worldx", "^world$"), Ok(false));
}

#[test]
fn bracket_set_negated_accepts_outsider() {
    assert_eq!(run("d", "[^abc]"), Ok(true));
}

#[test]
fn bracket_set_accepts_member() {
    assert_eq!(run("a", "[abc]"), Ok(true));
}

#[test]
fn bracket_set_rejects_outsider() {
    assert_eq!(run("d", "[abc]"), Ok(false));
}

#[test]
fn bare_pipe_has_no_group() {
    assert_eq!(run("a", "a|b"), Err(ParseError::MissingAlternationGroup));
}

#[test]
fn unclosed_bracket_set() {
    assert_eq!(run("a", "[abc"), Err(ParseError::UnterminatedClass));
}

#[test]
fn trailing_escape_marker() {
    assert_eq!(run("abcd", "abc\\"), Err(ParseError::TruncatedEscape));
}

#[test]
fn error_is_lazy_when_scan_never_reaches_it() {
    // the defect sits past the point where every attempt already failed
    assert_eq!(run("", "[abc"), Ok(false));
    assert_eq!(run("xy", "q\\"), Ok(false));
}

#[test]
fn escaped_character_is_literal() {
    assert_eq!(run("+", "\\+"), Ok(true));
    assert_eq!(run("a", "\\+"), Ok(false));
}

#[test]
fn word_class_excludes_underscore() {
    assert_eq!(run("_", "\\w"), Ok(false));
    assert_eq!(run("Z", "\\w"), Ok(true));
    assert_eq!(run("7", "\\w"), Ok(true));
}

#[test]
fn digit_class_rejects_letter() {
    assert_eq!(run("x", "\\d"), Ok(false));
    assert_eq!(run("5", "\\d"), Ok(true));
}

#[test]
fn empty_bracket_set_matches_nothing() {
    assert_eq!(run("a", "[]"), Ok(false));
}

#[test]
fn negated_empty_bracket_set_matches_anything() {
    assert_eq!(run("z", "[^]"), Ok(true));
}

#[test]
fn trailing_optional_fails_at_input_exhaustion() {
    // a leftover pattern at input exhaustion is a failure, even a `?` atom
    assert_eq!(run("", "a?"), Ok(false));
}

#[test]
fn optional_absent_still_matches() {
    assert_eq!(run("bc", "a?bc"), Ok(true));
}

#[test]
fn unanchored_scan_finds_inner_match() {
    assert_eq!(run("xxabcyy", "abc"), Ok(true));
}

#[test]
fn both_anchors_on_empty_core() {
    assert_eq!(run("", "^$"), Ok(true));
    assert_eq!(run("a", "^$"), Ok(false));
}

#[test]
fn plus_consumes_whole_run() {
    assert_eq!(run("aaa", "a+"), Ok(true));
    assert_eq!(run("", "a+"), Ok(false));
}
