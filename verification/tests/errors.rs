//! Syntax errors: the failure position, the ordered set of acceptable
//! token kinds, the found character, and the rendered message.

use rustcalc::{evaluate, SyntaxError, TokenType};

fn fail(s: &str) -> SyntaxError {
    evaluate(s).unwrap_err()
}

#[test]
fn dangling_operator_expects_an_operand() {
    let e = fail("2 +");
    assert_eq!(e.position, 3);
    assert_eq!(
        e.expected,
        vec![TokenType::Number, TokenType::UnaryOperator, TokenType::ParenthesisOpen]
    );
    assert_eq!(e.found, None);
}

#[test]
fn unclosed_parenthesis_expects_its_close() {
    let e = fail("(1");
    assert_eq!(e.position, 2);
    assert_eq!(e.expected, vec![TokenType::InfixOperator, TokenType::ParenthesisClose]);
    assert_eq!(e.found, None);
}

#[test]
fn two_numbers_in_a_row() {
    let e = fail("1 2");
    assert_eq!(e.position, 2);
    assert_eq!(e.expected, vec![TokenType::InfixOperator, TokenType::Eof]);
    assert_eq!(e.found, Some('2'));
}

#[test]
fn empty_input() {
    let e = fail("");
    assert_eq!(e.position, 0);
    assert_eq!(
        e.expected,
        vec![TokenType::Number, TokenType::UnaryOperator, TokenType::ParenthesisOpen]
    );
    assert_eq!(e.found, None);
}

#[test]
fn bare_dot_is_no_number() {
    let e = fail(".");
    assert_eq!(e.position, 0);
    assert_eq!(e.found, Some('.'));
}

#[test]
fn second_dot_stops_the_literal() {
    let e = fail("5.5.5");
    assert_eq!(e.position, 3);
    assert_eq!(e.expected, vec![TokenType::InfixOperator, TokenType::Eof]);
    assert_eq!(e.found, Some('.'));
}

#[test]
fn empty_parentheses() {
    let e = fail("()");
    assert_eq!(e.position, 1);
    assert_eq!(
        e.expected,
        vec![TokenType::Number, TokenType::UnaryOperator, TokenType::ParenthesisOpen]
    );
    assert_eq!(e.found, Some(')'));
}

#[test]
fn leading_whitespace_is_not_skipped() {
    let e = fail(" 2");
    assert_eq!(e.position, 0);
    assert_eq!(e.found, Some(' '));
}

#[test]
fn whitespace_after_unary_sign_is_rejected() {
    let e = fail("- 2");
    assert_eq!(e.position, 1);
    assert_eq!(
        e.expected,
        vec![TokenType::Number, TokenType::UnaryOperator, TokenType::ParenthesisOpen]
    );
    assert_eq!(e.found, Some(' '));
}

#[test]
fn no_whitespace_skip_after_close_paren() {
    // whitespace is skipped after numbers, constants and operators, not
    // after a closing parenthesis
    let e = fail("(1+2) *3");
    assert_eq!(e.position, 5);
    assert_eq!(e.expected, vec![TokenType::InfixOperator, TokenType::Eof]);
    assert_eq!(e.found, Some(' '));
}

#[test]
fn inner_error_wins_over_outer() {
    let e = fail("1+(2*");
    assert_eq!(e.position, 5);
    assert_eq!(
        e.expected,
        vec![TokenType::Number, TokenType::UnaryOperator, TokenType::ParenthesisOpen]
    );
    assert_eq!(e.found, None);
}

#[test]
fn text_after_constant_name() {
    let e = fail("pie");
    assert_eq!(e.position, 2);
    assert_eq!(e.expected, vec![TokenType::InfixOperator, TokenType::Eof]);
    assert_eq!(e.found, Some('e'));
}

#[test]
fn message_with_eof() {
    let e = fail("2 +");
    assert_eq!(
        e.message(),
        "expected one of {Number, UnaryOperator, ParenthesisOpen} but found EOF at index 3"
    );
}

#[test]
fn message_with_found_character() {
    let e = fail("1 2");
    assert_eq!(
        e.message(),
        "expected one of {InfixOperator, Eof} but found \"2\" at index 2"
    );
}

#[test]
fn message_with_single_expected_kind() {
    let e = SyntaxError { position: 17, expected: vec![TokenType::Number], found: Some('x') };
    assert_eq!(e.message(), "expected {Number} but found \"x\" at index 17");
}

#[test]
fn dangling_exponent() {
    let e = fail("2^");
    assert_eq!(e.position, 2);
    assert_eq!(
        e.expected,
        vec![TokenType::Number, TokenType::UnaryOperator, TokenType::ParenthesisOpen]
    );
    assert_eq!(e.found, None);
}

#[test]
fn lone_open_parenthesis() {
    let e = fail("(");
    assert_eq!(e.position, 1);
    assert_eq!(
        e.expected,
        vec![TokenType::Number, TokenType::UnaryOperator, TokenType::ParenthesisOpen]
    );
    assert_eq!(e.found, None);
}

#[test]
fn lone_close_parenthesis() {
    let e = fail(")");
    assert_eq!(e.position, 0);
    assert_eq!(e.found, Some(')'));
}

#[test]
fn close_paren_without_scope() {
    let e = fail("1)");
    assert_eq!(e.position, 1);
    assert_eq!(e.expected, vec![TokenType::InfixOperator, TokenType::Eof]);
    assert_eq!(e.found, Some(')'));
}

#[test]
fn message_renders_multidigit_position() {
    let e = fail("1234567890 + 1 1");
    assert_eq!(e.position, 15);
    assert!(e.message().ends_with("at index 15"));
}
