//! The cursor, the acceptable-token sets, and the evaluation state, taken
//! one operation at a time.

use rustcalc::{
    get_valid_tokens, make_next_tokens, Context, Expr, Operation, State, TokenType,
};
use rustcalc::parser::is_space;

fn is_ascii_digit_char(c: char) -> bool {
    c.is_ascii_digit()
}

#[test]
fn parse_if_consumes_only_an_accepted_character() {
    let mut c = Context::new("7a");
    let mut st = State::new(false);
    assert!(c.parse_if(&mut st, is_ascii_digit_char));
    assert_eq!(c.index, 1);
    assert!(!c.parse_if(&mut st, is_ascii_digit_char));
    assert_eq!(c.index, 1);
}

#[test]
fn parse_if_repeat_consumes_the_accepted_run() {
    let mut c = Context::new("123x4");
    let mut st = State::new(false);
    assert!(c.parse_if_repeat(&mut st, is_ascii_digit_char));
    assert_eq!(c.index, 3);
    assert!(!c.parse_if_repeat(&mut st, is_ascii_digit_char));
    assert_eq!(c.index, 3);
}

#[test]
fn is_space_matches_the_unicode_white_space_set() {
    for c in [' ', '\t', '\n', '\r', '\u{a0}', '\u{2003}', '\u{3000}'] {
        assert!(is_space(c), "{:?}", c);
        assert!(c.is_whitespace(), "{:?}", c);
    }
    for c in ['a', '0', '+', '\u{200B}'] {
        assert!(!is_space(c), "{:?}", c);
        assert!(!c.is_whitespace(), "{:?}", c);
    }
}

#[test]
fn exotic_whitespace_is_skipped_after_tokens() {
    let mut ctx = Context::new("1\u{2003}+\u{a0}2");
    let st = ctx.eval_expression(false).unwrap();
    match st.num {
        Expr::Binary { op, .. } => assert_eq!(op, '+'),
        ref other => panic!("expected a sum, got {:?}", other),
    }
}

#[test]
fn make_next_tokens_fills_the_leading_slots() {
    let v = make_next_tokens(&[TokenType::Number, TokenType::Eof]);
    assert_eq!(
        v,
        vec![Some(TokenType::Number), Some(TokenType::Eof), None, None, None]
    );
}

#[test]
fn make_next_tokens_of_nothing_is_all_empty() {
    let v = make_next_tokens(&[]);
    assert_eq!(v, vec![None, None, None, None, None]);
}

#[test]
fn get_valid_tokens_takes_the_some_prefix() {
    let v = make_next_tokens(&[TokenType::InfixOperator, TokenType::ParenthesisClose]);
    assert_eq!(
        get_valid_tokens(&v),
        vec![TokenType::InfixOperator, TokenType::ParenthesisClose]
    );
    assert_eq!(get_valid_tokens(&[None, Some(TokenType::Eof)]), vec![]);
    assert_eq!(
        get_valid_tokens(&[Some(TokenType::Eof), None, Some(TokenType::Number)]),
        vec![TokenType::Eof]
    );
}

#[test]
fn cursor_peek_and_advance() {
    let mut c = Context::new("ab");
    assert_eq!(c.peek(), Some('a'));
    c.iter_next();
    assert_eq!(c.peek(), Some('b'));
    c.iter_next();
    assert_eq!(c.peek(), None);
    c.iter_next();
    assert_eq!(c.index, 2);
}

#[test]
fn cursor_bulk_advance_is_clamped() {
    let mut c = Context::new("hello");
    c.iter_next_n(3);
    assert_eq!(c.index, 3);
    c.iter_next_n(99);
    assert_eq!(c.index, 5);
    c.iter_next_n(1);
    assert_eq!(c.index, 5);
}

#[test]
fn cursor_remaining_starts_with() {
    let mut c = Context::new("xtau");
    assert!(!c.remaining_starts_with("tau"));
    c.iter_next();
    assert!(c.remaining_starts_with("tau"));
    assert!(c.remaining_starts_with("ta"));
    assert!(!c.remaining_starts_with("taux"));
}

#[test]
fn parse_char_consumes_only_a_match() {
    let mut c = Context::new("(x");
    let mut st = State::new(false);
    assert!(c.parse_char(&mut st, '('));
    assert_eq!(c.index, 1);
    assert!(!c.parse_char(&mut st, '('));
    assert_eq!(c.index, 1);
}

#[test]
fn parse_char_repeat_consumes_the_run() {
    let mut c = Context::new("aaab");
    let mut st = State::new(false);
    assert!(c.parse_char_repeat(&mut st, 'a'));
    assert_eq!(c.index, 3);
    assert!(!c.parse_char_repeat(&mut st, 'a'));
    assert_eq!(c.index, 3);
}

fn lit(n: u8) -> Expr {
    Expr::Literal { int_digits: vec![n], frac_digits: vec![] }
}

#[test]
fn folding_an_empty_slot_changes_nothing() {
    let mut st = State::new(false);
    st.num = lit(7);
    st.calcuate_op_list_at(1);
    assert_eq!(st.num, lit(7));
    assert!(st.op_list.iter().all(|s| s.is_none()));
}

#[test]
fn folding_applies_the_deferred_operation() {
    let mut st = State::new(false);
    st.op_list[0] = Some(Operation { num: lit(2), op: '+' });
    st.num = lit(3);
    st.calcuate_op_list_at(0);
    assert_eq!(
        st.num,
        Expr::Binary { op: '+', left: Box::new(lit(2)), right: Box::new(lit(3)) }
    );
    assert!(st.op_list[0].is_none());
}

#[test]
fn folding_all_runs_from_the_highest_level_down() {
    let mut st = State::new(false);
    st.op_list[0] = Some(Operation { num: lit(1), op: '+' });
    st.op_list[1] = Some(Operation { num: lit(2), op: '*' });
    st.num = lit(3);
    st.calcuate_op_list_all();
    // 1 + (2 * 3)
    assert_eq!(
        st.num,
        Expr::Binary {
            op: '+',
            left: Box::new(lit(1)),
            right: Box::new(Expr::Binary {
                op: '*',
                left: Box::new(lit(2)),
                right: Box::new(lit(3)),
            }),
        }
    );
}

#[test]
fn unary_operator_applies_once_and_clears() {
    let mut st = State::new(false);
    st.unary = true;
    st.num = lit(5);
    st.apply_unary_operator();
    assert_eq!(st.num, Expr::Negate { inner: Box::new(lit(5)) });
    assert!(!st.unary);
    st.apply_unary_operator();
    assert_eq!(st.num, Expr::Negate { inner: Box::new(lit(5)) });
}

#[test]
fn eval_expression_records_the_error_in_the_cursor() {
    let mut c = Context::new("2*");
    assert!(c.eval_expression(false).is_err());
    let err = c.error.expect("an error must be recorded");
    assert_eq!(err.position, 2);
    assert_eq!(c.err_msg, err.message());
}

#[test]
fn eval_expression_returns_the_folded_state() {
    let mut c = Context::new("4+5");
    let st = c.eval_expression(false).unwrap();
    assert_eq!(
        st.num,
        Expr::Binary { op: '+', left: Box::new(lit(4)), right: Box::new(lit(5)) }
    );
    assert_eq!(c.index, 3);
    assert!(c.error.is_none());
    assert!(c.err_msg.is_empty());
}
