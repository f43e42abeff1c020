//! The evaluator: a cursor over the input, the evaluation state, the token
//! recognizers, and the driver that dispatches them by the current
//! acceptable-token set.

use vstd::prelude::*;
use vstd::string::StrSliceExecFns;
use crate::ast::{ConstName, Expr, ExprV, empty_literal};
use crate::errors::{SyntaxError, render_msg};
use crate::model::{
    OperationV, StateV, state_wf_v, init_state_v, fold_at, fold_upper, fold_all,
    skip_ws, lit_matches, found_at, apply_unary, is_space_char, is_digit_char, digit_value,
    digit_seq, scan_digits, scan_number, scan_constant, const_chars, number_leaf,
    is_unary_char, is_infix_char, toggle_unary, infix_step, operand_first_tokens,
    after_operand_tokens, acc_reachable, token_matches, err_at, ErrV, StepV, step,
    run, lemma_first_match_found, lemma_first_match_none,
    lemma_number_leaf_bounds, lemma_skip_ws_bounds, lemma_skip_ws_run, lemma_run_bounds,
};
use crate::tokens::{TokenType, NextTokens, make_next_tokens, get_valid_tokens, valid_prefix,
    next_tokens_wf, tokens_canonical, lemma_canonical_prefix};

verus! {

/// Why a recognizer or an evaluation gave up.  `ParseFailed` is the
/// ordinary answer: the upcoming input did not match.  `Unreachable` is
/// kept for states the dispatch table cannot reach.
#[derive(Debug, Clone, Copy, PartialEq, Eq, Structural)]
pub enum ParseError {
    Unreachable,
    ParseFailed,
}

/// What a recognizer returns: the acceptable-token set that follows the
/// consumed token, or a failure with the input unconsumed.
pub type ParseResult = Result<NextTokens, ParseError>;

/// A deferred binary operation: the left operand it captured and its
/// operator character.
#[derive(Debug)]
pub struct Operation {
    pub num: Expr,
    pub op: char,
}

impl View for Operation {
    type V = OperationV;

    open spec fn view(&self) -> OperationV {
        OperationV { num: self.num@, op: self.op }
    }
}

/// The view of one precedence slot.
pub open spec fn slot_view(o: Option<Operation>) -> Option<OperationV> {
    match o {
        Some(x) => Some(x@),
        None => None,
    }
}

/// The state of one (sub-)expression evaluation: a pending-operation slot
/// per precedence level, the pending unary sign, the accumulator, the
/// precedence of the last infix operator, and whether the evaluation is
/// parenthesis-scoped.
#[derive(Debug)]
pub struct State {
    pub op_list: Vec<Option<Operation>>,
    pub unary: bool,
    pub num: Expr,
    pub op_prec: u8,
    pub paren_opened: bool,
}

impl View for State {
    type V = StateV;

    open spec fn view(&self) -> StateV {
        StateV {
            op_list: self.op_list@.map_values(|o: Option<Operation>| slot_view(o)),
            unary: self.unary,
            num: self.num@,
            op_prec: self.op_prec as int,
            paren_opened: self.paren_opened,
        }
    }
}

impl State {
    /// A well-formed state: three precedence slots and a valid last
    /// precedence.
    pub open spec fn wf(&self) -> bool {
        state_wf_v(self@)
    }

    /// The state a fresh (sub-)expression evaluation starts from.
    pub fn new(paren_opened: bool) -> (st: State)
        ensures
            st@ == init_state_v(paren_opened),
            st.wf(),
    {
        let mut op_list: Vec<Option<Operation>> = Vec::new();
        op_list.push(None);
        op_list.push(None);
        op_list.push(None);
        let st = State { op_list, unary: false, num: empty_literal(), op_prec: 0, paren_opened };
        proof {
            assert(st@.op_list =~= init_state_v(paren_opened).op_list);
        }
        st
    }

    /// Folds the pending operation of precedence level `prec`, if one is
    /// deferred there: its operator is applied to its stored left operand
    /// and the accumulator, and the slot is cleared.
    pub fn calcuate_op_list_at(&mut self, prec: usize)
        requires
            old(self).wf(),
            prec < 3,
        ensures
            final(self).wf(),
            final(self)@ == fold_at(old(self)@, prec as int),
    {
        let mut slot: Option<Operation> = None;
        core::mem::swap(&mut slot, &mut self.op_list[prec]);
        match slot {
            Some(op) => {
                let mut right = empty_literal();
                core::mem::swap(&mut right, &mut self.num);
                self.num = Expr::Binary { op: op.op, left: Box::new(op.num), right: Box::new(right) };
                proof {
                    assert(self@.op_list =~= fold_at(old(self)@, prec as int).op_list);
                }
            },
            None => {
                proof {
                    assert(self@.op_list =~= old(self)@.op_list);
                }
            },
        }
    }

    /// Folds every pending operation, from the highest precedence level
    /// down to the lowest.
    pub fn calcuate_op_list_all(&mut self)
        requires
            old(self).wf(),
        ensures
            final(self).wf(),
            final(self)@ == fold_all(old(self)@),
    {
        let mut p: usize = 3;
        while p > 0
            invariant
                p <= 3,
                self.wf(),
                fold_upper(old(self)@, p as int) == self@,
            decreases p,
        {
            p = p - 1;
            self.calcuate_op_list_at(p);
        }
    }

    /// Applies the pending unary sign to the operand just read, exactly
    /// once, and clears it.
    pub fn apply_unary_operator(&mut self)
        ensures
            final(self)@ == apply_unary(old(self)@),
    {
        if self.unary {
            let mut inner = empty_literal();
            core::mem::swap(&mut inner, &mut self.num);
            self.num = Expr::Negate { inner: Box::new(inner) };
            self.unary = false;
        }
    }
}

/// Whether `c` has the Unicode `White_Space` property.
pub fn is_space(c: char) -> (r: bool)
    ensures
        r == is_space_char(c),
{
    let u = c as u32;
    u == 9 || u == 10 || u == 11 || u == 12 || u == 13 || u == 32 || u == 0x85 || u == 0xA0
        || u == 0x1680 || (0x2000 <= u && u <= 0x200A) || u == 0x2028 || u == 0x2029
        || u == 0x202F || u == 0x205F || u == 0x3000
}

/// The position at which a run of the repeated character `ch` starting at
/// `i` ends.
pub open spec fn scan_char_run(s: Seq<char>, i: int, ch: char) -> int
    decreases s.len() - i when 0 <= i <= s.len()
{
    if i < s.len() && s[i] == ch {
        scan_char_run(s, i + 1, ch)
    } else {
        i
    }
}

/// The cursor over one evaluation's input: the text, the current scan
/// position in characters, and the error recorded by the first failure.
pub struct Context<'a> {
    pub text: &'a str,
    pub index: usize,
    pub err_msg: String,
    pub error: Option<SyntaxError>,
}

impl<'a> Context<'a> {
    /// A well-formed cursor: the position stays within the text.
    pub open spec fn wf(&self) -> bool {
        self.index <= self.text@.len()
    }

    /// A fresh cursor at the start of `text`, with no error recorded.
    pub fn new(text: &'a str) -> (ctx: Context<'a>)
        ensures
            ctx.text == text,
            ctx.index == 0,
            ctx.err_msg@ == Seq::<char>::empty(),
            ctx.error is None,
            ctx.wf(),
    {
        Context { text, index: 0, err_msg: String::new(), error: None }
    }

    /// The upcoming character, without consuming it.
    pub fn peek(&self) -> (r: Option<char>)
        requires
            self.wf(),
        ensures
            r == found_at(self.text@, self.index as int),
    {
        let n = self.text.unicode_len();
        if self.index < n {
            Some(self.text.get_char(self.index))
        } else {
            None
        }
    }

    /// Consumes one character; a no-op at the end of the input.
    pub fn iter_next(&mut self)
        requires
            old(self).wf(),
        ensures
            final(self).wf(),
            final(self).text == old(self).text,
            final(self).err_msg == old(self).err_msg,
            final(self).error == old(self).error,
            final(self).index as int == if (old(self).index as int) < old(self).text@.len() {
                old(self).index as int + 1
            } else {
                old(self).index as int
            },
    {
        let n = self.text.unicode_len();
        if self.index < n {
            self.index = self.index + 1;
        }
    }

    /// Consumes up to `n` characters, clamped to the remaining length.
    pub fn iter_next_n(&mut self, n: usize)
        requires
            old(self).wf(),
        ensures
            final(self).wf(),
            final(self).text == old(self).text,
            final(self).err_msg == old(self).err_msg,
            final(self).error == old(self).error,
            final(self).index as int == if old(self).index + n <= old(self).text@.len() {
                old(self).index + n
            } else {
                old(self).text@.len() as int
            },
    {
        let len = self.text.unicode_len();
        let remainder = len - self.index;
        let k = if n < remainder {
            n
        } else {
            remainder
        };
        self.index = self.index + k;
    }

    /// Whether the remaining input begins with the given literal.
    pub fn remaining_starts_with(&self, lit: &str) -> (r: bool)
        requires
            self.wf(),
        ensures
            r == lit_matches(self.text@, self.index as int, lit@),
    {
        let m = lit.unicode_len();
        let n = self.text.unicode_len();
        if m > n - self.index {
            return false;
        }
        let mut k: usize = 0;
        while k < m
            invariant
                self.wf(),
                m == lit@.len(),
                n == self.text@.len(),
                self.index + m <= n,
                0 <= k <= m,
                forall|j: int| 0 <= j < k ==> self.text@[self.index + j] == lit@[j],
            decreases m - k,
        {
            if self.text.get_char(self.index + k) != lit.get_char(k) {
                return false;
            }
            k = k + 1;
        }
        true
    }

    /// Consumes the upcoming character when `func` accepts it.
    pub fn parse_if<F: Fn(char) -> bool>(&mut self, _state: &mut State, func: F) -> (r: bool)
        requires
            old(self).wf(),
            forall|c: char| #[trigger] call_requires(func, (c,)),
        ensures
            *final(_state) == *old(_state),
            final(self).wf(),
            final(self).text == old(self).text,
            final(self).err_msg == old(self).err_msg,
            final(self).error == old(self).error,
            r ==> old(self).index < old(self).text@.len() && call_ensures(
                func,
                (old(self).text@[old(self).index as int],),
                true,
            ) && final(self).index == old(self).index + 1,
            !r ==> final(self).index == old(self).index && (old(self).index == old(
                self,
            ).text@.len() || call_ensures(
                func,
                (old(self).text@[old(self).index as int],),
                false,
            )),
    {
        match self.peek() {
            Some(c) => {
                if func(c) {
                    self.iter_next();
                    true
                } else {
                    false
                }
            },
            None => false,
        }
    }

    /// Consumes the maximal run of characters `func` accepts; reports
    /// whether anything was consumed.
    pub fn parse_if_repeat<F: Fn(char) -> bool>(
        &mut self,
        _state: &mut State,
        func: F,
    ) -> (r: bool)
        requires
            old(self).wf(),
            forall|c: char| #[trigger] call_requires(func, (c,)),
        ensures
            *final(_state) == *old(_state),
            final(self).wf(),
            final(self).text == old(self).text,
            final(self).err_msg == old(self).err_msg,
            final(self).error == old(self).error,
            old(self).index <= final(self).index <= old(self).text@.len(),
            r == (final(self).index != old(self).index),
            forall|j: int|
                old(self).index <= j < final(self).index ==> call_ensures(
                    func,
                    (old(self).text@[j],),
                    true,
                ),
            (final(self).index as int) < old(self).text@.len() ==> call_ensures(
                func,
                (old(self).text@[final(self).index as int],),
                false,
            ),
    {
        let mut parsed = false;
        loop
            invariant
                self.wf(),
                self.text == old(self).text,
                self.err_msg == old(self).err_msg,
                self.error == old(self).error,
                *_state == *old(_state),
                forall|c: char| #[trigger] call_requires(func, (c,)),
                old(self).index <= self.index <= self.text@.len(),
                parsed == (self.index != old(self).index),
                forall|j: int|
                    old(self).index <= j < self.index ==> call_ensures(
                        func,
                        (old(self).text@[j],),
                        true,
                    ),
            ensures
                self.index as int == self.text@.len() || call_ensures(
                    func,
                    (self.text@[self.index as int],),
                    false,
                ),
            decreases self.text@.len() - self.index,
        {
            match self.peek() {
                Some(c) => {
                    if func(c) {
                        self.iter_next();
                        parsed = true;
                    } else {
                        break;
                    }
                },
                None => {
                    break;
                },
            }
        }
        parsed
    }

    /// Consumes the upcoming character when it is `ch`.
    pub fn parse_char(&mut self, _state: &mut State, ch: char) -> (r: bool)
        requires
            old(self).wf(),
        ensures
            *final(_state) == *old(_state),
            final(self).wf(),
            final(self).text == old(self).text,
            final(self).err_msg == old(self).err_msg,
            final(self).error == old(self).error,
            r == (old(self).index < old(self).text@.len() && old(self).text@[old(
                self,
            ).index as int] == ch),
            final(self).index as int == if r {
                old(self).index as int + 1
            } else {
                old(self).index as int
            },
    {
        match self.peek() {
            Some(c) => {
                if c == ch {
                    self.iter_next();
                    true
                } else {
                    false
                }
            },
            None => false,
        }
    }

    /// Consumes the maximal run of the repeated character `ch`; reports
    /// whether anything was consumed.
    pub fn parse_char_repeat(&mut self, _state: &mut State, ch: char) -> (r: bool)
        requires
            old(self).wf(),
        ensures
            *final(_state) == *old(_state),
            final(self).wf(),
            final(self).text == old(self).text,
            final(self).err_msg == old(self).err_msg,
            final(self).error == old(self).error,
            final(self).index as int == scan_char_run(
                old(self).text@,
                old(self).index as int,
                ch,
            ),
            r == (final(self).index != old(self).index),
    {
        let mut parsed = false;
        loop
            invariant
                self.wf(),
                self.text == old(self).text,
                self.err_msg == old(self).err_msg,
                self.error == old(self).error,
                old(self).index <= self.index,
                parsed == (self.index != old(self).index),
                scan_char_run(old(self).text@, old(self).index as int, ch) == scan_char_run(
                    self.text@,
                    self.index as int,
                    ch,
                ),
            ensures
                self.index as int == scan_char_run(old(self).text@, old(self).index as int, ch),
                parsed == (self.index != old(self).index),
            decreases self.text@.len() - self.index,
        {
            match self.peek() {
                Some(c) => {
                    if c == ch {
                        self.iter_next();
                        parsed = true;
                    } else {
                        break;
                    }
                },
                None => {
                    break;
                },
            }
        }
        parsed
    }
}

/// Whether `c` is a decimal digit.
fn is_digit(c: char) -> (r: bool)
    ensures
        r == is_digit_char(c),
{
    let u = c as u32;
    48 <= u && u <= 57
}

/// The numeric value of a decimal digit character.
fn digit_of(c: char) -> (d: u8)
    requires
        is_digit_char(c),
    ensures
        d == digit_value(c),
{
    ((c as u32) - 48) as u8
}

impl<'a> Context<'a> {
    /// Recognizes a named constant (`tau`, `pi` or `e`, tried in that
    /// order): sets the accumulator to it, consumes its name and the
    /// whitespace after it.
    pub fn parse_constant(&mut self, state: &mut State) -> (r: ParseResult)
        requires
            old(self).wf(),
        ensures
            final(self).wf(),
            final(self).text == old(self).text,
            final(self).err_msg == old(self).err_msg,
            final(self).error == old(self).error,
            match r {
                Ok(next) => {
                    &&& scan_constant(old(self).text@, old(self).index as int) is Some
                    &&& final(self).index as int == skip_ws(
                        old(self).text@,
                        scan_constant(old(self).text@, old(self).index as int).unwrap().1,
                    )
                    &&& final(state)@ == (StateV {
                        num: ExprV::Constant {
                            name: scan_constant(
                                old(self).text@,
                                old(self).index as int,
                            ).unwrap().0,
                        },
                        ..old(state)@
                    })
                    &&& next_tokens_wf(next@)
                    &&& tokens_canonical(next@)
                    &&& valid_prefix(next@) == after_operand_tokens(old(state).paren_opened)
                },
                Err(e) => {
                    &&& e == ParseError::ParseFailed
                    &&& scan_constant(old(self).text@, old(self).index as int) is None
                    &&& final(self).index == old(self).index
                    &&& *final(state) == *old(state)
                },
            },
    {
        proof {
            reveal_strlit("tau");
            reveal_strlit("pi");
            reveal_strlit("e");
            assert("tau"@ =~= const_chars(ConstName::Tau));
            assert("pi"@ =~= const_chars(ConstName::Pi));
            assert("e"@ =~= const_chars(ConstName::E));
        }
        let mut found: Option<ConstName> = None;
        let mut width: usize = 0;
        if self.remaining_starts_with("tau") {
            found = Some(ConstName::Tau);
            width = 3;
        } else if self.remaining_starts_with("pi") {
            found = Some(ConstName::Pi);
            width = 2;
        } else if self.remaining_starts_with("e") {
            found = Some(ConstName::E);
            width = 1;
        }
        match found {
            Some(name) => {
                state.num = Expr::Constant { name };
                self.iter_next_n(width);
                let ghost mid = self.index as int;
                self.parse_if_repeat(state, is_space);
                proof {
                    let s0 = old(self).text@;
                    assert forall|j: int| mid <= j < self.index as int implies is_space_char(
                        s0[j],
                    ) by {
                        assert(call_ensures(is_space, (s0[j],), true));
                    }
                    if (self.index as int) < s0.len() {
                        assert(!is_space_char(s0[self.index as int])) by {
                            assert(call_ensures(is_space, (s0[self.index as int],), false));
                        }
                    }
                    lemma_skip_ws_run(s0, mid, self.index as int);
                }
                if state.paren_opened {
                    Ok(make_next_tokens(
                        &[TokenType::InfixOperator, TokenType::ParenthesisClose],
                    ))
                } else {
                    Ok(make_next_tokens(&[TokenType::InfixOperator, TokenType::Eof]))
                }
            },
            None => Err(ParseError::ParseFailed),
        }
    }

    /// Recognizes a numeric literal: a maximal run of digits, optionally a
    /// radix point and a further maximal run.  A radix point counts only
    /// when a digit stands before it or immediately after it.  On success
    /// the accumulator holds the literal and the whitespace after it is
    /// consumed; with no digit at all it fails without consuming.
    pub fn parse_float(&mut self, state: &mut State) -> (r: ParseResult)
        requires
            old(self).wf(),
        ensures
            final(self).wf(),
            final(self).text == old(self).text,
            final(self).err_msg == old(self).err_msg,
            final(self).error == old(self).error,
            match r {
                Ok(next) => {
                    &&& scan_number(old(self).text@, old(self).index as int) is Some
                    &&& final(self).index as int == skip_ws(
                        old(self).text@,
                        scan_number(old(self).text@, old(self).index as int).unwrap().2,
                    )
                    &&& final(state)@ == (StateV {
                        num: ExprV::Literal {
                            int_digits: scan_number(
                                old(self).text@,
                                old(self).index as int,
                            ).unwrap().0,
                            frac_digits: scan_number(
                                old(self).text@,
                                old(self).index as int,
                            ).unwrap().1,
                        },
                        ..old(state)@
                    })
                    &&& next_tokens_wf(next@)
                    &&& tokens_canonical(next@)
                    &&& valid_prefix(next@) == after_operand_tokens(old(state).paren_opened)
                },
                Err(e) => {
                    &&& e == ParseError::ParseFailed
                    &&& scan_number(old(self).text@, old(self).index as int) is None
                    &&& final(self).index == old(self).index
                    &&& *final(state) == *old(state)
                },
            },
    {
        let ghost s0 = self.text@;
        let ghost i0 = self.index as int;
        let mut int_digits: Vec<u8> = Vec::new();
        loop
            invariant
                self.wf(),
                self.text == old(self).text,
                self.err_msg == old(self).err_msg,
                self.error == old(self).error,
                s0 == self.text@,
                i0 == old(self).index as int,
                i0 + int_digits@.len() == self.index as int,
                int_digits@ == digit_seq(s0, i0, self.index as int),
                scan_digits(s0, i0) == scan_digits(s0, self.index as int),
            ensures
                self.index as int == scan_digits(s0, i0),
                int_digits@ == digit_seq(s0, i0, self.index as int),
                self.text == old(self).text,
                self.err_msg == old(self).err_msg,
                self.error == old(self).error,
            decreases s0.len() - self.index,
        {
            match self.peek() {
                Some(c) => {
                    if is_digit(c) {
                        int_digits.push(digit_of(c));
                        self.iter_next();
                        proof {
                            assert(int_digits@ =~= digit_seq(s0, i0, self.index as int));
                        }
                    } else {
                        break;
                    }
                },
                None => {
                    break;
                },
            }
        }
        let j = self.index;
        let mut frac_digits: Vec<u8> = Vec::new();
        let ghost mut frac_from: int = j as int;
        if int_digits.len() > 0 {
            // integer digits found: a radix point may follow
            let mut has_point = false;
            match self.peek() {
                Some(c) => {
                    if c == '.' {
                        self.iter_next();
                        has_point = true;
                    }
                },
                None => {},
            }
            if has_point {
                proof {
                    frac_from = self.index as int;
                }
                self.scan_frac(&mut frac_digits, Ghost(frac_from));
            }
        } else {
            // no digit yet: only ". digit" can still make a number
            let n = self.text.unicode_len();
            let mut ok = false;
            match self.peek() {
                Some(c) => {
                    if c == '.' && n - self.index >= 2 {
                        if is_digit(self.text.get_char(self.index + 1)) {
                            ok = true;
                        }
                    }
                },
                None => {},
            }
            if !ok {
                return Err(ParseError::ParseFailed);
            }
            self.iter_next();
            proof {
                frac_from = self.index as int;
            }
            self.scan_frac(&mut frac_digits, Ghost(frac_from));
        }
        proof {
            assert(scan_number(s0, i0) is Some);
            let (ints, fracs, end) = scan_number(s0, i0).unwrap();
            assert(ints =~= int_digits@);
            assert(fracs =~= frac_digits@);
            assert(end == self.index as int);
        }
        state.num = Expr::Literal { int_digits, frac_digits };
        let ghost mid = self.index as int;
        self.parse_if_repeat(state, is_space);
        proof {
            let s0 = old(self).text@;
            assert forall|j: int| mid <= j < self.index as int implies is_space_char(
                s0[j],
            ) by {
                assert(call_ensures(is_space, (s0[j],), true));
            }
            if (self.index as int) < s0.len() {
                assert(!is_space_char(s0[self.index as int])) by {
                    assert(call_ensures(is_space, (s0[self.index as int],), false));
                }
            }
            lemma_skip_ws_run(s0, mid, self.index as int);
        }
        if state.paren_opened {
            Ok(make_next_tokens(&[TokenType::InfixOperator, TokenType::ParenthesisClose]))
        } else {
            Ok(make_next_tokens(&[TokenType::InfixOperator, TokenType::Eof]))
        }
    }

    /// Consumes the maximal digit run at the cursor into `digits`.
    fn scan_frac(&mut self, digits: &mut Vec<u8>, from: Ghost<int>)
        requires
            old(self).wf(),
            from@ == old(self).index as int,
            old(digits)@.len() == 0,
        ensures
            final(self).wf(),
            final(self).text == old(self).text,
            final(self).err_msg == old(self).err_msg,
            final(self).error == old(self).error,
            final(self).index as int == scan_digits(old(self).text@, from@),
            final(digits)@ == digit_seq(old(self).text@, from@, final(self).index as int),
    {
        let ghost s0 = self.text@;
        loop
            invariant
                self.wf(),
                self.text == old(self).text,
                self.err_msg == old(self).err_msg,
                self.error == old(self).error,
                s0 == self.text@,
                from@ + digits@.len() == self.index as int,
                digits@ == digit_seq(s0, from@, self.index as int),
                scan_digits(s0, from@) == scan_digits(s0, self.index as int),
            ensures
                self.index as int == scan_digits(s0, from@),
                digits@ == digit_seq(s0, from@, self.index as int),
                self.text == old(self).text,
                self.err_msg == old(self).err_msg,
                self.error == old(self).error,
            decreases s0.len() - self.index,
        {
            match self.peek() {
                Some(c) => {
                    if is_digit(c) {
                        digits.push(digit_of(c));
                        self.iter_next();
                        proof {
                            assert(digits@ =~= digit_seq(s0, from@, self.index as int));
                        }
                    } else {
                        break;
                    }
                },
                None => {
                    break;
                },
            }
        }
    }

    /// Recognizes an operand: a named constant first, then a numeric
    /// literal.
    pub fn parse_number(&mut self, state: &mut State) -> (r: ParseResult)
        requires
            old(self).wf(),
        ensures
            final(self).wf(),
            final(self).text == old(self).text,
            final(self).err_msg == old(self).err_msg,
            final(self).error == old(self).error,
            match r {
                Ok(next) => {
                    &&& number_leaf(old(self).text@, old(self).index as int) is Some
                    &&& final(self).index as int == skip_ws(
                        old(self).text@,
                        number_leaf(old(self).text@, old(self).index as int).unwrap().1,
                    )
                    &&& final(state)@ == (StateV {
                        num: number_leaf(old(self).text@, old(self).index as int).unwrap().0,
                        ..old(state)@
                    })
                    &&& next_tokens_wf(next@)
                    &&& tokens_canonical(next@)
                    &&& valid_prefix(next@) == after_operand_tokens(old(state).paren_opened)
                },
                Err(e) => {
                    &&& e == ParseError::ParseFailed
                    &&& number_leaf(old(self).text@, old(self).index as int) is None
                    &&& final(self).index == old(self).index
                    &&& *final(state) == *old(state)
                },
            },
    {
        match self.parse_constant(state) {
            Ok(next) => Ok(next),
            Err(_) => self.parse_float(state),
        }
    }

    /// Recognizes a unary sign: a minus toggles the pending sign, a plus
    /// leaves it.  No whitespace is skipped after it, so that signs bind
    /// tightly to the next token.
    pub fn parse_unary_operator(&mut self, state: &mut State) -> (r: ParseResult)
        requires
            old(self).wf(),
        ensures
            final(self).wf(),
            final(self).text == old(self).text,
            final(self).err_msg == old(self).err_msg,
            final(self).error == old(self).error,
            match r {
                Ok(next) => {
                    &&& old(self).index < old(self).text@.len()
                    &&& is_unary_char(old(self).text@[old(self).index as int])
                    &&& final(self).index == old(self).index + 1
                    &&& final(state)@ == toggle_unary(
                        old(state)@,
                        old(self).text@[old(self).index as int],
                    )
                    &&& next_tokens_wf(next@)
                    &&& tokens_canonical(next@)
                    &&& valid_prefix(next@) == operand_first_tokens()
                },
                Err(e) => {
                    &&& e == ParseError::ParseFailed
                    &&& !(old(self).index < old(self).text@.len() && is_unary_char(
                        old(self).text@[old(self).index as int],
                    ))
                    &&& final(self).index == old(self).index
                    &&& *final(state) == *old(state)
                },
            },
    {
        match self.peek() {
            Some(c) => {
                if c == '+' || c == '-' {
                    if c == '-' {
                        state.unary = !state.unary;
                    }
                    self.iter_next();
                    Ok(make_next_tokens(
                        &[TokenType::Number, TokenType::UnaryOperator, TokenType::ParenthesisOpen],
                    ))
                } else {
                    Err(ParseError::ParseFailed)
                }
            },
            None => Err(ParseError::ParseFailed),
        }
    }

    /// Recognizes an infix operator: folds pending operations as the
    /// precedence rules demand, defers `{accumulator, operator}` in the
    /// operator's slot, and consumes the operator and the whitespace after
    /// it.
    pub fn parse_infix_operator(&mut self, state: &mut State) -> (r: ParseResult)
        requires
            old(self).wf(),
            old(state).wf(),
        ensures
            final(self).wf(),
            final(self).text == old(self).text,
            final(self).err_msg == old(self).err_msg,
            final(self).error == old(self).error,
            match r {
                Ok(next) => {
                    &&& old(self).index < old(self).text@.len()
                    &&& is_infix_char(old(self).text@[old(self).index as int])
                    &&& final(self).index as int == skip_ws(
                        old(self).text@,
                        old(self).index + 1,
                    )
                    &&& final(state)@ == infix_step(
                        old(state)@,
                        old(self).text@[old(self).index as int],
                    )
                    &&& final(state).wf()
                    &&& next_tokens_wf(next@)
                    &&& tokens_canonical(next@)
                    &&& valid_prefix(next@) == operand_first_tokens()
                },
                Err(e) => {
                    &&& e == ParseError::ParseFailed
                    &&& !(old(self).index < old(self).text@.len() && is_infix_char(
                        old(self).text@[old(self).index as int],
                    ))
                    &&& final(self).index == old(self).index
                    &&& *final(state) == *old(state)
                },
            },
    {
        let c = match self.peek() {
            Some(c) => c,
            None => {
                return Err(ParseError::ParseFailed);
            },
        };
        let prec: usize = if c == '+' || c == '-' {
            0
        } else if c == '*' || c == '/' {
            1
        } else if c == '^' {
            2
        } else {
            return Err(ParseError::ParseFailed);
        };
        if state.op_prec as usize == prec {
            state.calcuate_op_list_at(prec);
        } else if state.op_prec as usize > prec {
            state.calcuate_op_list_all();
        }
        state.op_prec = prec as u8;
        let mut left = empty_literal();
        core::mem::swap(&mut left, &mut state.num);
        let mut slot = Some(Operation { num: left, op: c });
        core::mem::swap(&mut slot, &mut state.op_list[prec]);
        proof {
            assert(state@.op_list =~= infix_step(
                old(state)@,
                old(self).text@[old(self).index as int],
            ).op_list);
        }
        self.iter_next();
        let ghost mid = self.index as int;
        self.parse_if_repeat(state, is_space);
        proof {
            let s0 = old(self).text@;
            assert forall|j: int| mid <= j < self.index as int implies is_space_char(
                s0[j],
            ) by {
                assert(call_ensures(is_space, (s0[j],), true));
            }
            if (self.index as int) < s0.len() {
                assert(!is_space_char(s0[self.index as int])) by {
                    assert(call_ensures(is_space, (s0[self.index as int],), false));
                }
            }
            lemma_skip_ws_run(s0, mid, self.index as int);
        }
        Ok(make_next_tokens(
            &[TokenType::Number, TokenType::UnaryOperator, TokenType::ParenthesisOpen],
        ))
    }

    /// Recognizes an opening parenthesis: consumes it, evaluates the nested
    /// expression, and takes its value as the current operand.  When the
    /// nested evaluation fails, its error is kept and this recognizer
    /// reports failure.
    pub fn parse_parenthesis_open(&mut self, state: &mut State) -> (r: ParseResult)
        requires
            old(self).wf(),
            old(self).error is None,
            old(self).err_msg@.len() == 0,
        ensures
            final(self).wf(),
            final(self).text == old(self).text,
            old(self).index <= final(self).index,
            match r {
                Ok(next) => {
                    &&& old(self).index < old(self).text@.len()
                    &&& old(self).index < final(self).index
                    &&& old(self).text@[old(self).index as int] == '('
                    &&& run(
                        old(self).text@,
                        old(self).index + 1,
                        init_state_v(true),
                        operand_first_tokens(),
                    ) is Ok
                    &&& ({
                        let (ist, end) = run(
                            old(self).text@,
                            old(self).index + 1,
                            init_state_v(true),
                            operand_first_tokens(),
                        )->Ok_0;
                        &&& final(self).index as int == end
                        &&& final(state)@ == (StateV { num: ist.num, ..old(state)@ })
                    })
                    &&& final(self).err_msg == old(self).err_msg
                    &&& final(self).error is None
                    &&& next_tokens_wf(next@)
                    &&& tokens_canonical(next@)
                    &&& valid_prefix(next@) == after_operand_tokens(old(state).paren_opened)
                },
                Err(e) => {
                    &&& e == ParseError::ParseFailed
                    &&& *final(state) == *old(state)
                    &&& ((old(self).index < old(self).text@.len() && old(self).text@[old(
                        self,
                    ).index as int] == '(') ==> (run(
                        old(self).text@,
                        old(self).index + 1,
                        init_state_v(true),
                        operand_first_tokens(),
                    ) is Err && (match (
                        run(
                            old(self).text@,
                            old(self).index + 1,
                            init_state_v(true),
                            operand_first_tokens(),
                        ),
                        final(self).error,
                    ) {
                        (Err(ev), Some(se)) => se@ == ev && final(self).err_msg@ == render_msg(
                            ev,
                        ),
                        _ => false,
                    })))
                    &&& (!(old(self).index < old(self).text@.len() && old(self).text@[old(
                        self,
                    ).index as int] == '(') ==> (final(self).index == old(self).index
                        && final(self).err_msg == old(self).err_msg && final(self).error is None))
                },
            },
        decreases self.text@.len() - self.index, 0int,
    {
        if self.parse_char(state, '(') {
            let ghost s0 = old(self).text@;
            let ghost i0 = old(self).index as int;
            proof {
                crate::model::lemma_run_bounds(s0, i0 + 1, init_state_v(true), operand_first_tokens());
            }
            match self.eval_expression(true) {
                Ok(inner_state) => {
                    state.num = inner_state.num;
                    if state.paren_opened {
                        Ok(make_next_tokens(
                            &[TokenType::InfixOperator, TokenType::ParenthesisClose],
                        ))
                    } else {
                        Ok(make_next_tokens(&[TokenType::InfixOperator, TokenType::Eof]))
                    }
                },
                Err(_) => Err(ParseError::ParseFailed),
            }
        } else {
            Err(ParseError::ParseFailed)
        }
    }

    /// Recognizes a closing parenthesis, which completes a
    /// parenthesis-scoped evaluation.
    pub fn parse_parenthesis_close(&mut self, state: &mut State) -> (r: ParseResult)
        requires
            old(self).wf(),
        ensures
            final(self).wf(),
            final(self).text == old(self).text,
            final(self).err_msg == old(self).err_msg,
            final(self).error == old(self).error,
            *final(state) == *old(state),
            match r {
                Ok(next) => {
                    &&& old(self).index < old(self).text@.len()
                    &&& old(self).text@[old(self).index as int] == ')'
                    &&& final(self).index == old(self).index + 1
                    &&& next_tokens_wf(next@)
                    &&& tokens_canonical(next@)
                    &&& valid_prefix(next@) == Seq::<TokenType>::empty()
                },
                Err(e) => {
                    &&& e == ParseError::ParseFailed
                    &&& !(old(self).index < old(self).text@.len() && old(self).text@[old(
                        self,
                    ).index as int] == ')')
                    &&& final(self).index == old(self).index
                },
            },
    {
        if self.parse_char(state, ')') {
            Ok(make_next_tokens(&[]))
        } else {
            Err(ParseError::ParseFailed)
        }
    }

    /// Tries the recognizers in the order of the acceptable-token set; the
    /// first that matches consumes the token.  A pending unary sign is
    /// applied after a number or a parenthesized value.  Fails when nothing
    /// matches, or when a nested expression fails.
    fn parse_next_token(&mut self, state: &mut State, next_tokens: &NextTokens) -> (r: ParseResult)
        requires
            old(self).wf(),
            old(self).error is None,
            old(self).err_msg@.len() == 0,
            old(state).wf(),
            next_tokens_wf(next_tokens@),
            tokens_canonical(next_tokens@),
            acc_reachable(valid_prefix(next_tokens@)),
        ensures
            final(self).wf(),
            final(self).text == old(self).text,
            old(self).index <= final(self).index,
            match r {
                Ok(next) => {
                    &&& final(self).error is None
                    &&& final(self).err_msg == old(self).err_msg
                    &&& final(self).err_msg@.len() == 0
                    &&& final(state).wf()
                    &&& next_tokens_wf(next@)
                    &&& tokens_canonical(next@)
                    &&& match step(
                        old(self).text@,
                        old(self).index as int,
                        old(state)@,
                        valid_prefix(next_tokens@),
                    ) {
                        StepV::Next { st, at, acc } => {
                            &&& final(state)@ == st
                            &&& final(self).index as int == at
                            &&& old(self).index < final(self).index
                            &&& valid_prefix(next@) == acc
                        },
                        StepV::Done { st, end } => {
                            &&& final(state)@ == st
                            &&& final(self).index as int == end
                            &&& valid_prefix(next@) == Seq::<TokenType>::empty()
                        },
                        StepV::Fail { .. } => false,
                    }
                },
                Err(_) => {
                    &&& *final(state) == *old(state)
                    &&& match step(
                        old(self).text@,
                        old(self).index as int,
                        old(state)@,
                        valid_prefix(next_tokens@),
                    ) {
                        StepV::Fail { err } => match final(self).error {
                            None => {
                                &&& err == err_at(
                                    old(self).text@,
                                    old(self).index as int,
                                    valid_prefix(next_tokens@),
                                )
                                &&& final(self).index == old(self).index
                                &&& final(self).err_msg@.len() == 0
                            },
                            Some(se) => {
                                &&& se@ == err
                                &&& final(self).err_msg@ == render_msg(err)
                            },
                        },
                        _ => false,
                    }
                },
            },
        decreases self.text@.len() - self.index, 1int,
    {
        let ghost s0 = self.text@;
        let ghost i0 = self.index as int;
        let ghost acc0 = valid_prefix(next_tokens@);
        proof {
            lemma_canonical_prefix(next_tokens@);
        }
        let n = next_tokens.len();
        let mut idx: usize = 0;
        loop
            invariant
                next_tokens_wf(next_tokens@),
                tokens_canonical(next_tokens@),
                acc0 == valid_prefix(next_tokens@),
                acc0.len() <= next_tokens@.len(),
                forall|k: int| 0 <= k < acc0.len() ==> next_tokens@[k] == Option::Some(acc0[k]),
                forall|k: int| acc0.len() <= k < next_tokens@.len() ==> next_tokens@[k] is None,
                n == next_tokens@.len(),
                0 <= idx <= n,
                self.wf(),
                s0 == self.text@,
                i0 == self.index as int,
                self.text == old(self).text,
                self.index == old(self).index,
                self.err_msg == old(self).err_msg,
                self.error == old(self).error,
                old(self).error is None,
                old(self).err_msg@.len() == 0,
                *state == *old(state),
                old(state).wf(),
                forall|k: int| 0 <= k < idx && k < acc0.len() ==> !token_matches(s0, i0, acc0[k]),
            ensures
                forall|k: int| 0 <= k < acc0.len() ==> !token_matches(s0, i0, acc0[k]),
                self.text == old(self).text,
                self.index == old(self).index,
                self.err_msg == old(self).err_msg,
                self.error == old(self).error,
                *state == *old(state),
            decreases n - idx,
        {
            if idx == n {
                proof {
                    assert(acc0.len() <= n);
                }
                break;
            }
            let entry = next_tokens[idx];
            match entry {
                None => {
                    proof {
                        assert(idx >= acc0.len());
                    }
                    break;
                },
                Some(tok) => {
                    proof {
                        assert(idx < acc0.len());
                        assert(acc0[idx as int] == tok);
                    }
                    match tok {
                        TokenType::Number => {
                            match self.parse_number(state) {
                                Ok(next) => {
                                    state.apply_unary_operator();
                                    proof {
                                        assert(token_matches(s0, i0, acc0[idx as int]));
                                        lemma_first_match_found(s0, i0, acc0, idx as int);
                                        lemma_number_leaf_bounds(s0, i0);
                                        let (leaf, end) = number_leaf(s0, i0)->Some_0;
                                        lemma_skip_ws_bounds(s0, end);
                                    }
                                    return Ok(next);
                                },
                                Err(_) => {},
                            }
                        },
                        TokenType::UnaryOperator => {
                            match self.parse_unary_operator(state) {
                                Ok(next) => {
                                    proof {
                                        assert(token_matches(s0, i0, acc0[idx as int]));
                                        lemma_first_match_found(s0, i0, acc0, idx as int);
                                    }
                                    return Ok(next);
                                },
                                Err(_) => {},
                            }
                        },
                        TokenType::InfixOperator => {
                            match self.parse_infix_operator(state) {
                                Ok(next) => {
                                    proof {
                                        assert(token_matches(s0, i0, acc0[idx as int]));
                                        lemma_first_match_found(s0, i0, acc0, idx as int);
                                        lemma_skip_ws_bounds(s0, i0 + 1);
                                    }
                                    return Ok(next);
                                },
                                Err(_) => {},
                            }
                        },
                        TokenType::ParenthesisOpen => {
                            match self.parse_parenthesis_open(state) {
                                Ok(next) => {
                                    state.apply_unary_operator();
                                    proof {
                                        assert(token_matches(s0, i0, acc0[idx as int]));
                                        lemma_first_match_found(s0, i0, acc0, idx as int);
                                    }
                                    return Ok(next);
                                },
                                Err(_) => {
                                    if self.error.is_some() {
                                        proof {
                                            assert(token_matches(s0, i0, acc0[idx as int]));
                                            lemma_first_match_found(s0, i0, acc0, idx as int);
                                        }
                                        return Err(ParseError::ParseFailed);
                                    }
                                },
                            }
                        },
                        TokenType::ParenthesisClose => {
                            match self.parse_parenthesis_close(state) {
                                Ok(next) => {
                                    proof {
                                        assert(token_matches(s0, i0, acc0[idx as int]));
                                        lemma_first_match_found(s0, i0, acc0, idx as int);
                                    }
                                    return Ok(next);
                                },
                                Err(_) => {},
                            }
                        },
                        TokenType::Eof => {
                            let done = match self.peek() {
                                None => true,
                                Some(_) => false,
                            };
                            if done {
                                proof {
                                    assert(token_matches(s0, i0, acc0[idx as int]));
                                    lemma_first_match_found(s0, i0, acc0, idx as int);
                                }
                                return Ok(make_next_tokens(&[]));
                            }
                        },
                    }
                    proof {
                        assert(!token_matches(s0, i0, acc0[idx as int]));
                    }
                    idx = idx + 1;
                },
            }
        }
        proof {
            lemma_first_match_none(s0, i0, acc0);
        }
        Err(ParseError::ParseFailed)
    }

    /// Evaluates one (sub-)expression starting at the cursor: tokens are
    /// consumed as the acceptable-token state machine directs, and at the
    /// terminal token the remaining pending operations are folded from the
    /// highest precedence down.  On failure the first error is recorded in
    /// the cursor.
    pub fn eval_expression(&mut self, paren_opened: bool) -> (r: Result<State, ()>)
        requires
            old(self).wf(),
            old(self).error is None,
            old(self).err_msg@.len() == 0,
        ensures
            final(self).wf(),
            final(self).text == old(self).text,
            old(self).index <= final(self).index,
            match r {
                Ok(st) => {
                    &&& st.wf()
                    &&& run(
                        old(self).text@,
                        old(self).index as int,
                        init_state_v(paren_opened),
                        operand_first_tokens(),
                    ) == Ok::<(StateV, int), ErrV>((st@, final(self).index as int))
                    &&& final(self).error is None
                    &&& final(self).err_msg == old(self).err_msg
                    &&& final(self).err_msg@.len() == 0
                },
                Err(_) => {
                    &&& run(
                        old(self).text@,
                        old(self).index as int,
                        init_state_v(paren_opened),
                        operand_first_tokens(),
                    ) is Err
                    &&& match (
                        run(
                            old(self).text@,
                            old(self).index as int,
                            init_state_v(paren_opened),
                            operand_first_tokens(),
                        ),
                        final(self).error,
                    ) {
                        (Err(ev), Some(se)) => se@ == ev && final(self).err_msg@ == render_msg(
                            ev,
                        ),
                        _ => false,
                    }
                },
            },
        decreases self.text@.len() - self.index, 2int,
    {
        let ghost s0 = self.text@;
        let ghost i0 = self.index as int;
        let mut state = State::new(paren_opened);
        let mut next_tokens = make_next_tokens(
            &[TokenType::Number, TokenType::UnaryOperator, TokenType::ParenthesisOpen],
        );
        proof {
            assert(valid_prefix(next_tokens@) == operand_first_tokens());
        }
        loop
            invariant_except_break
                acc_reachable(valid_prefix(next_tokens@)),
                run(s0, i0, init_state_v(paren_opened), operand_first_tokens()) == run(
                    s0,
                    self.index as int,
                    state@,
                    valid_prefix(next_tokens@),
                ),
            invariant
                self.wf(),
                self.text == old(self).text,
                s0 == self.text@,
                i0 == old(self).index as int,
                i0 <= self.index as int <= s0.len(),
                self.error is None,
                self.err_msg@.len() == 0,
                self.err_msg == old(self).err_msg,
                state.wf(),
                next_tokens_wf(next_tokens@),
                tokens_canonical(next_tokens@),
            ensures
                self.wf(),
                self.text == old(self).text,
                s0 == self.text@,
                i0 <= self.index as int <= s0.len(),
                self.error is None,
                self.err_msg@.len() == 0,
                self.err_msg == old(self).err_msg,
                state.wf(),
                run(s0, i0, init_state_v(paren_opened), operand_first_tokens())
                    == Ok::<(StateV, int), ErrV>((fold_all(state@), self.index as int)),
            decreases s0.len() - self.index,
        {
            let ghost pre_index = self.index as int;
            let ghost pre_state = state@;
            let ghost acc = valid_prefix(next_tokens@);
            match self.parse_next_token(&mut state, &next_tokens) {
                Ok(next) => {
                    proof {
                        match step(s0, pre_index, pre_state, acc) {
                            StepV::Next { st, at, acc: acc2 } => {
                                assert(run(s0, pre_index, pre_state, acc) == run(
                                    s0,
                                    at,
                                    st,
                                    acc2,
                                ));
                            },
                            StepV::Done { st, end } => {
                                assert(run(s0, pre_index, pre_state, acc)
                                    == Ok::<(StateV, int), ErrV>((fold_all(st), end)));
                            },
                            StepV::Fail { .. } => {
                                assert(false);
                            },
                        }
                        lemma_canonical_prefix(next@);
                    }
                    next_tokens = next;
                    if next_tokens[0].is_none() {
                        break;
                    }
                },
                Err(_) => {
                    proof {
                        match step(s0, pre_index, pre_state, acc) {
                            StepV::Fail { err } => {
                                assert(run(s0, pre_index, pre_state, acc) == Err::<
                                    (StateV, int),
                                    ErrV,
                                >(err));
                            },
                            _ => {
                                assert(false);
                            },
                        }
                    }
                    if self.error.is_none() {
                        self.generate_parse_failed_err_msg(&next_tokens);
                    }
                    return Err(());
                },
            }
        }
        state.calcuate_op_list_all();
        Ok(state)
    }

    /// Records the syntax error for the current position: the kinds that
    /// the given acceptable set holds, the character found (or end of
    /// input), and the rendered message.
    pub fn generate_parse_failed_err_msg(&mut self, next_tokens: &NextTokens)
        requires
            old(self).wf(),
        ensures
            final(self).wf(),
            final(self).text == old(self).text,
            final(self).index == old(self).index,
            match final(self).error {
                Some(se) => {
                    &&& se@ == err_at(
                        old(self).text@,
                        old(self).index as int,
                        valid_prefix(next_tokens@),
                    )
                    &&& final(self).err_msg@ == render_msg(se@)
                },
                None => false,
            },
    {
        let valid = get_valid_tokens(next_tokens.as_slice());
        let found = self.peek();
        let err = SyntaxError { position: self.index, expected: valid, found };
        let msg = err.message();
        self.err_msg = msg;
        self.error = Some(err);
    }
}

} // verus!
