//! The mathematical model of one evaluation pass.
//!
//! These specification functions describe, over a `Seq<char>`, exactly what
//! the parser consumes and what it computes: the lexical scans, the
//! precedence-slot folding, and the acceptable-token state machine.  The
//! executable code in `parser` is proved to agree with `run` below.

use vstd::prelude::*;
use crate::ast::{ConstName, ExprV, empty_literal_v};
use crate::tokens::TokenType;

verus! {

// ---------------------------------------------------------------------------
// Character classes
// ---------------------------------------------------------------------------

/// A decimal digit `0`..=`9`.
pub open spec fn is_digit_char(c: char) -> bool {
    48 <= c as int && c as int <= 57
}

/// The numeric value of a decimal digit character.
pub open spec fn digit_value(c: char) -> u8 {
    (c as int - 48) as u8
}

/// A character with the Unicode `White_Space` property, the set that
/// `char::is_whitespace` accepts.
pub open spec fn is_space_char(c: char) -> bool {
    let u = c as int;
    ||| u == 9
    ||| u == 10
    ||| u == 11
    ||| u == 12
    ||| u == 13
    ||| u == 32
    ||| u == 0x85
    ||| u == 0xA0
    ||| u == 0x1680
    ||| (0x2000 <= u && u <= 0x200A)
    ||| u == 0x2028
    ||| u == 0x2029
    ||| u == 0x202F
    ||| u == 0x205F
    ||| u == 0x3000
}

/// A unary sign character.
pub open spec fn is_unary_char(c: char) -> bool {
    c == '+' || c == '-'
}

/// An infix operator character.
pub open spec fn is_infix_char(c: char) -> bool {
    c == '+' || c == '-' || c == '*' || c == '/' || c == '^'
}

/// The precedence level of an infix operator: additive 0, multiplicative 1,
/// exponentiation 2.
pub open spec fn prec_char(c: char) -> int {
    if c == '+' || c == '-' {
        0
    } else if c == '*' || c == '/' {
        1
    } else {
        2
    }
}

// ---------------------------------------------------------------------------
// Lexical scans
// ---------------------------------------------------------------------------

/// The position at which the run of whitespace starting at `i` ends.
pub open spec fn skip_ws(s: Seq<char>, i: int) -> int
    decreases s.len() - i when 0 <= i <= s.len()
{
    if i < s.len() && is_space_char(s[i]) {
        skip_ws(s, i + 1)
    } else {
        i
    }
}

/// The position at which the maximal run of digits starting at `i` ends.
pub open spec fn scan_digits(s: Seq<char>, i: int) -> int
    decreases s.len() - i when 0 <= i <= s.len()
{
    if i < s.len() && is_digit_char(s[i]) {
        scan_digits(s, i + 1)
    } else {
        i
    }
}

/// The digit values of `s[from..to]`.
pub open spec fn digit_seq(s: Seq<char>, from: int, to: int) -> Seq<u8> {
    Seq::new((to - from) as nat, |k: int| digit_value(s[from + k]))
}

/// What the number-literal recognizer consumes at `i`: the digit values of
/// the integer part and of the fractional part, and the end position.  A
/// radix point is part of the literal only when a digit stands before it or
/// immediately after it; a bare `.` is no number.  `None` when no digit is
/// found at all.
pub open spec fn scan_number(s: Seq<char>, i: int) -> Option<(Seq<u8>, Seq<u8>, int)> {
    let j = scan_digits(s, i);
    if j > i {
        if j < s.len() && s[j] == '.' {
            let k = scan_digits(s, j + 1);
            Some((digit_seq(s, i, j), digit_seq(s, j + 1, k), k))
        } else {
            Some((digit_seq(s, i, j), Seq::empty(), j))
        }
    } else {
        if i + 1 < s.len() && s[i] == '.' && is_digit_char(s[i + 1]) {
            let k = scan_digits(s, i + 1);
            Some((Seq::empty(), digit_seq(s, i + 1, k), k))
        } else {
            None
        }
    }
}

/// The characters of a constant's name.
pub open spec fn const_chars(name: ConstName) -> Seq<char> {
    match name {
        ConstName::Tau => seq!['t', 'a', 'u'],
        ConstName::Pi => seq!['p', 'i'],
        ConstName::E => seq!['e'],
    }
}

/// Whether the input at `i` begins with the given literal.
pub open spec fn lit_matches(s: Seq<char>, i: int, lit: Seq<char>) -> bool {
    &&& 0 <= i
    &&& i + lit.len() <= s.len()
    &&& forall|k: int| 0 <= k < lit.len() ==> s[i + k] == lit[k]
}

/// What the constant recognizer consumes at `i`: the names are tried in the
/// fixed order `tau`, `pi`, `e`.
pub open spec fn scan_constant(s: Seq<char>, i: int) -> Option<(ConstName, int)> {
    if lit_matches(s, i, const_chars(ConstName::Tau)) {
        Some((ConstName::Tau, i + 3))
    } else if lit_matches(s, i, const_chars(ConstName::Pi)) {
        Some((ConstName::Pi, i + 2))
    } else if lit_matches(s, i, const_chars(ConstName::E)) {
        Some((ConstName::E, i + 1))
    } else {
        None
    }
}

/// What the number recognizer (constant first, then literal) produces at
/// `i`: the operand's tree and the end position.
pub open spec fn number_leaf(s: Seq<char>, i: int) -> Option<(ExprV, int)> {
    match scan_constant(s, i) {
        Some((name, end)) => Some((ExprV::Constant { name }, end)),
        None => match scan_number(s, i) {
            Some((ints, fracs, end)) => Some(
                (ExprV::Literal { int_digits: ints, frac_digits: fracs }, end),
            ),
            None => None,
        },
    }
}

// ---------------------------------------------------------------------------
// Evaluation state and precedence folding
// ---------------------------------------------------------------------------

/// The view of a deferred binary operation: its left operand and operator.
pub struct OperationV {
    pub num: ExprV,
    pub op: char,
}

/// The view of the evaluation state: one pending-operation slot per
/// precedence level, the pending unary sign, the accumulator, the precedence
/// of the last infix operator read, and whether this (sub-)expression is
/// parenthesis-scoped.
pub struct StateV {
    pub op_list: Seq<Option<OperationV>>,
    pub unary: bool,
    pub num: ExprV,
    pub op_prec: int,
    pub paren_opened: bool,
}

/// A well-formed state: three precedence slots and a valid last precedence.
pub open spec fn state_wf_v(st: StateV) -> bool {
    &&& st.op_list.len() == 3
    &&& 0 <= st.op_prec <= 2
}

/// The state a fresh (sub-)expression evaluation starts from.
pub open spec fn init_state_v(paren_opened: bool) -> StateV {
    StateV {
        op_list: seq![None, None, None],
        unary: false,
        num: empty_literal_v(),
        op_prec: 0,
        paren_opened,
    }
}

/// The tree for applying a binary operator to two operands.
pub open spec fn apply_binary(op: char, left: ExprV, right: ExprV) -> ExprV {
    ExprV::Binary { op, left: Box::new(left), right: Box::new(right) }
}

/// Folding the slot of level `p`: if a pending operation occupies it, its
/// operator is applied to its stored left operand and the accumulator, the
/// result becomes the accumulator, and the slot is cleared.
pub open spec fn fold_at(st: StateV, p: int) -> StateV {
    match st.op_list[p] {
        Some(o) => StateV {
            num: apply_binary(o.op, o.num, st.num),
            op_list: st.op_list.update(p, None),
            ..st
        },
        None => st,
    }
}

/// Folding every slot from level 2 down to level `p`.
pub open spec fn fold_upper(st: StateV, p: int) -> StateV
    decreases 3 - p,
{
    if p >= 3 {
        st
    } else {
        fold_at(fold_upper(st, p + 1), p)
    }
}

/// Folding every slot, from the highest precedence down to the lowest.
pub open spec fn fold_all(st: StateV) -> StateV {
    fold_upper(st, 0)
}

/// The state transition for reading an infix operator `c`: fold the slot of
/// the same level when the previous operator had it, fold everything when
/// stepping down in precedence, then defer `{accumulator, c}` in the slot of
/// `c`'s level.  The accumulator is left blank until the next operand.
pub open spec fn infix_step(st: StateV, c: char) -> StateV {
    let p = prec_char(c);
    let st1 = if st.op_prec == p {
        fold_at(st, p)
    } else if st.op_prec > p {
        fold_all(st)
    } else {
        st
    };
    StateV {
        op_list: st1.op_list.update(p, Some(OperationV { num: st1.num, op: c })),
        op_prec: p,
        num: empty_literal_v(),
        ..st1
    }
}

/// The state transition for reading a unary sign: a minus toggles the
/// pending sign, a plus leaves it.
pub open spec fn toggle_unary(st: StateV, c: char) -> StateV {
    if c == '-' {
        StateV { unary: !st.unary, ..st }
    } else {
        st
    }
}

/// Applying the pending unary sign to the operand just read, exactly once.
pub open spec fn apply_unary(st: StateV) -> StateV {
    if st.unary {
        StateV { num: ExprV::Negate { inner: Box::new(st.num) }, unary: false, ..st }
    } else {
        st
    }
}

// ---------------------------------------------------------------------------
// The acceptable-token state machine
// ---------------------------------------------------------------------------

/// The set acceptable at the start of an expression and after an infix
/// operator or a unary sign.
pub open spec fn operand_first_tokens() -> Seq<TokenType> {
    seq![TokenType::Number, TokenType::UnaryOperator, TokenType::ParenthesisOpen]
}

/// The set acceptable after a complete operand.
pub open spec fn after_operand_tokens(paren_opened: bool) -> Seq<TokenType> {
    if paren_opened {
        seq![TokenType::InfixOperator, TokenType::ParenthesisClose]
    } else {
        seq![TokenType::InfixOperator, TokenType::Eof]
    }
}

/// An acceptable set the state machine can actually reach while running.
pub open spec fn acc_reachable(acc: Seq<TokenType>) -> bool {
    ||| acc == operand_first_tokens()
    ||| acc == after_operand_tokens(true)
    ||| acc == after_operand_tokens(false)
}

/// Whether the recognizer for kind `t` matches at position `i`.  Token kinds
/// are lexically disjoint, so at most one recognizer of an acceptable set
/// matches at a position.
pub open spec fn token_matches(s: Seq<char>, i: int, t: TokenType) -> bool {
    match t {
        TokenType::Number => number_leaf(s, i) is Some,
        TokenType::UnaryOperator => i < s.len() && is_unary_char(s[i]),
        TokenType::InfixOperator => i < s.len() && is_infix_char(s[i]),
        TokenType::ParenthesisOpen => i < s.len() && s[i] == '(',
        TokenType::ParenthesisClose => i < s.len() && s[i] == ')',
        TokenType::Eof => i >= s.len(),
    }
}

/// The first kind of `acc`, in order, whose recognizer matches at `i`.
pub open spec fn first_match(s: Seq<char>, i: int, acc: Seq<TokenType>) -> Option<TokenType>
    decreases acc.len(),
{
    if acc.len() == 0 {
        None
    } else if token_matches(s, i, acc[0]) {
        Some(acc[0])
    } else {
        first_match(s, i, acc.drop_first())
    }
}

// ---------------------------------------------------------------------------
// Errors
// ---------------------------------------------------------------------------

/// The view of a syntax error: where it happened, which kinds were
/// acceptable there (in order), and what stood there instead.
pub struct ErrV {
    pub pos: int,
    pub expected: Seq<TokenType>,
    pub found: Option<char>,
}

/// The character at position `i`, or `None` at end of input.
pub open spec fn found_at(s: Seq<char>, i: int) -> Option<char> {
    if 0 <= i < s.len() {
        Some(s[i])
    } else {
        None
    }
}

/// The syntax error reported when none of `acc` matches at `i`.
pub open spec fn err_at(s: Seq<char>, i: int, acc: Seq<TokenType>) -> ErrV {
    ErrV { pos: i, expected: acc, found: found_at(s, i) }
}

// ---------------------------------------------------------------------------
// The driver
// ---------------------------------------------------------------------------

/// The outcome of consuming one token.
pub enum StepV {
    /// A terminal token (`Eof`, or `)` in a parenthesis-scoped call) was
    /// consumed; the expression is complete at `end`.
    Done { st: StateV, end: int },
    /// An ordinary token was consumed; continue at `at` with set `acc`.
    Next { st: StateV, at: int, acc: Seq<TokenType> },
    /// No acceptable token matched, or a nested expression failed.
    Fail { err: ErrV },
}

/// One step of the evaluator: the first matching recognizer of `acc`
/// consumes input and transforms the state.  Whitespace is skipped after a
/// number, a constant or an infix operator, never after a unary sign or a
/// parenthesis.
pub open spec fn step(s: Seq<char>, i: int, st: StateV, acc: Seq<TokenType>) -> StepV
    decreases s.len() - i, 0int when 0 <= i <= s.len() via step_decreases
{
    match first_match(s, i, acc) {
        None => StepV::Fail { err: err_at(s, i, acc) },
        Some(t) => match t {
            TokenType::Eof => StepV::Done { st, end: i },
            TokenType::ParenthesisClose => StepV::Done { st, end: i + 1 },
            TokenType::Number => match number_leaf(s, i) {
                Some((leaf, end)) => StepV::Next {
                    st: apply_unary(StateV { num: leaf, ..st }),
                    at: skip_ws(s, end),
                    acc: after_operand_tokens(st.paren_opened),
                },
                None => StepV::Fail { err: err_at(s, i, acc) },
            },
            TokenType::UnaryOperator => StepV::Next {
                st: toggle_unary(st, s[i]),
                at: i + 1,
                acc: operand_first_tokens(),
            },
            TokenType::InfixOperator => StepV::Next {
                st: infix_step(st, s[i]),
                at: skip_ws(s, i + 1),
                acc: operand_first_tokens(),
            },
            TokenType::ParenthesisOpen => match run(
                s,
                i + 1,
                init_state_v(true),
                operand_first_tokens(),
            ) {
                Ok((inner, end)) => StepV::Next {
                    st: apply_unary(StateV { num: inner.num, ..st }),
                    at: end,
                    acc: after_operand_tokens(st.paren_opened),
                },
                Err(e) => StepV::Fail { err: e },
            },
        },
    }
}

#[via_fn]
proof fn step_decreases(s: Seq<char>, i: int, st: StateV, acc: Seq<TokenType>) {
    lemma_first_match_spec(s, i, acc);
}

/// A whole evaluation from position `i`: steps are taken until a terminal
/// token completes the expression (the remaining slots are then folded from
/// the highest precedence down) or no acceptable token matches.
pub open spec fn run(s: Seq<char>, i: int, st: StateV, acc: Seq<TokenType>) -> Result<
    (StateV, int),
    ErrV,
>
    decreases s.len() - i, 1int when 0 <= i <= s.len()
{
    match step(s, i, st, acc) {
        StepV::Done { st: st2, end } => Ok((fold_all(st2), end)),
        StepV::Fail { err } => Err(err),
        StepV::Next { st: st2, at, acc: acc2 } => if i < at <= s.len() {
            run(s, at, st2, acc2)
        } else {
            Err(err_at(s, i, acc))
        },
    }
}

/// What evaluating a whole input denotes: the tree of the expression, or
/// the first syntax error.
pub open spec fn evaluate_model(s: Seq<char>) -> Result<ExprV, ErrV> {
    match run(s, 0, init_state_v(false), operand_first_tokens()) {
        Ok((st, _end)) => Ok(st.num),
        Err(e) => Err(e),
    }
}

// ---------------------------------------------------------------------------
// Bounds lemmas
// ---------------------------------------------------------------------------

pub proof fn lemma_skip_ws_bounds(s: Seq<char>, i: int)
    requires
        0 <= i <= s.len(),
    ensures
        i <= skip_ws(s, i) <= s.len(),
    decreases s.len() - i,
{
    if i < s.len() && is_space_char(s[i]) {
        lemma_skip_ws_bounds(s, i + 1);
    }
}

/// A maximal run of whitespace from `i` to `j` is exactly what `skip_ws`
/// passes over.
pub proof fn lemma_skip_ws_run(s: Seq<char>, i: int, j: int)
    requires
        0 <= i <= j <= s.len(),
        forall|k: int| i <= k < j ==> is_space_char(s[k]),
        j < s.len() ==> !is_space_char(s[j]),
    ensures
        skip_ws(s, i) == j,
    decreases j - i,
{
    if i < j {
        assert(is_space_char(s[i]));
        lemma_skip_ws_run(s, i + 1, j);
    }
}

pub proof fn lemma_scan_digits_bounds(s: Seq<char>, i: int)
    requires
        0 <= i <= s.len(),
    ensures
        i <= scan_digits(s, i) <= s.len(),
    decreases s.len() - i,
{
    if i < s.len() && is_digit_char(s[i]) {
        lemma_scan_digits_bounds(s, i + 1);
    }
}

/// A successful number or constant scan consumes at least one character and
/// stays within the input.
pub proof fn lemma_number_leaf_bounds(s: Seq<char>, i: int)
    requires
        0 <= i <= s.len(),
    ensures
        match number_leaf(s, i) {
            Some((_leaf, end)) => i < end <= s.len(),
            None => true,
        },
{
    match scan_constant(s, i) {
        Some((name, _end)) => {
            assert(const_chars(name).len() >= 1);
        },
        None => {
            lemma_scan_digits_bounds(s, i);
            let j = scan_digits(s, i);
            if j > i {
                if j < s.len() && s[j] == '.' {
                    lemma_scan_digits_bounds(s, j + 1);
                }
            } else {
                if i + 1 < s.len() && s[i] == '.' && is_digit_char(s[i + 1]) {
                    lemma_scan_digits_bounds(s, i + 1);
                }
            }
        },
    }
}

/// The kind `first_match` picks does match, and a `None` answer means that
/// no kind of the set matches.
pub proof fn lemma_first_match_spec(s: Seq<char>, i: int, acc: Seq<TokenType>)
    ensures
        match first_match(s, i, acc) {
            Some(t) => token_matches(s, i, t) && acc.contains(t),
            None => forall|k: int| 0 <= k < acc.len() ==> !token_matches(s, i, acc[k]),
        },
    decreases acc.len(),
{
    if acc.len() == 0 {
    } else if token_matches(s, i, acc[0]) {
    } else {
        lemma_first_match_spec(s, i, acc.drop_first());
        match first_match(s, i, acc.drop_first()) {
            Some(t) => {
                assert(acc.drop_first().contains(t));
                let k = choose|k: int|
                    0 <= k < acc.drop_first().len() && acc.drop_first()[k] == t;
                assert(acc[k + 1] == t);
            },
            None => {
                assert forall|k: int| 0 <= k < acc.len() implies !token_matches(
                    s,
                    i,
                    acc[k],
                ) by {
                    if k > 0 {
                        assert(acc.drop_first()[k - 1] == acc[k]);
                    }
                }
            },
        }
    }
}

/// When the kinds before `k` fail to match and `acc[k]` matches,
/// `first_match` picks `acc[k]`.
pub proof fn lemma_first_match_found(s: Seq<char>, i: int, acc: Seq<TokenType>, k: int)
    requires
        0 <= k < acc.len(),
        forall|j: int| 0 <= j < k ==> !token_matches(s, i, acc[j]),
        token_matches(s, i, acc[k]),
    ensures
        first_match(s, i, acc) == Some(acc[k]),
    decreases k,
{
    if k == 0 {
    } else {
        assert(!token_matches(s, i, acc[0]));
        assert forall|j: int| 0 <= j < k - 1 implies !token_matches(
            s,
            i,
            acc.drop_first()[j],
        ) by {
            assert(acc.drop_first()[j] == acc[j + 1]);
        }
        assert(acc.drop_first()[k - 1] == acc[k]);
        lemma_first_match_found(s, i, acc.drop_first(), k - 1);
    }
}

/// When no kind of the set matches, `first_match` finds nothing.
pub proof fn lemma_first_match_none(s: Seq<char>, i: int, acc: Seq<TokenType>)
    requires
        forall|j: int| 0 <= j < acc.len() ==> !token_matches(s, i, acc[j]),
    ensures
        first_match(s, i, acc) is None,
    decreases acc.len(),
{
    if acc.len() > 0 {
        assert forall|j: int| 0 <= j < acc.drop_first().len() implies !token_matches(
            s,
            i,
            acc.drop_first()[j],
        ) by {
            assert(acc.drop_first()[j] == acc[j + 1]);
        }
        lemma_first_match_none(s, i, acc.drop_first());
    }
}

/// Every `Next` step advances the position; every `Done` step stays within
/// the input.
pub proof fn lemma_step_bounds(s: Seq<char>, i: int, st: StateV, acc: Seq<TokenType>)
    requires
        0 <= i <= s.len(),
    ensures
        match step(s, i, st, acc) {
            StepV::Next { at, .. } => i < at <= s.len(),
            StepV::Done { end, .. } => i <= end <= s.len(),
            StepV::Fail { .. } => true,
        },
    decreases s.len() - i, 0int,
{
    lemma_first_match_spec(s, i, acc);
    match first_match(s, i, acc) {
        None => {},
        Some(t) => match t {
            TokenType::Eof => {},
            TokenType::ParenthesisClose => {},
            TokenType::Number => {
                lemma_number_leaf_bounds(s, i);
                match number_leaf(s, i) {
                    Some((_leaf, end)) => {
                        lemma_skip_ws_bounds(s, end);
                    },
                    None => {},
                }
            },
            TokenType::UnaryOperator => {},
            TokenType::InfixOperator => {
                lemma_skip_ws_bounds(s, i + 1);
            },
            TokenType::ParenthesisOpen => {
                lemma_run_bounds(s, i + 1, init_state_v(true), operand_first_tokens());
            },
        },
    }
}

/// A successful run never retreats and ends within the input.
pub proof fn lemma_run_bounds(s: Seq<char>, i: int, st: StateV, acc: Seq<TokenType>)
    requires
        0 <= i <= s.len(),
    ensures
        match run(s, i, st, acc) {
            Ok((_st, end)) => i <= end <= s.len(),
            Err(_) => true,
        },
    decreases s.len() - i, 1int,
{
    lemma_step_bounds(s, i, st, acc);
    match step(s, i, st, acc) {
        StepV::Done { .. } => {},
        StepV::Fail { .. } => {},
        StepV::Next { st: st2, at, acc: acc2 } => {
            if i < at <= s.len() {
                lemma_run_bounds(s, at, st2, acc2);
            }
        },
    }
}

} // verus!
