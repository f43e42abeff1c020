//! Stated properties of the evaluator.
//!
//! The main results: evaluating a parenthesis-free input yields the
//! precedence folding of its scanned operand/operator sequence; and on
//! sequences whose folds are *clean* (no step-down in precedence ever
//! folds a pending operation of a still lower precedence level), that
//! folding computes exactly the conventional precedence parse tree,
//! evaluated bottom-up.  The cleanness restriction is real: on `2+3^2*4`
//! the evaluator folds the pending `+` when it reads `*`, grouping the
//! expression as `(2+3^2)*4`, while the parse tree groups it as
//! `2+((3^2)*4)`.  Re-evaluation is also shown to be free of hidden
//! state.

use vstd::prelude::*;
use crate::ast::ExprV;
use crate::model::{
    StateV, OperationV, init_state_v, infix_step, fold_at, fold_upper, fold_all, prec_char,
    is_infix_char, is_unary_char, apply_binary, evaluate_model, ErrV, number_leaf, skip_ws,
    run, step, StepV, first_match, token_matches, operand_first_tokens, after_operand_tokens,
    apply_unary, acc_reachable, lemma_first_match_spec,
    toggle_unary, err_at, lemma_number_leaf_bounds, lemma_skip_ws_bounds, lemma_first_match_found,
    lemma_first_match_none,
};
use crate::tokens::TokenType;

verus! {

/// All entries are infix operator characters.
pub open spec fn ops_wf(ops: Seq<char>) -> bool {
    forall|k: int| 0 <= k < ops.len() ==> is_infix_char(ops[k])
}

/// The state after feeding `operands[lo]`, `ops[lo]`, `operands[lo+1]`,
/// ..., `ops[hi-1]`, `operands[hi]` to the precedence folding, starting
/// from `st`.  Each operand becomes the accumulator; each operator passes
/// through `infix_step`.
pub open spec fn run_range(
    st: StateV,
    operands: Seq<ExprV>,
    ops: Seq<char>,
    lo: int,
    hi: int,
) -> StateV
    decreases hi - lo when lo <= hi
{
    let st1 = StateV { num: operands[lo], ..st };
    if lo >= hi {
        st1
    } else {
        run_range(infix_step(st1, ops[lo]), operands, ops, lo + 1, hi)
    }
}

/// What the evaluator's precedence folding computes from a scanned
/// operand/operator sequence: run the slots over the tokens, then fold the
/// remaining levels from the highest down.  `infix_step` and `fold_all`
/// are the very transitions `Context::eval_expression` is proved to
/// perform for each infix operator and at the end of an expression.
pub open spec fn fold_eval(operands: Seq<ExprV>, ops: Seq<char>) -> ExprV {
    fold_all(run_range(init_state_v(false), operands, ops, 0, ops.len() as int)).num
}

/// The index of the last operator of precedence `p` in `ops[lo..hi)`, or
/// -1 when the range holds none.
pub open spec fn last_op_at(ops: Seq<char>, lo: int, hi: int, p: int) -> int
    decreases hi - lo when lo <= hi
{
    if hi <= lo {
        -1
    } else if prec_char(ops[hi - 1]) == p {
        hi - 1
    } else {
        last_op_at(ops, lo, hi - 1, p)
    }
}

/// The conventional precedence parse tree of `operands[lo..=hi]` joined by
/// `ops[lo..hi)`, at precedence level `p`: the expression splits at the
/// last operator of the lowest precedence present, so operators of one
/// level associate to the left, and higher levels bind tighter.
pub open spec fn tree_eval_range(
    operands: Seq<ExprV>,
    ops: Seq<char>,
    lo: int,
    hi: int,
    p: int,
) -> ExprV
    decreases hi - lo, 3 - p when lo <= hi && p <= 3
{
    if p >= 3 || lo >= hi {
        operands[lo]
    } else {
        let k = last_op_at(ops, lo, hi, p);
        if !(lo <= k < hi) {
            tree_eval_range(operands, ops, lo, hi, p + 1)
        } else {
            apply_binary(
                ops[k],
                tree_eval_range(operands, ops, lo, k, p),
                tree_eval_range(operands, ops, k + 1, hi, p + 1),
            )
        }
    }
}

/// The conventional precedence parse tree of a whole sequence, evaluated
/// bottom-up.
pub open spec fn tree_eval(operands: Seq<ExprV>, ops: Seq<char>) -> ExprV {
    tree_eval_range(operands, ops, 0, ops.len() as int, 0)
}

/// No pending operation below level `p`.
pub open spec fn lower_slots_empty(st: StateV, p: int) -> bool {
    forall|q: int| 0 <= q < p ==> st.op_list[q] is None
}

/// A clean run from `st` over `ops[lo..hi)`: whenever an operator's
/// precedence steps down from the previous operator's, no operation of a
/// still lower level is pending, so the fold-everything rule folds exactly
/// the levels at or above the new operator.
pub open spec fn clean_from(
    st: StateV,
    operands: Seq<ExprV>,
    ops: Seq<char>,
    lo: int,
    hi: int,
) -> bool {
    forall|k: int| lo <= k < hi ==> #[trigger] clean_at(st, operands, ops, lo, k)
}

/// The fold for `ops[k]` is clean in the run from `st` starting at `lo`.
pub open spec fn clean_at(
    st: StateV,
    operands: Seq<ExprV>,
    ops: Seq<char>,
    lo: int,
    k: int,
) -> bool {
    let stk = run_range(st, operands, ops, lo, k);
    prec_char(ops[k]) < stk.op_prec ==> lower_slots_empty(stk, prec_char(ops[k]))
}

/// A clean sequence: its whole run from the initial state is clean.
pub open spec fn clean_ops(operands: Seq<ExprV>, ops: Seq<char>) -> bool {
    clean_from(init_state_v(false), operands, ops, 0, ops.len() as int)
}

// ---------------------------------------------------------------------------
// Helper lemmas
// ---------------------------------------------------------------------------

/// A run splits at any interior operator.
proof fn lemma_run_range_compose(
    st: StateV,
    operands: Seq<ExprV>,
    ops: Seq<char>,
    lo: int,
    mid: int,
    hi: int,
)
    requires
        lo <= mid < hi,
    ensures
        run_range(st, operands, ops, lo, hi) == run_range(
            infix_step(run_range(st, operands, ops, lo, mid), ops[mid]),
            operands,
            ops,
            mid + 1,
            hi,
        ),
    decreases mid - lo,
{
    if lo == mid {
    } else {
        let st2 = infix_step(StateV { num: operands[lo], ..st }, ops[lo]);
        lemma_run_range_compose(st2, operands, ops, lo + 1, mid, hi);
    }
}

/// Folding from level 2 down to `p` touches only the slots at or above
/// `p`, clears them, and keeps every other field's role: the pending
/// operations below `p`, the last precedence, the sign and the scope flag.
proof fn lemma_fold_upper_props(st: StateV, p: int)
    requires
        0 <= p <= 3,
        st.op_list.len() == 3,
    ensures
        fold_upper(st, p).op_list.len() == 3,
        forall|q: int| 0 <= q < p ==> fold_upper(st, p).op_list[q] == st.op_list[q],
        forall|q: int| p <= q < 3 ==> fold_upper(st, p).op_list[q] is None,
        fold_upper(st, p).op_prec == st.op_prec,
        fold_upper(st, p).unary == st.unary,
        fold_upper(st, p).paren_opened == st.paren_opened,
    decreases 3 - p,
{
    if p < 3 {
        lemma_fold_upper_props(st, p + 1);
    }
}

/// Folding levels that hold nothing changes nothing.
proof fn lemma_fold_upper_id(st: StateV, p: int)
    requires
        0 <= p <= 3,
        st.op_list.len() == 3,
        forall|q: int| p <= q < 3 ==> st.op_list[q] is None,
    ensures
        fold_upper(st, p) == st,
    decreases 3 - p,
{
    if p < 3 {
        lemma_fold_upper_id(st, p + 1);
    }
}

/// When nothing is pending below level `p`, folding everything is folding
/// the levels at or above `p`.
proof fn lemma_fold_all_as_upper(st: StateV, p: int)
    requires
        0 <= p <= 3,
        st.op_list.len() == 3,
        lower_slots_empty(st, p),
    ensures
        fold_all(st) == fold_upper(st, p),
    decreases p,
{
    if p > 0 {
        lemma_fold_upper_props(st, p);
        assert(fold_upper(st, p - 1) == fold_at(fold_upper(st, p), p - 1));
        assert(fold_upper(st, p).op_list[p - 1] == st.op_list[p - 1]);
        assert(fold_upper(st, p - 1) == fold_upper(st, p));
        lemma_fold_all_as_upper(st, p - 1);
    }
}

/// What `last_op_at` finds: either no operator of level `p` stands in the
/// range, or the found one is the last of its level.
proof fn lemma_last_op_at(ops: Seq<char>, lo: int, hi: int, p: int)
    requires
        lo <= hi,
    ensures
        last_op_at(ops, lo, hi, p) == -1 || (lo <= last_op_at(ops, lo, hi, p) < hi
            && prec_char(ops[last_op_at(ops, lo, hi, p)]) == p),
        forall|j: int|
            lo <= j < hi && last_op_at(ops, lo, hi, p) < j ==> prec_char(ops[j]) != p,
    decreases hi - lo,
{
    if hi > lo && prec_char(ops[hi - 1]) != p {
        lemma_last_op_at(ops, lo, hi - 1, p);
        let k = last_op_at(ops, lo, hi, p);
        assert(k == last_op_at(ops, lo, hi - 1, p));
        assert forall|j: int| lo <= j < hi && k < j implies prec_char(ops[j]) != p by {
            if j < hi - 1 {
                assert(prec_char(ops[j]) != p);
            }
        }
    }
}

/// The shape of the state after `infix_step`, once the folding it performs
/// is known to leave the slots `base` and the accumulator `left`: the new
/// operation is deferred at its operator's level and the rest of `base`
/// stays.
proof fn lemma_infix_step_shape(stm: StateV, c: char, base: Seq<Option<OperationV>>, left: ExprV)
    requires
        base.len() == 3,
        0 <= prec_char(c) <= 2,
        ({
            let p = prec_char(c);
            let st1 = if stm.op_prec == p {
                fold_at(stm, p)
            } else if stm.op_prec > p {
                fold_all(stm)
            } else {
                stm
            };
            st1.op_list == base && st1.num == left
        }),
    ensures
        infix_step(stm, c).op_list.len() == 3,
        infix_step(stm, c).op_list[prec_char(c)] == Some(OperationV { num: left, op: c }),
        forall|q: int|
            0 <= q < 3 && q != prec_char(c) ==> infix_step(stm, c).op_list[q] == base[q],
        infix_step(stm, c).op_prec == prec_char(c),
{
}

/// Folding level `p` when its slot holds `{left, c}` and the accumulator
/// holds `right` applies the deferred operation and clears the slot.
proof fn lemma_fold_join(
    stp: StateV,
    p: int,
    c: char,
    left: ExprV,
    right: ExprV,
    base: Seq<Option<OperationV>>,
)
    requires
        0 <= p <= 2,
        base.len() == 3,
        fold_upper(stp, p + 1).op_list.len() == 3,
        fold_upper(stp, p + 1).op_list[p] == Some(OperationV { num: left, op: c }),
        forall|q: int| 0 <= q < 3 && q != p ==> fold_upper(stp, p + 1).op_list[q] == base[q],
        fold_upper(stp, p + 1).num == right,
        base[p] is None,
    ensures
        fold_upper(stp, p).num == apply_binary(c, left, right),
        fold_upper(stp, p).op_list =~= base,
{
    assert(fold_upper(stp, p) == fold_at(fold_upper(stp, p + 1), p));
}

// ---------------------------------------------------------------------------
// The main result
// ---------------------------------------------------------------------------

/// Running the folding over `ops[lo..hi)` — all of precedence at least `p`
/// — from a state whose levels at or above `p` are free builds, once those
/// levels are folded back down, exactly the precedence parse tree of the
/// range, provided the run is clean.  The pending operations below `p`
/// (the enclosing context) pass through untouched.
proof fn lemma_run_builds_tree(
    st: StateV,
    operands: Seq<ExprV>,
    ops: Seq<char>,
    lo: int,
    hi: int,
    p: int,
)
    requires
        0 <= lo <= hi <= ops.len(),
        operands.len() == ops.len() + 1,
        0 <= p <= 3,
        st.op_list.len() == 3,
        st.op_prec <= p,
        forall|q: int| p <= q < 3 ==> st.op_list[q] is None,
        forall|j: int| lo <= j < hi ==> prec_char(ops[j]) >= p,
        clean_from(st, operands, ops, lo, hi),
    ensures
        ({
            let stp = run_range(st, operands, ops, lo, hi);
            &&& stp.op_list.len() == 3
            &&& (forall|q: int| 0 <= q < p ==> stp.op_list[q] == st.op_list[q])
            &&& (lo < hi ==> p <= stp.op_prec <= 2)
            &&& (lo == hi ==> stp.op_prec == st.op_prec)
            &&& (forall|q: int| stp.op_prec < q < 3 && p <= q ==> stp.op_list[q] is None)
            &&& fold_upper(stp, p).num == tree_eval_range(operands, ops, lo, hi, p)
            &&& fold_upper(stp, p).op_list == st.op_list
        }),
    decreases hi - lo, 3 - p,
{
    let stp = run_range(st, operands, ops, lo, hi);
    if lo == hi {
        assert(stp == StateV { num: operands[lo], ..st });
        lemma_fold_upper_id(stp, p);
        assert(tree_eval_range(operands, ops, lo, hi, p) == operands[lo]);
    } else {
        assert(prec_char(ops[lo]) <= 2);
        assert(p <= 2);
        lemma_last_op_at(ops, lo, hi, p);
        let k = last_op_at(ops, lo, hi, p);
        if k == -1 {
            assert forall|j: int| lo <= j < hi implies prec_char(ops[j]) >= p + 1 by {
                assert(prec_char(ops[j]) != p);
            }
            lemma_run_builds_tree(st, operands, ops, lo, hi, p + 1);
            lemma_fold_upper_props(stp, p + 1);
            assert(fold_upper(stp, p + 1).op_list[p] == st.op_list[p]);
            assert(fold_upper(stp, p) == fold_at(fold_upper(stp, p + 1), p));
            assert(fold_upper(stp, p) == fold_upper(stp, p + 1));
            assert(tree_eval_range(operands, ops, lo, hi, p) == tree_eval_range(
                operands,
                ops,
                lo,
                hi,
                p + 1,
            ));
        } else {
            // the range splits at `k`, its last operator of level `p`
            assert(lo <= k < hi && prec_char(ops[k]) == p);
            // the left part of the split
            assert forall|j: int| lo <= j < k implies #[trigger] clean_at(
                st,
                operands,
                ops,
                lo,
                j,
            ) by {
                assert(clean_at(st, operands, ops, lo, j));
            }
            lemma_run_builds_tree(st, operands, ops, lo, k, p);
            let stm = run_range(st, operands, ops, lo, k);
            let left = tree_eval_range(operands, ops, lo, k, p);
            // reading `ops[k]` folds the levels at or above `p` and defers
            // `{left value, ops[k]}` at level `p`
            let st1 = if stm.op_prec == p {
                fold_at(stm, p)
            } else if stm.op_prec > p {
                fold_all(stm)
            } else {
                stm
            };
            if lo == k {
                assert(stm == StateV { num: operands[lo], ..st });
                lemma_fold_upper_id(stm, p);
                if stm.op_prec == p {
                    assert(st1 == fold_at(stm, p));
                    assert(stm.op_list[p] is None);
                    assert(st1 == stm);
                }
                assert(st1 == fold_upper(stm, p));
            } else {
                if stm.op_prec == p {
                    lemma_fold_upper_id(stm, p + 1);
                    assert(fold_upper(stm, p) == fold_at(stm, p));
                    assert(st1 == fold_upper(stm, p));
                } else {
                    assert(p <= stm.op_prec);
                    assert(stm.op_prec > p);
                    assert(clean_at(st, operands, ops, lo, k));
                    assert(lower_slots_empty(stm, p));
                    lemma_fold_all_as_upper(stm, p);
                    assert(st1 == fold_upper(stm, p));
                }
            }
            assert(st1.num == left);
            assert(st1.op_list == st.op_list);
            lemma_infix_step_shape(stm, ops[k], st.op_list, left);
            let stn = infix_step(stm, ops[k]);
            assert(stn.op_list.len() == 3);
            assert(stn.op_list[p] == Some(OperationV { num: left, op: ops[k] }));
            assert(stn.op_prec == p);
            // the right part of the split, one level up
            assert forall|j: int| k < j < hi implies prec_char(ops[j]) >= p + 1 by {
                assert(prec_char(ops[j]) != p);
            }
            assert forall|j: int| k + 1 <= j < hi implies #[trigger] clean_at(
                stn,
                operands,
                ops,
                k + 1,
                j,
            ) by {
                lemma_run_range_compose(st, operands, ops, lo, k, j);
                assert(run_range(stn, operands, ops, k + 1, j) == run_range(
                    st,
                    operands,
                    ops,
                    lo,
                    j,
                ));
                assert(clean_at(st, operands, ops, lo, j));
            }
            assert forall|q: int| p + 1 <= q < 3 implies stn.op_list[q] is None by {
                assert(stn.op_list[q] == st.op_list[q]);
            }
            lemma_run_builds_tree(stn, operands, ops, k + 1, hi, p + 1);
            lemma_run_range_compose(st, operands, ops, lo, k, hi);
            assert(stp == run_range(stn, operands, ops, k + 1, hi));
            let right = tree_eval_range(operands, ops, k + 1, hi, p + 1);
            // folding level `p` joins the two parts
            lemma_fold_upper_props(stp, p + 1);
            assert(fold_upper(stp, p + 1).op_list == stn.op_list);
            assert(fold_upper(stp, p + 1).num == right);
            lemma_fold_join(stp, p, ops[k], left, right, st.op_list);
            assert(fold_upper(stp, p).num == apply_binary(ops[k], left, right));
            assert(tree_eval_range(operands, ops, lo, hi, p) == apply_binary(
                ops[k],
                left,
                right,
            ));
            assert(fold_upper(stp, p).op_list == st.op_list);
            // the remaining shape of the state
            if k + 1 == hi {
                assert(stp == StateV { num: operands[hi], ..stn });
            }
            assert forall|q: int| 0 <= q < p implies stp.op_list[q] == st.op_list[q] by {
                assert(stp.op_list[q] == stn.op_list[q]);
            }
        }
    }
}

/// The evaluator's precedence folding agrees with the conventional
/// precedence parse tree, evaluated bottom-up, on every operand/operator
/// sequence whose folds are clean.  On other sequences the two differ: a
/// precedence step-down folds every pending operation, including those of
/// levels below the new operator.
pub proof fn lemma_folding_matches_tree(operands: Seq<ExprV>, ops: Seq<char>)
    requires
        operands.len() == ops.len() + 1,
        ops_wf(ops),
        clean_ops(operands, ops),
    ensures
        fold_eval(operands, ops) == tree_eval(operands, ops),
{
    lemma_run_builds_tree(init_state_v(false), operands, ops, 0, ops.len() as int, 0);
    let stp = run_range(init_state_v(false), operands, ops, 0, ops.len() as int);
    assert(fold_all(stp) == fold_upper(stp, 0));
}

// ---------------------------------------------------------------------------
// From parenthesis-free inputs to token sequences
// ---------------------------------------------------------------------------

/// No opening parenthesis anywhere in the input, so an evaluation never
/// nests.
pub open spec fn paren_free(s: Seq<char>) -> bool {
    forall|k: int| 0 <= k < s.len() ==> s[k] != '('
}

/// The operand the evaluator reads at `i`: unary signs first (each minus
/// toggles the pending negation `neg`), then a number or a constant, then
/// the whitespace after it.  The value and the position after it, or
/// `None` when no operand stands at `i`.
pub open spec fn flat_operand(s: Seq<char>, i: int, neg: bool) -> Option<(ExprV, int)>
    decreases s.len() - i when 0 <= i <= s.len()
{
    if i < s.len() && is_unary_char(s[i]) && number_leaf(s, i) is None {
        flat_operand(s, i + 1, if s[i] == '-' { !neg } else { neg })
    } else {
        match number_leaf(s, i) {
            Some((leaf, end)) => Some(
                (
                    if neg {
                        ExprV::Negate { inner: Box::new(leaf) }
                    } else {
                        leaf
                    },
                    skip_ws(s, end),
                ),
            ),
            None => None,
        }
    }
}

/// What follows a complete operand in a parenthesis-free expression: pairs
/// of an infix operator (with the whitespace after it) and a further
/// operand, until the end of the input.  The collected operators and
/// operands, or `None` on a malformed rest.
pub open spec fn flat_rest(s: Seq<char>, i: int) -> Option<(Seq<char>, Seq<ExprV>)>
    decreases s.len() - i when 0 <= i <= s.len()
{
    if i >= s.len() {
        Some((Seq::empty(), Seq::empty()))
    } else if is_infix_char(s[i]) {
        let j = skip_ws(s, i + 1);
        if i < j <= s.len() {
            match flat_operand(s, j, false) {
                Some((e, j2)) => if j2 <= s.len() && i < j2 {
                    match flat_rest(s, j2) {
                        Some((ops, operands)) => Some(
                            (seq![s[i]] + ops, seq![e] + operands),
                        ),
                        None => None,
                    }
                } else {
                    None
                },
                None => None,
            }
        } else {
            None
        }
    } else {
        None
    }
}

/// The operand/operator sequence of a whole parenthesis-free expression.
pub open spec fn flat_expression(s: Seq<char>) -> Option<(Seq<ExprV>, Seq<char>)> {
    match flat_operand(s, 0, false) {
        Some((e, j)) => match flat_rest(s, j) {
            Some((ops, operands)) => Some((seq![e] + operands, ops)),
            None => None,
        },
        None => None,
    }
}

/// Dropping the first operand and operator re-bases a run.
proof fn lemma_run_range_shift(
    st: StateV,
    operands: Seq<ExprV>,
    ops: Seq<char>,
    lo: int,
    hi: int,
)
    requires
        1 <= lo <= hi <= ops.len(),
        ops.len() + 1 == operands.len(),
    ensures
        run_range(st, operands, ops, lo, hi) == run_range(
            st,
            operands.drop_first(),
            ops.drop_first(),
            lo - 1,
            hi - 1,
        ),
    decreases hi - lo,
{
    assert(operands.drop_first()[lo - 1] == operands[lo]);
    if lo < hi {
        assert(ops.drop_first()[lo - 1] == ops[lo]);
        lemma_run_range_shift(
            infix_step(StateV { num: operands[lo], ..st }, ops[lo]),
            operands,
            ops,
            lo + 1,
            hi,
        );
    }
}

/// At an operand position of a parenthesis-free input, a successful run
/// consumes exactly the operand `flat_operand` describes, negations
/// applied, and continues after it expecting an infix operator or the end.
proof fn lemma_flat_phase_a(s: Seq<char>, i: int, st: StateV)
    requires
        0 <= i <= s.len(),
        paren_free(s),
        st.paren_opened == false,
        run(s, i, st, operand_first_tokens()) is Ok,
    ensures
        flat_operand(s, i, st.unary) is Some,
        ({
            let (e, j) = flat_operand(s, i, st.unary)->Some_0;
            &&& i < j <= s.len()
            &&& run(s, i, st, operand_first_tokens()) == run(
                s,
                j,
                (StateV { num: e, unary: false, ..st }),
                after_operand_tokens(false),
            )
        }),
    decreases s.len() - i,
{
    let acc = operand_first_tokens();
    assert(acc[0] == TokenType::Number);
    assert(acc[1] == TokenType::UnaryOperator);
    assert(acc[2] == TokenType::ParenthesisOpen);
    if i < s.len() && is_unary_char(s[i]) && number_leaf(s, i) is None {
        assert(!token_matches(s, i, TokenType::Number));
        assert(token_matches(s, i, TokenType::UnaryOperator));
        lemma_first_match_found(s, i, acc, 1);
        assert(step(s, i, st, acc) == StepV::Next {
            st: toggle_unary(st, s[i]),
            at: i + 1,
            acc: operand_first_tokens(),
        });
        let stt = toggle_unary(st, s[i]);
        assert(run(s, i, st, acc) == run(s, i + 1, stt, operand_first_tokens()));
        lemma_flat_phase_a(s, i + 1, stt);
        let (e, j) = flat_operand(s, i + 1, stt.unary)->Some_0;
        assert(flat_operand(s, i, st.unary) == flat_operand(s, i + 1, stt.unary));
        assert((StateV { num: e, unary: false, ..stt }) == (StateV {
            num: e,
            unary: false,
            ..st
        }));
    } else {
        match number_leaf(s, i) {
            Some((leaf, end)) => {
                assert(token_matches(s, i, TokenType::Number));
                lemma_first_match_found(s, i, acc, 0);
                lemma_number_leaf_bounds(s, i);
                lemma_skip_ws_bounds(s, end);
                assert(step(s, i, st, acc) == StepV::Next {
                    st: apply_unary(StateV { num: leaf, ..st }),
                    at: skip_ws(s, end),
                    acc: after_operand_tokens(false),
                });
                let j = skip_ws(s, end);
                assert(run(s, i, st, acc) == run(
                    s,
                    j,
                    apply_unary(StateV { num: leaf, ..st }),
                    after_operand_tokens(false),
                ));
                let (e, j2) = flat_operand(s, i, st.unary)->Some_0;
                assert(j2 == j);
                assert(apply_unary(StateV { num: leaf, ..st }) == (StateV {
                    num: e,
                    unary: false,
                    ..st
                }));
            },
            None => {
                assert forall|k: int| 0 <= k < acc.len() implies !token_matches(
                    s,
                    i,
                    acc[k],
                ) by {
                    if i < s.len() {
                        assert(s[i] != '(');
                    }
                }
                lemma_first_match_none(s, i, acc);
                assert(step(s, i, st, acc) == StepV::Fail { err: err_at(s, i, acc) });
                assert(false);
            },
        }
    }
}

/// An `infix_step` keeps three slots, and clears neither the sign nor the
/// scope flag.
proof fn lemma_infix_step_keeps_shape(st: StateV, c: char)
    requires
        st.op_list.len() == 3,
    ensures
        infix_step(st, c).op_list.len() == 3,
        infix_step(st, c).unary == st.unary,
        infix_step(st, c).paren_opened == st.paren_opened,
{
    lemma_fold_upper_props(st, 0);
    let p = prec_char(c);
    assert(0 <= p < 3);
    assert(fold_at(st, p).op_list.len() == 3);
}

/// After a complete operand of a parenthesis-free input, a successful run
/// reads exactly the operator/operand pairs `flat_rest` describes and then
/// folds everything that is pending: the outcome is the slot-fold of the
/// collected token sequence, ending at the input's end.
proof fn lemma_flat_phase_b(s: Seq<char>, i: int, st: StateV)
    requires
        0 <= i <= s.len(),
        paren_free(s),
        st.paren_opened == false,
        st.unary == false,
        st.op_list.len() == 3,
        run(s, i, st, after_operand_tokens(false)) is Ok,
    ensures
        flat_rest(s, i) is Some,
        ({
            let (ops, operands) = flat_rest(s, i)->Some_0;
            let all_operands = seq![st.num] + operands;
            &&& operands.len() == ops.len()
            &&& ops_wf(ops)
            &&& run(s, i, st, after_operand_tokens(false)) == Ok::<(StateV, int), ErrV>((
                fold_all(run_range(st, all_operands, ops, 0, ops.len() as int)),
                s.len() as int,
            ))
        }),
    decreases s.len() - i,
{
    let acc = after_operand_tokens(false);
    assert(acc[0] == TokenType::InfixOperator);
    assert(acc[1] == TokenType::Eof);
    if i >= s.len() {
        assert(token_matches(s, i, TokenType::Eof));
        assert(!token_matches(s, i, TokenType::InfixOperator));
        lemma_first_match_found(s, i, acc, 1);
        assert(step(s, i, st, acc) == StepV::Done { st, end: i });
        assert(run(s, i, st, acc) == Ok::<(StateV, int), ErrV>((fold_all(st), i)));
        let all_operands = seq![st.num] + Seq::<ExprV>::empty();
        assert(all_operands[0] == st.num);
        assert(run_range(st, all_operands, Seq::<char>::empty(), 0, 0) == (StateV {
            num: st.num,
            ..st
        }));
        assert((StateV { num: st.num, ..st }) == st);
    } else if is_infix_char(s[i]) {
        let c = s[i];
        assert(token_matches(s, i, TokenType::InfixOperator));
        lemma_first_match_found(s, i, acc, 0);
        lemma_skip_ws_bounds(s, i + 1);
        let j = skip_ws(s, i + 1);
        let sti = infix_step(st, c);
        lemma_infix_step_keeps_shape(st, c);
        assert(step(s, i, st, acc) == StepV::Next {
            st: sti,
            at: j,
            acc: operand_first_tokens(),
        });
        assert(run(s, i, st, acc) == run(s, j, sti, operand_first_tokens()));
        lemma_flat_phase_a(s, j, sti);
        let (e, j2) = flat_operand(s, j, false)->Some_0;
        let stb = StateV { num: e, unary: false, ..sti };
        assert(run(s, j, sti, operand_first_tokens()) == run(s, j2, stb, acc));
        lemma_flat_phase_b(s, j2, stb);
        let (ops2, operands2) = flat_rest(s, j2)->Some_0;
        assert(flat_rest(s, i) == Some::<(Seq<char>, Seq<ExprV>)>(
            (seq![c] + ops2, seq![e] + operands2),
        ));
        let ops = seq![c] + ops2;
        let operands = seq![e] + operands2;
        let all_operands = seq![st.num] + operands;
        let all2 = seq![stb.num] + operands2;
        let n2 = ops2.len() as int;
        assert(ops_wf(ops)) by {
            assert forall|k: int| 0 <= k < ops.len() implies is_infix_char(ops[k]) by {
                if k > 0 {
                    assert(ops[k] == ops2[k - 1]);
                }
            }
        }
        // the collected run starts by deferring `{st.num, c}` and goes on
        // from `stb`
        assert(all_operands[0] == st.num);
        assert(ops[0] == c);
        assert((StateV { num: st.num, ..st }) == st);
        assert(run_range(st, all_operands, ops, 0, n2 + 1) == run_range(
            sti,
            all_operands,
            ops,
            1,
            n2 + 1,
        ));
        lemma_run_range_shift(sti, all_operands, ops, 1, n2 + 1);
        assert(all_operands.drop_first() =~= all2);
        assert(ops.drop_first() =~= ops2);
        assert(run_range(sti, all2, ops2, 0, n2) == run_range(stb, all2, ops2, 0, n2)) by {
            assert(all2[0] == stb.num);
            assert((StateV { num: all2[0], ..sti }) == (StateV { num: all2[0], ..stb }));
            if n2 > 0 {
                assert(run_range(sti, all2, ops2, 0, n2) == run_range(
                    infix_step(StateV { num: all2[0], ..sti }, ops2[0]),
                    all2,
                    ops2,
                    1,
                    n2,
                ));
                assert(run_range(stb, all2, ops2, 0, n2) == run_range(
                    infix_step(StateV { num: all2[0], ..stb }, ops2[0]),
                    all2,
                    ops2,
                    1,
                    n2,
                ));
            }
        }
    } else {
        assert forall|k: int| 0 <= k < acc.len() implies !token_matches(s, i, acc[k]) by {}
        lemma_first_match_none(s, i, acc);
        assert(step(s, i, st, acc) == StepV::Fail { err: err_at(s, i, acc) });
        assert(false);
    }
}

/// What evaluating a parenthesis-free input yields is exactly the
/// precedence folding of its scanned operand/operator sequence.
pub proof fn lemma_paren_free_evaluation_is_fold(s: Seq<char>)
    requires
        paren_free(s),
        evaluate_model(s) is Ok,
    ensures
        flat_expression(s) is Some,
        ({
            let (operands, ops) = flat_expression(s)->Some_0;
            &&& operands.len() == ops.len() + 1
            &&& ops_wf(ops)
            &&& evaluate_model(s) == Ok::<ExprV, ErrV>(fold_eval(operands, ops))
        }),
{
    let init = init_state_v(false);
    assert(run(s, 0, init, operand_first_tokens()) is Ok);
    lemma_flat_phase_a(s, 0, init);
    let (e, j) = flat_operand(s, 0, false)->Some_0;
    let stb = StateV { num: e, unary: false, ..init };
    assert(stb.op_list.len() == 3);
    lemma_flat_phase_b(s, j, stb);
    let (ops, operands2) = flat_rest(s, j)->Some_0;
    let operands = seq![e] + operands2;
    let all2 = seq![stb.num] + operands2;
    let n = ops.len() as int;
    assert(all2 =~= operands);
    assert(operands[0] == e);
    assert(run_range(init, operands, ops, 0, n) == run_range(stb, operands, ops, 0, n)) by {
        assert((StateV { num: operands[0], ..init }) == (StateV { num: operands[0], ..stb }));
        if n > 0 {
            assert(run_range(init, operands, ops, 0, n) == run_range(
                infix_step(StateV { num: operands[0], ..init }, ops[0]),
                operands,
                ops,
                1,
                n,
            ));
            assert(run_range(stb, operands, ops, 0, n) == run_range(
                infix_step(StateV { num: operands[0], ..stb }, ops[0]),
                operands,
                ops,
                1,
                n,
            ));
        }
    }
}

/// The end-to-end form of the equivalence: a parenthesis-free input whose
/// scanned sequence folds cleanly evaluates to the conventional precedence
/// parse tree of that sequence, built bottom-up.
pub proof fn lemma_paren_free_evaluation_matches_tree(s: Seq<char>)
    requires
        paren_free(s),
        evaluate_model(s) is Ok,
        (match flat_expression(s) {
            Some((operands, ops)) => clean_ops(operands, ops),
            None => true,
        }),
    ensures
        flat_expression(s) is Some,
        ({
            let (operands, ops) = flat_expression(s)->Some_0;
            evaluate_model(s) == Ok::<ExprV, ErrV>(tree_eval(operands, ops))
        }),
{
    lemma_paren_free_evaluation_is_fold(s);
    let (operands, ops) = flat_expression(s)->Some_0;
    lemma_folding_matches_tree(operands, ops);
}

/// A step never fails with an empty acceptable set, and every set it
/// moves to is again a reachable one.
proof fn lemma_step_err_expected(s: Seq<char>, i: int, st: StateV, acc: Seq<TokenType>)
    requires
        0 <= i <= s.len(),
        acc_reachable(acc),
    ensures
        match step(s, i, st, acc) {
            StepV::Fail { err } => acc_reachable(err.expected),
            StepV::Next { acc: acc2, .. } => acc_reachable(acc2),
            StepV::Done { .. } => true,
        },
    decreases s.len() - i, 0int,
{
    lemma_first_match_spec(s, i, acc);
    match first_match(s, i, acc) {
        None => {},
        Some(t) => match t {
            TokenType::ParenthesisOpen => {
                lemma_run_err_expected(s, i + 1, init_state_v(true), operand_first_tokens());
            },
            _ => {},
        },
    }
}

/// A failed run always reports one of the reachable acceptable-token
/// sets; in particular the expected kinds are never empty.
pub proof fn lemma_run_err_expected(s: Seq<char>, i: int, st: StateV, acc: Seq<TokenType>)
    requires
        0 <= i <= s.len(),
        acc_reachable(acc),
    ensures
        match run(s, i, st, acc) {
            Err(e) => acc_reachable(e.expected) && e.expected.len() > 0,
            Ok(_) => true,
        },
    decreases s.len() - i, 1int,
{
    lemma_step_err_expected(s, i, st, acc);
    match step(s, i, st, acc) {
        StepV::Done { .. } => {},
        StepV::Fail { .. } => {},
        StepV::Next { st: st2, at, acc: acc2 } => {
            if i < at <= s.len() {
                lemma_run_err_expected(s, at, st2, acc2);
            }
        },
    }
}

/// What a whole failed evaluation reports is never an empty set of
/// expected kinds: a reachable state always accepts something.
pub proof fn lemma_error_expected_nonempty(s: Seq<char>)
    ensures
        match evaluate_model(s) {
            Err(e) => e.expected.len() > 0,
            Ok(_) => true,
        },
{
    lemma_run_err_expected(s, 0, init_state_v(false), operand_first_tokens());
}

/// Evaluation has no hidden state/// Evaluation has no hidden state/// Evaluation has no hidden state/// Evaluation has no hidden state/// Evaluation has no hidden state/// Evaluation has no hidden state: what an input denotes is a function of
/// its characters alone, so re-evaluating the same string always yields
/// the same outcome.
pub proof fn lemma_evaluate_deterministic(
    s: Seq<char>,
    r1: Result<ExprV, ErrV>,
    r2: Result<ExprV, ErrV>,
)
    requires
        r1 == evaluate_model(s),
        r2 == evaluate_model(s),
    ensures
        r1 == r2,
{
}

} // verus!
