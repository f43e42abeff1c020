use vstd::prelude::*;

verus! {

/// The kinds of tokens the parser can recognize at a position in the input.
#[derive(Debug, Clone, Copy, PartialEq, Eq, Structural)]
pub enum TokenType {
    Number,
    InfixOperator,
    UnaryOperator,
    ParenthesisOpen,
    ParenthesisClose,
    Eof,
}

/// How many slots an acceptable-token set has.  No acceptable set ever holds
/// more than five kinds, since `Eof` and `ParenthesisClose` never share a set
/// with all of the others.
pub const TOKEN_SLOTS: usize = 5;

/// An acceptable-token set: an ordered, fixed-capacity list of token kinds.
/// The kinds that are grammatically valid form a prefix of `Some` entries;
/// the remaining slots are `None`.
pub type NextTokens = Vec<Option<TokenType>>;

/// The ordered token kinds held in an acceptable-token set: the longest
/// prefix of entries that are `Some`, with the `Some` unwrapped.
pub open spec fn valid_prefix(ts: Seq<Option<TokenType>>) -> Seq<TokenType>
    decreases ts.len(),
{
    if ts.len() == 0 {
        Seq::empty()
    } else {
        match ts[0] {
            Option::None => Seq::empty(),
            Option::Some(t) => seq![t] + valid_prefix(ts.drop_first()),
        }
    }
}

/// A well-formed acceptable-token set: exactly `TOKEN_SLOTS` entries.
pub open spec fn next_tokens_wf(ts: Seq<Option<TokenType>>) -> bool {
    ts.len() == TOKEN_SLOTS
}

/// In a canonical set the empty slots form a suffix: nothing valid stands
/// after the first `None`.
pub open spec fn tokens_canonical(ts: Seq<Option<TokenType>>) -> bool {
    forall|j: int, k: int| 0 <= j < k < ts.len() && ts[j] is None ==> ts[k] is None
}

/// In a canonical set, the entries below the valid prefix's length hold the
/// prefix's kinds and the entries above it are all empty.
pub proof fn lemma_canonical_prefix(ts: Seq<Option<TokenType>>)
    requires
        tokens_canonical(ts),
    ensures
        valid_prefix(ts).len() <= ts.len(),
        forall|k: int| 0 <= k < valid_prefix(ts).len() ==> ts[k] == Option::Some(
            valid_prefix(ts)[k],
        ),
        forall|k: int| valid_prefix(ts).len() <= k < ts.len() ==> ts[k] is None,
    decreases ts.len(),
{
    if ts.len() == 0 {
    } else {
        match ts[0] {
            Option::None => {
                assert forall|k: int| 0 <= k < ts.len() implies ts[k] is None by {
                    if k > 0 {
                        assert(ts[0] is None);
                    }
                }
            },
            Option::Some(t) => {
                let rest = ts.drop_first();
                assert(tokens_canonical(rest)) by {
                    assert forall|j: int, k: int|
                        0 <= j < k < rest.len() && rest[j] is None implies rest[k] is None by {
                        assert(rest[j] == ts[j + 1]);
                        assert(rest[k] == ts[k + 1]);
                    }
                }
                lemma_canonical_prefix(rest);
                let vp = valid_prefix(ts);
                assert(vp == seq![t] + valid_prefix(rest));
                assert forall|k: int| 0 <= k < vp.len() implies ts[k] == Option::Some(
                    vp[k],
                ) by {
                    if k > 0 {
                        assert(rest[k - 1] == ts[k]);
                        assert(valid_prefix(rest)[k - 1] == vp[k]);
                    }
                }
                assert forall|k: int| vp.len() <= k < ts.len() implies ts[k] is None by {
                    assert(rest[k - 1] == ts[k]);
                }
            },
        }
    }
}

proof fn lemma_valid_prefix_unfold(ts: Seq<Option<TokenType>>, i: int)
    requires
        0 <= i < ts.len(),
    ensures
        valid_prefix(ts.skip(i)) == match ts[i] {
            Option::None => Seq::<TokenType>::empty(),
            Option::Some(t) => seq![t] + valid_prefix(ts.skip(i + 1)),
        },
{
    assert(ts.skip(i).len() == ts.len() - i);
    assert(ts.skip(i)[0] == ts[i]);
    assert(ts.skip(i).drop_first() =~= ts.skip(i + 1));
}

/// Builds an acceptable-token set from the given ordered kinds: the kinds
/// fill the leading slots and the rest of the set is empty.
pub fn make_next_tokens(tokens: &[TokenType]) -> (result: NextTokens)
    requires
        tokens@.len() <= TOKEN_SLOTS,
    ensures
        next_tokens_wf(result@),
        tokens_canonical(result@),
        valid_prefix(result@) == tokens@,
{
    let n = tokens.len();
    let mut result: NextTokens = Vec::new();
    let mut i: usize = 0;
    while i < n
        invariant
            n == tokens@.len() <= TOKEN_SLOTS,
            i <= n,
            result@.len() == i,
            forall|k: int| 0 <= k < i ==> result@[k] == Option::Some(tokens@[k]),
        decreases n - i,
    {
        result.push(Some(tokens[i]));
        i = i + 1;
    }
    while result.len() < TOKEN_SLOTS
        invariant
            n == tokens@.len() <= TOKEN_SLOTS,
            n <= result@.len() <= TOKEN_SLOTS,
            forall|k: int| 0 <= k < n ==> result@[k] == Option::Some(tokens@[k]),
            forall|k: int| n <= k < result@.len() ==> result@[k] == Option::<TokenType>::None,
        decreases TOKEN_SLOTS - result@.len(),
    {
        result.push(None);
    }
    proof {
        lemma_valid_prefix_filled(result@, tokens@, 0);
        assert(result@.skip(0) =~= result@);
        assert(tokens@.skip(0) =~= tokens@);
    }
    result
}

proof fn lemma_valid_prefix_filled(ts: Seq<Option<TokenType>>, tokens: Seq<TokenType>, i: int)
    requires
        0 <= i <= tokens.len() <= ts.len(),
        forall|k: int| 0 <= k < tokens.len() ==> ts[k] == Option::Some(tokens[k]),
        forall|k: int| tokens.len() <= k < ts.len() ==> ts[k] == Option::<TokenType>::None,
    ensures
        valid_prefix(ts.skip(i)) == tokens.skip(i),
    decreases tokens.len() - i,
{
    if i == tokens.len() {
        if i < ts.len() {
            lemma_valid_prefix_unfold(ts, i);
        } else {
            assert(ts.skip(i).len() == 0);
        }
        assert(tokens.skip(i) =~= Seq::<TokenType>::empty());
    } else {
        lemma_valid_prefix_unfold(ts, i);
        lemma_valid_prefix_filled(ts, tokens, i + 1);
        assert(tokens.skip(i) =~= seq![tokens[i]] + tokens.skip(i + 1));
    }
}

/// Extracts the ordered kinds held in an acceptable-token set: the prefix of
/// `Some` entries up to (and not including) the first empty slot.
pub fn get_valid_tokens(tokens: &[Option<TokenType>]) -> (result: Vec<TokenType>)
    ensures
        result@ == valid_prefix(tokens@),
{
    let n = tokens.len();
    let mut result: Vec<TokenType> = Vec::new();
    let mut i: usize = 0;
    proof {
        assert(tokens@.skip(0) =~= tokens@);
        assert(Seq::<TokenType>::empty() + valid_prefix(tokens@) =~= valid_prefix(tokens@));
    }
    loop
        invariant
            n == tokens@.len(),
            0 <= i <= n,
            valid_prefix(tokens@) == result@ + valid_prefix(tokens@.skip(i as int)),
        ensures
            result@ == valid_prefix(tokens@),
        decreases n - i,
    {
        if i == n {
            proof {
                assert(tokens@.skip(i as int).len() == 0);
                assert(result@ + Seq::<TokenType>::empty() =~= result@);
            }
            break;
        }
        proof {
            lemma_valid_prefix_unfold(tokens@, i as int);
        }
        match tokens[i] {
            Some(t) => {
                proof {
                    assert(result@ + (seq![t] + valid_prefix(tokens@.skip(i + 1)))
                        =~= (result@ + seq![t]) + valid_prefix(tokens@.skip(i + 1)));
                }
                result.push(t);
                i = i + 1;
            },
            None => {
                proof {
                    assert(result@ + Seq::<TokenType>::empty() =~= result@);
                }
                break;
            },
        }
    }
    result
}

} // verus!
