//! The syntax error a failed evaluation reports, and its rendering.

use vstd::prelude::*;
use vstd::string::StringExecFns;
use vstd::string::StrSliceExecFns;
use crate::model::ErrV;
use crate::tokens::TokenType;

verus! {

/// A syntax error: the position (in characters) at which no acceptable
/// token matched, the ordered set of token kinds that would have been
/// accepted there, and the character found instead (`None` at end of
/// input).
#[derive(Debug, PartialEq)]
pub struct SyntaxError {
    pub position: usize,
    pub expected: Vec<TokenType>,
    pub found: Option<char>,
}

impl View for SyntaxError {
    type V = ErrV;

    open spec fn view(&self) -> ErrV {
        ErrV { pos: self.position as int, expected: self.expected@, found: self.found }
    }
}

// ---------------------------------------------------------------------------
// The rendered message, as a specification
// ---------------------------------------------------------------------------

/// The display name of a token kind.
pub open spec fn token_name(t: TokenType) -> Seq<char> {
    match t {
        TokenType::Number => "Number"@,
        TokenType::InfixOperator => "InfixOperator"@,
        TokenType::UnaryOperator => "UnaryOperator"@,
        TokenType::ParenthesisOpen => "ParenthesisOpen"@,
        TokenType::ParenthesisClose => "ParenthesisClose"@,
        TokenType::Eof => "Eof"@,
    }
}

/// The names of the expected kinds, in order, separated by `", "`.
pub open spec fn joined_names(ts: Seq<TokenType>) -> Seq<char>
    decreases ts.len(),
{
    if ts.len() == 0 {
        Seq::empty()
    } else if ts.len() == 1 {
        token_name(ts[0])
    } else {
        token_name(ts[0]) + ", "@ + joined_names(ts.drop_first())
    }
}

/// The digit character for a value below ten.
pub open spec fn digit_char_of(d: int) -> char {
    if d == 0 {
        '0'
    } else if d == 1 {
        '1'
    } else if d == 2 {
        '2'
    } else if d == 3 {
        '3'
    } else if d == 4 {
        '4'
    } else if d == 5 {
        '5'
    } else if d == 6 {
        '6'
    } else if d == 7 {
        '7'
    } else if d == 8 {
        '8'
    } else {
        '9'
    }
}

/// The decimal rendering of a number.
pub open spec fn dec_digits(n: nat) -> Seq<char>
    decreases n,
{
    if n < 10 {
        seq![digit_char_of(n as int)]
    } else {
        dec_digits(n / 10) + seq![digit_char_of((n % 10) as int)]
    }
}

/// How the found character is quoted in the message, with `EOF` standing
/// for the end of the input.
pub open spec fn found_part(found: Option<char>) -> Seq<char> {
    match found {
        Some(c) => "\""@ + seq![c] + "\""@,
        None => "EOF"@,
    }
}

/// The message's opening words: plural only when several kinds were
/// acceptable.
pub open spec fn msg_header(expected: Seq<TokenType>) -> Seq<char> {
    if expected.len() <= 1 {
        "expected {"@
    } else {
        "expected one of {"@
    }
}

/// The whole rendered message for a syntax error.
pub open spec fn render_msg(e: ErrV) -> Seq<char> {
    msg_header(e.expected) + joined_names(e.expected) + "} but found "@ + found_part(e.found)
        + " at index "@ + dec_digits(e.pos as nat)
}

// ---------------------------------------------------------------------------
// Executable rendering
// ---------------------------------------------------------------------------

/// Relies on `String::from` for `char`: the returned string holds exactly
/// the one character it was given.
#[verifier::external_body]
fn char_to_string(c: char) -> (s: String)
    ensures
        s@ == seq![c],
{
    String::from(c)
}

/// The display name of a token kind, as a string slice.
fn token_name_str(t: TokenType) -> (r: &'static str)
    ensures
        r@ == token_name(t),
{
    match t {
        TokenType::Number => "Number",
        TokenType::InfixOperator => "InfixOperator",
        TokenType::UnaryOperator => "UnaryOperator",
        TokenType::ParenthesisOpen => "ParenthesisOpen",
        TokenType::ParenthesisClose => "ParenthesisClose",
        TokenType::Eof => "Eof",
    }
}

/// The digit character for a value below ten, as a string slice.
fn digit_str(d: u8) -> (r: &'static str)
    requires
        d < 10,
    ensures
        r@ == seq![digit_char_of(d as int)],
{
    proof {
        reveal_strlit("0");
        reveal_strlit("1");
        reveal_strlit("2");
        reveal_strlit("3");
        reveal_strlit("4");
        reveal_strlit("5");
        reveal_strlit("6");
        reveal_strlit("7");
        reveal_strlit("8");
        reveal_strlit("9");
    }
    let r: &'static str = if d == 0 {
        "0"
    } else if d == 1 {
        "1"
    } else if d == 2 {
        "2"
    } else if d == 3 {
        "3"
    } else if d == 4 {
        "4"
    } else if d == 5 {
        "5"
    } else if d == 6 {
        "6"
    } else if d == 7 {
        "7"
    } else if d == 8 {
        "8"
    } else {
        "9"
    };
    proof {
        assert(r@ =~= seq![digit_char_of(d as int)]);
    }
    r
}

/// Appends the decimal rendering of `n` to the string.
fn append_decimal(m: &mut String, n: usize)
    ensures
        final(m)@ == old(m)@ + dec_digits(n as nat),
    decreases n,
{
    if n >= 10 {
        append_decimal(m, n / 10);
    }
    let d: u8 = (n % 10) as u8;
    m.append(digit_str(d));
    proof {
        if n >= 10 {
            assert(m@ =~= old(m)@ + dec_digits(n as nat));
        } else {
            assert(m@ =~= old(m)@ + dec_digits(n as nat));
        }
    }
}

proof fn lemma_joined_unfold(ts: Seq<TokenType>, i: int)
    requires
        0 <= i < ts.len(),
    ensures
        joined_names(ts.skip(i)) == if i == ts.len() - 1 {
            token_name(ts[i])
        } else {
            token_name(ts[i]) + ", "@ + joined_names(ts.skip(i + 1))
        },
{
    assert(ts.skip(i).len() == ts.len() - i);
    assert(ts.skip(i)[0] == ts[i]);
    if i < ts.len() - 1 {
        assert(ts.skip(i).drop_first() =~= ts.skip(i + 1));
    }
}

impl SyntaxError {
    /// The human-readable form of this error, exactly as the evaluator
    /// records it: `expected one of {<kinds>} but found "<char>" at index
    /// <position>`, with `expected {` for a single kind and `EOF` for the
    /// end of the input.
    pub fn message(&self) -> (m: String)
        ensures
            m@ == render_msg(self@),
    {
        let n = self.expected.len();
        let mut m = if n <= 1 {
            String::from_str("expected {")
        } else {
            String::from_str("expected one of {")
        };
        let ghost header = msg_header(self.expected@);
        let mut i: usize = 0;
        proof {
            assert(self.expected@.skip(0) =~= self.expected@);
        }
        while i < n
            invariant
                n == self.expected@.len(),
                0 <= i <= n,
                m@ + joined_names(self.expected@.skip(i as int)) == header + joined_names(
                    self.expected@,
                ),
            decreases n - i,
        {
            proof {
                lemma_joined_unfold(self.expected@, i as int);
            }
            let ghost m_before = m@;
            m.append(token_name_str(self.expected[i]));
            if i + 1 < n {
                m.append(", ");
                proof {
                    assert(m@ + joined_names(self.expected@.skip(i + 1)) =~= m_before
                        + joined_names(self.expected@.skip(i as int)));
                }
            } else {
                proof {
                    assert(self.expected@.skip(i + 1).len() == 0);
                    assert(m@ + joined_names(self.expected@.skip(i + 1)) =~= m_before
                        + joined_names(self.expected@.skip(i as int)));
                }
            }
            i = i + 1;
        }
        proof {
            assert(self.expected@.skip(n as int).len() == 0);
            assert(m@ =~= header + joined_names(self.expected@));
        }
        m.append("} but found ");
        match self.found {
            Some(c) => {
                m.append("\"");
                let cs = char_to_string(c);
                m.append(cs.as_str());
                m.append("\"");
            },
            None => {
                m.append("EOF");
            },
        }
        m.append(" at index ");
        append_decimal(&mut m, self.position);
        proof {
            assert(m@ =~= render_msg(self@));
        }
        m
    }
}

} // verus!
