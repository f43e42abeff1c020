//! A single-line arithmetic expression evaluator.
//!
//! The parser reads an expression such as `2 + 3 * (4 - 1)` in one pass,
//! resolving operator precedence as it goes, and produces an expression
//! tree together with precise syntax errors that name the set of token
//! kinds that would have been accepted at the point of failure.
//!
//! The evaluation is symbolic: the result of a successful parse is an
//! [`ast::Expr`] tree recording exactly which operations the input denotes
//! and how the precedence rules grouped them.  A caller folds the tree with
//! its numeric type of choice.

use vstd::prelude::*;

pub mod ast;
pub mod errors;
pub mod laws;
pub mod model;
pub mod parser;
pub mod tokens;

pub use ast::{ConstName, Expr};
pub use errors::SyntaxError;
pub use parser::{Context, Operation, ParseError, ParseResult, State};
pub use tokens::{NextTokens, TokenType, get_valid_tokens, make_next_tokens};

verus! {

/// Evaluates one self-contained expression: returns its tree, or the first
/// syntax error, with the exact set of token kinds that would have been
/// accepted at the point of failure.
pub fn evaluate(input: &str) -> (r: Result<Expr, SyntaxError>)
    ensures
        match r {
            Ok(e) => model::evaluate_model(input@) == Ok::<ast::ExprV, model::ErrV>(e@),
            Err(err) => match model::evaluate_model(input@) {
                Err(ev) => err@ == ev,
                Ok(_) => false,
            },
        },
{
    let mut context = Context::new(input);
    match context.eval_expression(false) {
        Ok(state) => Ok(state.num),
        Err(_) => match context.error {
            Some(e) => Err(e),
            None => {
                proof {
                    assert(false);
                }
                Err(SyntaxError { position: 0, expected: Vec::new(), found: None })
            },
        },
    }
}

} // verus!
