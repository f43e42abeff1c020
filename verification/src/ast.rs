use vstd::prelude::*;

verus! {

/// A named constant the parser recognizes: `tau`, `pi` or `e`.
#[derive(Debug, Clone, Copy, PartialEq, Eq, Structural)]
pub enum ConstName {
    Tau,
    Pi,
    E,
}

/// An expression tree produced by one evaluation pass.
///
/// The evaluator works symbolically: rather than carrying a machine number
/// through the parse, it records exactly which operations the input denotes
/// and in which grouping the precedence rules resolved them.  A caller folds
/// the finished tree bottom-up with its numeric type of choice.
#[derive(Debug, PartialEq)]
pub enum Expr {
    /// A numeric literal, kept as its decimal digit values (each `0..=9`)
    /// before and after the radix point.
    Literal { int_digits: Vec<u8>, frac_digits: Vec<u8> },
    /// A named constant.
    Constant { name: ConstName },
    /// The value of the operand below it, negated by a unary minus.
    Negate { inner: Box<Expr> },
    /// A deferred binary operation; `op` is one of `+`, `-`, `*`, `/`, `^`.
    Binary { op: char, left: Box<Expr>, right: Box<Expr> },
}

/// The mathematical shape of an expression tree, used in contracts.
pub enum ExprV {
    Literal { int_digits: Seq<u8>, frac_digits: Seq<u8> },
    Constant { name: ConstName },
    Negate { inner: Box<ExprV> },
    Binary { op: char, left: Box<ExprV>, right: Box<ExprV> },
}

/// The view of an expression tree, structurally.
pub open spec fn expr_view(e: Expr) -> ExprV
    decreases e,
{
    match e {
        Expr::Literal { int_digits, frac_digits } => ExprV::Literal {
            int_digits: int_digits@,
            frac_digits: frac_digits@,
        },
        Expr::Constant { name } => ExprV::Constant { name },
        Expr::Negate { inner } => ExprV::Negate { inner: Box::new(expr_view(*inner)) },
        Expr::Binary { op, left, right } => ExprV::Binary {
            op,
            left: Box::new(expr_view(*left)),
            right: Box::new(expr_view(*right)),
        },
    }
}

impl View for Expr {
    type V = ExprV;

    open spec fn view(&self) -> ExprV {
        expr_view(*self)
    }
}

/// The placeholder value an accumulator holds before any operand was read.
/// It is never part of a finished tree: the grammar requires an operand
/// before anything could use the accumulator.
pub fn empty_literal() -> (result: Expr)
    ensures
        result@ == empty_literal_v(),
{
    Expr::Literal { int_digits: Vec::new(), frac_digits: Vec::new() }
}

/// The view of the placeholder accumulator value.
pub open spec fn empty_literal_v() -> ExprV {
    ExprV::Literal { int_digits: Seq::empty(), frac_digits: Seq::empty() }
}

} // verus!
