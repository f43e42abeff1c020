//! Evaluating whole expressions: precedence, associativity, unary signs,
//! parentheses, constants and floating-point edge cases.

use rustcalc::{evaluate, ConstName, Expr};

/// Folds an expression tree with `f64` arithmetic, mirroring how the
/// numeric accumulation is conventionally done: positional digits for the
/// integer part, scaled digits for the fractional part, IEEE-754 semantics
/// for the operators.
fn fold(e: &Expr) -> f64 {
    match e {
        Expr::Literal { int_digits, frac_digits } => {
            let mut result: f64 = 0.0;
            for d in int_digits {
                result = result * 10.0 + *d as f64;
            }
            let mut decimal: f64 = 1.0;
            for d in frac_digits {
                decimal *= 0.1;
                result += *d as f64 * decimal;
            }
            result
        }
        Expr::Constant { name } => match name {
            ConstName::Tau => std::f64::consts::TAU,
            ConstName::Pi => std::f64::consts::PI,
            ConstName::E => std::f64::consts::E,
        },
        Expr::Negate { inner } => -fold(inner),
        Expr::Binary { op, left, right } => {
            let l = fold(left);
            let r = fold(right);
            match op {
                '+' => l + r,
                '-' => l - r,
                '*' => l * r,
                '/' => l / r,
                '^' => l.powf(r),
                _ => panic!("unknown operator {}", op),
            }
        }
    }
}

fn eval(s: &str) -> f64 {
    fold(&evaluate(s).unwrap())
}

#[test]
fn multiplication_binds_before_addition() {
    assert_eq!(eval("2+3*4"), 14.0);
}

#[test]
fn fold_on_precedence_step_down() {
    assert_eq!(eval("2*3+4"), 10.0);
}

#[test]
fn exponentiation_is_left_associative() {
    // `^` folds like the other operators: (2^3)^2, not 2^(3^2)
    assert_eq!(eval("2^3^2"), 64.0);
}

#[test]
fn parenthesis_overrides_precedence() {
    assert_eq!(eval("(1+2)*3"), 9.0);
}

#[test]
fn chained_unary_signs_toggle() {
    assert_eq!(eval("--2"), 2.0);
    assert_eq!(eval("+-2"), -2.0);
    assert_eq!(eval("-2"), -2.0);
    assert_eq!(eval("+2"), 2.0);
    assert_eq!(eval("---3"), -3.0);
}

#[test]
fn constants_with_sign_and_precedence() {
    let got = eval("1 + -pi * tau");
    let want = 1.0 + (-std::f64::consts::PI) * std::f64::consts::TAU;
    assert!((got - want).abs() < 1e-12, "got {}, want {}", got, want);
}

#[test]
fn constant_values() {
    assert_eq!(eval("pi"), std::f64::consts::PI);
    assert_eq!(eval("tau"), std::f64::consts::TAU);
    assert_eq!(eval("e"), std::f64::consts::E);
}

#[test]
fn evaluation_is_repeatable() {
    let a = evaluate("3.5*(2-pi)^2");
    let b = evaluate("3.5*(2-pi)^2");
    assert_eq!(a, b);
    let c = evaluate("3.5*(2-");
    let d = evaluate("3.5*(2-");
    assert_eq!(c.unwrap_err(), d.unwrap_err());
}

#[test]
fn leading_dot_literal() {
    assert_eq!(eval(".5"), 0.5);
}

#[test]
fn trailing_dot_literal() {
    assert_eq!(eval("5."), 5.0);
}

#[test]
fn fractional_literal() {
    assert!((eval("123.456") - 123.456).abs() < 1e-9);
}

#[test]
fn division_by_zero_is_infinite() {
    assert!(eval("1/0").is_infinite());
    assert!(eval("0-1/0").is_infinite());
}

#[test]
fn zero_over_zero_is_nan() {
    assert!(eval("0/0").is_nan());
}

#[test]
fn fractional_power_of_negative_base_is_nan() {
    assert!(eval("(0-1)^0.5").is_nan());
}

#[test]
fn nested_parentheses() {
    assert_eq!(eval("((2))"), 2.0);
    assert_eq!(eval("((1+2)*(3+4))"), 21.0);
}

#[test]
fn negated_parenthesized_value() {
    assert_eq!(eval("-(1+2)"), -3.0);
}

#[test]
fn unary_sign_after_exponent() {
    assert_eq!(eval("2^-1"), 0.5);
}

#[test]
fn whitespace_after_number_and_operator() {
    assert_eq!(eval("2 + 3"), 5.0);
    assert_eq!(eval("2  +  3 * 4"), 14.0);
    assert_eq!(eval("pi * 2"), std::f64::consts::TAU);
}

#[test]
fn step_down_folds_all_pending_levels() {
    // The fold-everything rule on a precedence step-down also folds the
    // pending lower-precedence `+`, so this groups as (2+3^2)*4, not as
    // the conventional 2+((3^2)*4) (which would be 38).
    assert_eq!(eval("2+3^2*4"), 44.0);
}

#[test]
fn clean_three_level_runs_match_the_tree() {
    assert_eq!(eval("1^2*3+4"), 7.0);
    assert_eq!(eval("1+2*3^4"), 163.0);
    assert_eq!(eval("2^3*3+1"), 25.0);
}

#[test]
fn same_level_chains_fold_left() {
    assert_eq!(eval("2-3-4"), -5.0);
    assert_eq!(eval("100/10/5"), 2.0);
    assert_eq!(eval("1-2+3"), 2.0);
}

#[test]
fn deeply_nested_parentheses() {
    assert_eq!(eval("((((1))))"), 1.0);
}

#[test]
fn every_operator_together() {
    // 1+2-3*4/5^2: ^ folds first on the step-down, then *, /, and the
    // additive chain folds left
    assert_eq!(eval("1+2-3*4/5^2"), 1.0 + 2.0 - 3.0 * 4.0 / 25.0);
}

#[test]
fn literal_tree_shape() {
    let e = evaluate("12.5").unwrap();
    assert_eq!(
        e,
        Expr::Literal { int_digits: vec![1, 2], frac_digits: vec![5] }
    );
}

#[test]
fn precedence_tree_shape() {
    // 2+3*4 must parse as 2 + (3 * 4)
    let e = evaluate("2+3*4").unwrap();
    match e {
        Expr::Binary { op, left, right } => {
            assert_eq!(op, '+');
            assert_eq!(*left, Expr::Literal { int_digits: vec![2], frac_digits: vec![] });
            match *right {
                Expr::Binary { op, .. } => assert_eq!(op, '*'),
                other => panic!("expected a product, got {:?}", other),
            }
        }
        other => panic!("expected a sum, got {:?}", other),
    }
}
