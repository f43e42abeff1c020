//! The precedence folding against a reference tree-based evaluator, on
//! generated expressions whose folds are clean (no precedence step-down
//! with a lower-level operation still pending; two precedence levels per
//! expression guarantee that).

use rustcalc::{evaluate, ConstName, Expr};

fn fold(e: &Expr) -> f64 {
    match e {
        Expr::Literal { int_digits, frac_digits } => {
            let mut result: f64 = 0.0;
            for d in int_digits {
                result = result * 10.0 + *d as f64;
            }
            let mut decimal: f64 = 1.0;
            for d in frac_digits {
                decimal *= 0.1;
                result += *d as f64 * decimal;
            }
            result
        }
        Expr::Constant { name } => match name {
            ConstName::Tau => std::f64::consts::TAU,
            ConstName::Pi => std::f64::consts::PI,
            ConstName::E => std::f64::consts::E,
        },
        Expr::Negate { inner } => -fold(inner),
        Expr::Binary { op, left, right } => {
            let l = fold(left);
            let r = fold(right);
            match op {
                '+' => l + r,
                '-' => l - r,
                '*' => l * r,
                '/' => l / r,
                '^' => l.powf(r),
                _ => panic!("unknown operator {}", op),
            }
        }
    }
}

fn prec(c: char) -> u32 {
    match c {
        '+' | '-' => 0,
        '*' | '/' => 1,
        _ => 2,
    }
}

fn apply(c: char, l: f64, r: f64) -> f64 {
    match c {
        '+' => l + r,
        '-' => l - r,
        '*' => l * r,
        '/' => l / r,
        _ => l.powf(r),
    }
}

/// Evaluates the conventional precedence parse tree of the token sequence
/// bottom-up: operators of one level associate to the left, higher levels
/// bind tighter.
fn tree_reference(vals: &[f64], ops: &[char]) -> f64 {
    let mut val_stack: Vec<f64> = vec![vals[0]];
    let mut op_stack: Vec<char> = Vec::new();
    for (i, &op) in ops.iter().enumerate() {
        while let Some(&top) = op_stack.last() {
            if prec(top) >= prec(op) {
                op_stack.pop();
                let r = val_stack.pop().unwrap();
                let l = val_stack.pop().unwrap();
                val_stack.push(apply(top, l, r));
            } else {
                break;
            }
        }
        op_stack.push(op);
        val_stack.push(vals[i + 1]);
    }
    while let Some(top) = op_stack.pop() {
        let r = val_stack.pop().unwrap();
        let l = val_stack.pop().unwrap();
        val_stack.push(apply(top, l, r));
    }
    val_stack.pop().unwrap()
}

struct Lcg(u64);

impl Lcg {
    fn next(&mut self) -> u64 {
        self.0 = self.0.wrapping_mul(6364136223846793005).wrapping_add(1442695040888963407);
        self.0 >> 33
    }
}

#[test]
fn folding_matches_tree_on_clean_expressions() {
    // operator pools of at most two precedence levels: a step-down can
    // then never leave a still lower level pending, so every fold is clean
    let pools: [&[char]; 6] = [
        &['+', '-'],
        &['*', '/'],
        &['+', '-', '*', '/'],
        &['+', '^'],
        &['*', '/', '^'],
        &['^'],
    ];
    let mut rng = Lcg(20241007);
    for case in 0..200 {
        let pool = pools[(rng.next() % pools.len() as u64) as usize];
        let n_ops = 1 + (rng.next() % 7) as usize;
        let mut vals: Vec<f64> = Vec::new();
        let mut ops: Vec<char> = Vec::new();
        let mut text = String::new();
        for i in 0..=n_ops {
            let v = 1 + (rng.next() % 9);
            vals.push(v as f64);
            text.push_str(&v.to_string());
            if i < n_ops {
                let op = pool[(rng.next() % pool.len() as u64) as usize];
                ops.push(op);
                text.push(op);
            }
        }
        let got = fold(&evaluate(&text).unwrap());
        let want = tree_reference(&vals, &ops);
        let same = got == want || (got.is_nan() && want.is_nan());
        assert!(same, "case {}: {} gave {}, reference gave {}", case, text, got, want);
    }
}

#[test]
fn folding_matches_tree_on_clean_three_level_runs() {
    // descending and ascending precedence runs are clean even with all
    // three levels present
    for text in ["2^3*4+5", "5+4*3^2", "9/3-1+2^2", "2^2^2*2+1"] {
        let vals_ops = split(text);
        let got = fold(&evaluate(text).unwrap());
        let want = tree_reference(&vals_ops.0, &vals_ops.1);
        assert_eq!(got, want, "on {}", text);
    }
}

fn split(text: &str) -> (Vec<f64>, Vec<char>) {
    let mut vals = Vec::new();
    let mut ops = Vec::new();
    for c in text.chars() {
        if c.is_ascii_digit() {
            vals.push(c.to_digit(10).unwrap() as f64);
        } else {
            ops.push(c);
        }
    }
    (vals, ops)
}

#[test]
fn unclean_expression_differs_from_the_tree() {
    // the known deviation: a step-down to `*` folds the pending `+` early
    let text = "2+3^2*4";
    let (vals, ops) = split(text);
    let got = fold(&evaluate(text).unwrap());
    assert_eq!(got, 44.0);
    assert_eq!(tree_reference(&vals, &ops), 38.0);
}
