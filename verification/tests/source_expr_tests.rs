use resist::source_expr::{
    parse_comparison, parse_number, parse_simple, parse_source_expr, ArithOp, CmpOp, MathFn, SiUnit, SourceExpr,
};

/// The value at time `t` of a source expression, as the simulator computes it.
fn value(e: &SourceExpr, t: f64) -> f64 {
    match e {
        SourceExpr::Literal { digits, unit } => {
            let m = match unit {
                SiUnit::One => 1.0,
                SiUnit::Pico => 1e-12,
                SiUnit::Nano => 1e-9,
                SiUnit::Micro => 1e-6,
                SiUnit::Milli => 1e-3,
                SiUnit::Kilo => 1e3,
                SiUnit::Mega => 1e6,
                SiUnit::Giga => 1e9,
            };
            digits.parse::<f64>().unwrap() * m
        }
        SourceExpr::Time => t,
        SourceExpr::Arith { op, left, right } => {
            let l = value(left, t);
            let r = value(right, t);
            match op {
                ArithOp::Add => l + r,
                ArithOp::Sub => l - r,
                ArithOp::Mul => l * r,
                ArithOp::Div => {
                    if r.abs() > 1e-20 {
                        l / r
                    } else {
                        0.0
                    }
                }
                ArithOp::Pow => l.powf(r),
            }
        }
        SourceExpr::Call { func, arg } => {
            let a = value(arg, t);
            match func {
                MathFn::Sin => a.sin(),
                MathFn::Cos => a.cos(),
                MathFn::Tan => a.tan(),
                MathFn::Exp => a.exp(),
                MathFn::Sqrt => a.sqrt(),
                MathFn::Abs => a.abs(),
                MathFn::Log => a.ln(),
                MathFn::Log10 => a.log10(),
            }
        }
        SourceExpr::Compare { op, left, right } => {
            let l = value(left, t);
            let r = value(right, t);
            let b = match op {
                CmpOp::Eq => (l - r).abs() < 1e-10,
                CmpOp::Ne => (l - r).abs() >= 1e-10,
                CmpOp::Ge => l >= r,
                CmpOp::Le => l <= r,
                CmpOp::Gt => l > r,
                CmpOp::Lt => l < r,
            };
            if b {
                1.0
            } else {
                0.0
            }
        }
        SourceExpr::Choose { cond, then_val, else_val } => {
            if value(cond, t) > 0.5 {
                value(then_val, t)
            } else {
                value(else_val, t)
            }
        }
    }
}

fn lit(d: &str, unit: SiUnit) -> SourceExpr {
    SourceExpr::Literal { digits: d.to_string(), unit }
}

#[test]
fn test_constant() {
    let f = parse_simple("5").unwrap();
    assert!((value(&f, 0.0) - 5.0).abs() < 1e-10);
    assert!((value(&f, 1.0) - 5.0).abs() < 1e-10);
}

#[test]
fn test_unit_milli() {
    let f = parse_simple("5m").unwrap();
    assert!((value(&f, 0.0) - 0.005).abs() < 1e-10, "Got {}", value(&f, 0.0));
}

#[test]
fn test_unit_micro() {
    let f = parse_simple("100u").unwrap();
    assert!((value(&f, 0.0) - 100e-6).abs() < 1e-15);
}

#[test]
fn test_unit_nano() {
    let f = parse_simple("1n").unwrap();
    assert!((value(&f, 0.0) - 1e-9).abs() < 1e-18);
}

#[test]
fn test_unit_kilo() {
    let f = parse_simple("1k").unwrap();
    assert!((value(&f, 0.0) - 1000.0).abs() < 1e-10);
}

#[test]
fn test_unit_mega() {
    let f = parse_simple("1M").unwrap();
    assert!((value(&f, 0.0) - 1e6).abs() < 100.0);
}

#[test]
fn test_variable_t() {
    let f = parse_simple("t").unwrap();
    assert!((value(&f, 2.5) - 2.5).abs() < 1e-10);
    assert!((value(&f, 0.001) - 0.001).abs() < 1e-10);
}

#[test]
fn test_arithmetic() {
    let f = parse_simple("2 + 3").unwrap();
    assert!((value(&f, 0.0) - 5.0).abs() < 1e-10);

    let f = parse_simple("10 - 3").unwrap();
    assert!((value(&f, 0.0) - 7.0).abs() < 1e-10);

    let f = parse_simple("2 * 3").unwrap();
    assert!((value(&f, 0.0) - 6.0).abs() < 1e-10);

    let f = parse_simple("10 / 2").unwrap();
    assert!((value(&f, 0.0) - 5.0).abs() < 1e-10);
}

#[test]
fn test_if_then_else() {
    let f = parse_source_expr("if t > 1 then 5 else 0").unwrap();
    assert!((value(&f, 0.5) - 0.0).abs() < 1e-10);
    assert!((value(&f, 1.5) - 5.0).abs() < 1e-10);
}

#[test]
fn test_ternary() {
    let f = parse_source_expr("t > 1 ? 5 : 0").unwrap();
    assert!((value(&f, 0.5) - 0.0).abs() < 1e-10);
    assert!((value(&f, 1.5) - 5.0).abs() < 1e-10);
}

#[test]
fn test_sine() {
    let f = parse_simple("sin(0)").unwrap();
    assert!(value(&f, 0.0).abs() < 1e-10);

    let f = parse_simple("sin(pi/2)").unwrap();
    assert!((value(&f, 0.0) - 1.0).abs() < 1e-10);
}

#[test]
fn test_comparison_greater() {
    let f = parse_comparison("t > 1").unwrap();
    assert!(value(&f, 0.5) < 0.5);
    assert!(value(&f, 1.5) > 0.5);
}

#[test]
fn test_complex_expr() {
    let f = parse_simple("5 * sin(2 * pi * 1k * t)").unwrap();
    let val_at_zero = value(&f, 0.0);
    assert!(val_at_zero.abs() < 1e-10);
}

#[test]
fn test_time_step_function() {
    let f = parse_source_expr("if t > 1m then 5 else 0").unwrap();
    assert!((value(&f, 0.0) - 0.0).abs() < 1e-10);
    assert!((value(&f, 0.002) - 5.0).abs() < 1e-10);
}

#[test]
fn numbers_keep_their_text_and_unit() {
    assert_eq!(parse_number("  2.5k "), Some(("2.5".to_string(), SiUnit::Kilo)));
    assert_eq!(parse_number("1e-3"), Some(("1e-3".to_string(), SiUnit::One)));
    assert_eq!(parse_number("3 µ"), Some(("3".to_string(), SiUnit::Micro)));
    assert_eq!(parse_number("7G"), Some(("7".to_string(), SiUnit::Giga)));
    assert_eq!(parse_number("7x"), None);
    assert_eq!(parse_number("7kk"), None);
    assert_eq!(parse_number(""), None);
    assert_eq!(parse_number("k"), None);
    assert_eq!(parse_number("1.2.3"), None);
    assert_eq!(parse_number("+.5"), Some(("+.5".to_string(), SiUnit::One)));
}

#[test]
fn subtraction_splits_at_the_first_minus() {
    // `a - b - c` reads as `a - (b - c)`.
    let f = parse_simple("10 - 3 - 2").unwrap();
    assert_eq!(
        f,
        SourceExpr::Arith {
            op: ArithOp::Sub,
            left: Box::new(lit("10", SiUnit::One)),
            right: Box::new(SourceExpr::Arith {
                op: ArithOp::Sub,
                left: Box::new(lit("3", SiUnit::One)),
                right: Box::new(lit("2", SiUnit::One)),
            }),
        }
    );
    assert!((value(&f, 0.0) - 9.0).abs() < 1e-10);
}

#[test]
fn operators_inside_parentheses_wait() {
    let f = parse_simple("sin(1+2)*3").unwrap();
    assert_eq!(
        f,
        SourceExpr::Arith {
            op: ArithOp::Mul,
            left: Box::new(SourceExpr::Call {
                func: MathFn::Sin,
                arg: Box::new(SourceExpr::Arith {
                    op: ArithOp::Add,
                    left: Box::new(lit("1", SiUnit::One)),
                    right: Box::new(lit("2", SiUnit::One)),
                }),
            }),
            right: Box::new(lit("3", SiUnit::One)),
        }
    );
}

#[test]
fn power_and_pi() {
    let f = parse_simple("pi ^ 2").unwrap();
    assert_eq!(
        f,
        SourceExpr::Arith {
            op: ArithOp::Pow,
            left: Box::new(lit("3.141592653589793", SiUnit::One)),
            right: Box::new(lit("2", SiUnit::One)),
        }
    );
}

#[test]
fn reading_errors() {
    assert_eq!(parse_simple("foo(1)"), Err("Unknown function: foo".to_string()));
    assert_eq!(parse_simple("2 + x"), Err("Cannot parse expression: 'x'".to_string()));
    assert_eq!(parse_simple("pi pi"), Err("Cannot parse expression: '3.141592653589793 3.141592653589793'".to_string()));
    assert_eq!(parse_comparison("t"), Err("No comparison operator found".to_string()));
    assert_eq!(parse_source_expr("if t > 1 5 else 0"), Err("Missing 'then' in if statement".to_string()));
    assert_eq!(parse_source_expr("if t > 1 then 5"), Err("Missing 'else' in if statement".to_string()));
}

#[test]
fn comparisons_pick_the_first_operator_in_order() {
    let f = parse_comparison("t >= 2").unwrap();
    assert_eq!(
        f,
        SourceExpr::Compare {
            op: CmpOp::Ge,
            left: Box::new(SourceExpr::Time),
            right: Box::new(lit("2", SiUnit::One)),
        }
    );
    let f = parse_comparison("t != 1").unwrap();
    assert!(value(&f, 1.0) < 0.5 && value(&f, 2.0) > 0.5);
}

#[test]
fn ternary_falls_back_when_a_part_fails() {
    // The ternary form fails on its condition, so the text reads as a plain
    // expression, which fails as a whole.
    assert_eq!(parse_source_expr("5 ? 1 : 0"), Err("Cannot parse expression: '5 ? 1 : 0'".to_string()));
}

#[test]
fn function_names_are_letters_and_underscores() {
    assert_eq!(parse_simple("f1(2)"), Err("Cannot parse expression: 'f1(2)'".to_string()));
    assert_eq!(parse_simple("my_fn(2)"), Err("Unknown function: my_fn".to_string()));
    assert_eq!(
        parse_simple(" log ( 100 ) "),
        Ok(SourceExpr::Call { func: MathFn::Log, arg: Box::new(lit("100", SiUnit::One)) })
    );
    // Digits are no letters, so `log10` is never read as a function name.
    assert_eq!(parse_simple("log10(100)"), Err("Cannot parse expression: 'log10(100)'".to_string()));
}

#[test]
fn numeric_characters_that_are_no_ascii_digits() {
    // `٣` is numeric, so it joins the number, which `f64` does not read.
    assert_eq!(parse_number("٣"), None);
    assert_eq!(parse_number("½k"), None);
}
