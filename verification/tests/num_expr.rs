use yinhe_editor::num_expr::{parse_num_expr, Decimal, NumOp};

/// An operation with its number as a float, for comparing with expected values.
#[derive(Debug, PartialEq)]
enum Op {
    Assign(f64),
    Add(f64),
    Mul(f64),
    Div(f64),
}

fn value(d: &Decimal) -> f64 {
    let mut v: f64 = d.text.parse().unwrap();
    if d.percent {
        v /= 100.0;
    }
    if d.negative {
        v = -v;
    }
    v
}

fn parse(s: &str) -> Option<Vec<Op>> {
    parse_num_expr(s).map(|ops| {
        ops.iter()
            .map(|o| match o {
                NumOp::Assign(d) => Op::Assign(value(d)),
                NumOp::Add(d) => Op::Add(value(d)),
                NumOp::Mul(d) => Op::Mul(value(d)),
                NumOp::Div(d) => Op::Div(value(d)),
            })
            .collect()
    })
}

#[test]
fn parse_assign() {
    assert_eq!(parse("100"), Some(vec![Op::Assign(100.0)]));
    assert_eq!(parse("0"), Some(vec![Op::Assign(0.0)]));
    assert_eq!(parse("-0"), Some(vec![Op::Add(-0.0)])); // a leading minus is an addition
}

#[test]
fn parse_add_sub() {
    assert_eq!(parse("+2"), Some(vec![Op::Add(2.0)]));
    assert_eq!(parse("-2"), Some(vec![Op::Add(-2.0)]));
    assert_eq!(parse("+5-2"), Some(vec![Op::Add(5.0), Op::Add(-2.0)]));
}

#[test]
fn parse_mul_div() {
    assert_eq!(parse("x2"), Some(vec![Op::Mul(2.0)]));
    assert_eq!(parse("*2"), Some(vec![Op::Mul(2.0)]));
    assert_eq!(parse("×2"), Some(vec![Op::Mul(2.0)]));
    assert_eq!(parse("/2"), Some(vec![Op::Div(2.0)]));
    assert_eq!(parse("÷2"), Some(vec![Op::Div(2.0)]));
    assert_eq!(parse("x3/7"), Some(vec![Op::Mul(3.0), Op::Div(7.0)]));
}

#[test]
fn parse_percent() {
    assert_eq!(parse("20%"), Some(vec![Op::Mul(0.2)]));
    assert_eq!(parse("x.2"), Some(vec![Op::Mul(0.2)]));
    assert_eq!(parse("x50%"), Some(vec![Op::Mul(0.5)]));
}

#[test]
fn parse_assign_then_chain() {
    assert_eq!(parse("3x2"), Some(vec![Op::Assign(3.0), Op::Mul(2.0)]));
    assert_eq!(parse("100+10"), Some(vec![Op::Assign(100.0), Op::Add(10.0)]));
}

#[test]
fn parse_cn_decimal_point() {
    assert_eq!(parse("x3。5"), Some(vec![Op::Mul(3.5)]));
    assert_eq!(parse("1。5"), Some(vec![Op::Assign(1.5)]));
}

#[test]
fn parse_invalid() {
    assert_eq!(parse(""), None);
    assert_eq!(parse("  "), None);
    assert_eq!(parse("+"), None);
    assert_eq!(parse("x"), None);
    assert_eq!(parse("/0"), None);
    assert_eq!(parse("+20%"), None);
    assert_eq!(parse("-20%"), None);
    assert_eq!(parse("3 2"), None);
    assert_eq!(parse("abc"), None);
    assert_eq!(parse("2x"), None); // an operator without a number
}

#[test]
fn parse_keeps_literal_text() {
    let ops = parse_num_expr("  X2.50%  ").unwrap();
    assert_eq!(ops.len(), 1);
    match &ops[0] {
        NumOp::Mul(d) => {
            assert_eq!(d.text, "2.50");
            assert!(d.percent);
            assert!(!d.negative);
        }
        _ => panic!("expected a multiplication"),
    }
}

#[test]
fn parse_rejects_malformed_numbers_and_zero_divisors() {
    assert_eq!(parse("1.2.3"), None);
    assert_eq!(parse("x."), None);
    assert_eq!(parse("/0.000"), None);
    assert_eq!(parse("/.0"), None);
    assert_eq!(parse("/0.5"), Some(vec![Op::Div(0.5)]));
    assert_eq!(parse("5."), Some(vec![Op::Assign(5.0)]));
    assert_eq!(parse("/2%"), None);
    assert_eq!(parse("50%x2"), Some(vec![Op::Mul(0.5), Op::Mul(2.0)]));
    assert_eq!(parse("1+50%"), None);
}
