use sentil::formula::ast::{BinaryOp, ComparisonOp, Expr, Formula, Interval, Predicate, ProbabilityOp};
use sentil::number::Decimal;

fn dec(negative: bool, digits: &[u8], exponent: i128) -> Decimal {
    Decimal::from_parts(negative, &digits.to_vec(), exponent)
}

fn whole(n: u64) -> Decimal {
    let digits: Vec<u8> = n.to_string().bytes().map(|b| b - b'0').collect();
    Decimal::from_parts(false, &digits, 0)
}

fn pred(name: &str, op: ComparisonOp, c: Decimal) -> Formula {
    Formula::Predicate(Predicate {
        lhs: Expr::Variable(name.into()),
        op,
        rhs: Expr::Literal(c),
    })
}

#[test]
fn display_renders_a_bounded_temporal_formula() {
    let f = Formula::Always(
        Interval::bounded(whole(0), whole(10)).unwrap(),
        Box::new(pred("x", ComparisonOp::Less, whole(5))),
    );
    assert_eq!(f.to_string(), "always[0, 10](x < 5)");
}

#[test]
fn unbounded_interval_prints_inf() {
    let f = Formula::Eventually(
        Interval::unbounded(),
        Box::new(pred("x", ComparisonOp::Greater, whole(0))),
    );
    assert_eq!(f.to_string(), "eventually[0, inf](x > 0)");
}

#[test]
fn variables_are_sorted_and_deduplicated() {
    let f = Formula::And(
        Box::new(pred("speed", ComparisonOp::Greater, whole(60))),
        Box::new(pred("rpm", ComparisonOp::Less, whole(4000))),
    );
    assert_eq!(f.variables(), vec!["rpm".to_string(), "speed".to_string()]);
}

#[test]
fn depth_counts_operator_nesting() {
    let inner = pred("x", ComparisonOp::Less, whole(5));
    let f = Formula::And(
        Box::new(Formula::Always(
            Interval::bounded(whole(0), whole(10)).unwrap(),
            Box::new(inner.clone()),
        )),
        Box::new(inner),
    );
    assert_eq!(f.depth(), 3);
}

#[test]
fn has_temporal_distinguishes_boolean_from_temporal() {
    let p = pred("x", ComparisonOp::Greater, whole(0));
    assert!(!p.has_temporal());
    assert!(!Formula::Not(Box::new(p.clone())).has_temporal());
    assert!(!Formula::And(Box::new(p.clone()), Box::new(p.clone())).has_temporal());
    let always = Formula::Always(Interval::bounded(whole(0), whole(5)).unwrap(), Box::new(p.clone()));
    assert!(always.has_temporal());
    assert!(
        Formula::Probabilistic(ProbabilityOp::GreaterEqual, dec(false, &[9], -1), Box::new(always))
            .has_temporal()
    );
    assert!(
        !Formula::Probabilistic(ProbabilityOp::GreaterEqual, dec(false, &[9], -1), Box::new(p))
            .has_temporal()
    );
}

#[test]
fn interval_contains_is_inclusive_at_both_ends() {
    let i = Interval::bounded(whole(0), whole(10)).unwrap();
    assert!(i.contains(&whole(0)) && i.contains(&whole(10)) && i.contains(&whole(5)));
    assert!(!i.contains(&dec(true, &[1], -1)) && !i.contains(&dec(false, &[1, 0, 1], -1)));
    assert!(Interval::unbounded().contains(&dec(false, &[1], 9)));
    assert!(!Interval::unbounded().contains(&dec(true, &[1], 0)));
}

#[test]
fn probabilistic_operator_renders_threshold() {
    let f = Formula::Probabilistic(
        ProbabilityOp::GreaterEqual,
        dec(false, &[9, 5], -2),
        Box::new(pred("x", ComparisonOp::Greater, whole(0))),
    );
    assert_eq!(f.to_string(), "P>=0.95(x > 0)");
}

#[test]
fn arithmetic_term_prints_with_minimal_parentheses() {
    let no_parens = Expr::Binary(
        BinaryOp::Add,
        Box::new(Expr::Variable("x".into())),
        Box::new(Expr::Binary(
            BinaryOp::Mul,
            Box::new(Expr::Variable("y".into())),
            Box::new(Expr::Literal(whole(2))),
        )),
    );
    assert_eq!(no_parens.to_string(), "x + y * 2");
    assert_eq!(no_parens.depth(), 3);

    let needs_parens = Expr::Binary(
        BinaryOp::Mul,
        Box::new(Expr::Binary(
            BinaryOp::Add,
            Box::new(Expr::Variable("x".into())),
            Box::new(Expr::Variable("y".into())),
        )),
        Box::new(Expr::Literal(whole(2))),
    );
    assert_eq!(needs_parens.to_string(), "(x + y) * 2");

    let left_pow = Expr::Binary(
        BinaryOp::Pow,
        Box::new(Expr::Binary(
            BinaryOp::Pow,
            Box::new(Expr::Variable("a".into())),
            Box::new(Expr::Variable("b".into())),
        )),
        Box::new(Expr::Variable("c".into())),
    );
    assert_eq!(left_pow.to_string(), "(a ^ b) ^ c");
}

#[test]
fn invalid_intervals_are_rejected() {
    assert!(Interval::bounded(whole(5), whole(1)).is_err());
    assert!(Interval::bounded(dec(true, &[1], 0), whole(5)).is_err());
    assert!(Interval::from_lower(dec(true, &[2], 0)).is_err());
    assert!(Interval::bounded(whole(0), whole(10)).is_ok());
}

#[test]
fn interval_errors_name_the_bounds() {
    match Interval::bounded(whole(5), whole(1)) {
        Err(sentil::error::Error::InvalidConfig { context, message }) => {
            assert_eq!(context, "interval");
            assert_eq!(message, "interval lower bound 5 is greater than upper bound 1");
        }
        _ => panic!("expected an interval error"),
    }
    match Interval::from_lower(dec(true, &[2, 5], -1)) {
        Err(sentil::error::Error::InvalidConfig { message, .. }) => assert_eq!(
            message,
            "an interval lower bound must be finite and at least 0, found -2.5"
        ),
        _ => panic!("expected an interval error"),
    }
}

#[test]
fn interval_accessors_report_the_bounds() {
    let i = Interval::bounded(whole(2), whole(7)).unwrap();
    assert_eq!(i.lower(), &whole(2));
    assert_eq!(i.upper(), Some(&whole(7)));
    assert!(i.is_bounded() && !i.is_unbounded());
    let open = Interval::from_lower(whole(3)).unwrap();
    assert_eq!(open.upper(), None);
    assert!(!open.is_unbounded());
    assert!(Interval::unbounded().is_unbounded());
    assert_eq!(open.to_string(), "[3, inf]");
}

#[test]
fn depth_saturates_and_counts_call_arguments() {
    let call = Expr::Call(
        "max".into(),
        vec![
            Expr::Variable("x".into()),
            Expr::Binary(
                BinaryOp::Sub,
                Box::new(Expr::Variable("y".into())),
                Box::new(Expr::Literal(whole(1))),
            ),
        ],
    );
    assert_eq!(call.depth(), 3);
    assert_eq!(call.to_string(), "max(x, y - 1)");
}

#[test]
fn decimals_render_in_positional_notation() {
    assert_eq!(dec(false, &[1, 2, 5], -5).to_string(), "0.00125");
    assert_eq!(dec(true, &[4, 2], 3).to_string(), "-42000");
    assert_eq!(dec(false, &[3, 1, 4], -2).to_string(), "3.14");
    assert_eq!(Decimal::zero().to_string(), "0");
    assert_eq!(dec(false, &[0, 0, 7, 0], 0), whole(70));
}
