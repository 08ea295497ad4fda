use sentil::error::Error;
use sentil::formula::ast::{ComparisonOp, Formula};
use sentil::formula::parser::parse;

fn round_trip(input: &str, canonical: &str) {
    let f = parse(input).expect("should parse");
    assert_eq!(f.to_string(), canonical);
}

#[test]
fn simple_predicate() {
    round_trip("x < 5", "x < 5");
}

#[test]
fn and_binds_tighter_than_implies() {
    round_trip(
        "a > 0 and b > 0 implies c > 0",
        "((a > 0 and b > 0) implies c > 0)",
    );
}

#[test]
fn or_is_left_associative() {
    round_trip("a > 0 or b > 0 or c > 0", "((a > 0 or b > 0) or c > 0)");
}

#[test]
fn until_binds_tighter_than_and() {
    round_trip(
        "a > 0 until b > 0 and c > 0",
        "((a > 0 until[0, inf] b > 0) and c > 0)",
    );
}

#[test]
fn temporal_with_and_without_interval() {
    round_trip("always[0, 10](x < 5)", "always[0, 10](x < 5)");
    round_trip("eventually(x > 0)", "eventually[0, inf](x > 0)");
}

#[test]
fn ltl_shorthands_and_symbols() {
    round_trip(
        "G[0, inf](!(x_1 > 0) && y_2 > 0 -> F(z == 5))",
        "always[0, inf](((not(x_1 > 0) and y_2 > 0) implies eventually[0, inf](z == 5)))",
    );
}

#[test]
fn arithmetic_precedence_and_unary_minus() {
    round_trip("x + y * 2 < 10", "(x + (y * 2)) < 10");
    round_trip("x < -5", "x < (0 - 5)");
    round_trip("2 ^ 3 ^ 2 > 0", "(2 ^ (3 ^ 2)) > 0");
}

#[test]
fn function_calls() {
    round_trip("abs(x - 1) < 2", "abs((x - 1)) < 2");
    round_trip("max(x, y, 0) > 0", "max(x, y, 0) > 0");
}

#[test]
fn probabilistic_with_nested_temporal() {
    round_trip(
        "P>=0.95(always[0, 10](x > 5))",
        "P>=0.95(always[0, 10](x > 5))",
    );
}

#[test]
fn until_is_right_associative() {
    round_trip(
        "a > 0 until b > 0 until c > 0",
        "(a > 0 until[0, inf] (b > 0 until[0, inf] c > 0))",
    );
}

#[test]
fn missing_value_points_at_the_offending_token() {
    let err = parse("always[0, 10](x > )").unwrap_err();
    assert!(err.message.contains("expected a value"));
    assert_eq!(err.column, 19);
}

#[test]
fn infinite_lower_bound_is_rejected() {
    let err = parse("always[inf, 10](x > 0)").unwrap_err();
    assert!(err.message.contains("lower bound cannot be `inf`"));
}

#[test]
fn lower_above_upper_is_rejected() {
    let err = parse("always[10, 5](x > 0)").unwrap_err();
    assert!(err.message.contains("greater than upper bound"));
}

#[test]
fn probability_threshold_out_of_range() {
    let err = parse("P>=1.5(x > 0)").unwrap_err();
    assert!(err.message.contains("between 0 and 1"));
}

#[test]
fn trailing_tokens_are_an_error() {
    let err = parse("x > 0 y > 0").unwrap_err();
    assert!(err.message.contains("after a complete formula"));
}

#[test]
fn negative_interval_bound_parses() {
    let f = parse("historically[0, 5](x > 0)").unwrap();
    assert!(matches!(f, Formula::Historically(..)));
}

#[test]
fn equality_predicate() {
    let f = parse("x == 5").unwrap();
    match f {
        Formula::Predicate(p) => assert_eq!(p.op, ComparisonOp::Equal),
        _ => panic!("expected a predicate"),
    }
}

#[test]
fn moderately_nested_input_still_parses() {
    let nested = format!("{}x > 0{}", "(".repeat(30), ")".repeat(30));
    assert!(parse(&nested).is_ok());
}

#[test]
fn pathological_nesting_reports_an_error_rather_than_overflowing() {
    let bombs = [
        format!("{}x > 0{}", "(".repeat(20_000), ")".repeat(20_000)),
        format!("{}x > 0", "not ".repeat(20_000)),
        format!("x > {}1", "-".repeat(20_000)),
    ];
    for bomb in bombs {
        let err = parse(&bomb).unwrap_err();
        assert!(err.message.contains("deeper than"), "got: {}", err.message);
    }
}

#[test]
fn error_messages_match_the_grammar_exactly() {
    let err = parse("x >").unwrap_err();
    assert_eq!(err.message, "expected a value or `(`, found end of input");
    assert_eq!((err.line, err.column), (1, 4));
    let err = parse("always[0 10](x > 0)").unwrap_err();
    assert_eq!(err.message, "expected `,` between the interval bounds, found number 10");
    let err = parse("always[-1, 10](x > 0)").unwrap_err();
    assert_eq!(err.message, "an interval's lower bound must be at least 0, found -1");
    assert_eq!(err.column, 7);
    let err = parse("P ~ 0.5(x > 0)").unwrap_err();
    assert!(err.message.contains("unexpected character"));
    let err = parse("P == 0.5(x > 0)").unwrap_err();
    assert_eq!(err.message, "`P` must be followed by >=, >, <=, or <, found `==`");
    let err = parse("P >= 0.5 x > 0").unwrap_err();
    assert_eq!(err.message, "expected `(` to open the probabilistic body, found variable `x`");
    let err = parse("x y").unwrap_err();
    assert_eq!(err.message, "expected a comparison (<, <=, >, >=, ==, !=), found variable `y`");
    let err = parse("f(x, y > 0").unwrap_err();
    assert_eq!(err.message, "expected `)` to close the argument list, found `>`");
    let err = parse("P >= 2(x > 0)").unwrap_err();
    assert_eq!(err.message, "probability threshold 2 must lie between 0 and 1");
    assert_eq!(err.column, 1);
}

#[test]
fn a_negative_bound_reads_as_its_negation() {
    let err = parse("always[0, -1](x > 0)").unwrap_err();
    assert_eq!(err.message, "interval lower bound 0 is greater than upper bound -1");
}

#[test]
fn formula_parse_wraps_the_error() {
    assert!(matches!(Formula::parse("always("), Err(Error::Parse(_))));
    let f = Formula::parse("once[1, 2](y <= 3) since x != 0").unwrap();
    assert_eq!(f.to_string(), "(once[1, 2](y <= 3) since[0, inf] x != 0)");
}

#[test]
fn rendering_a_parsed_formula_parses_back_to_it() {
    for text in [
        "P < 0.25(historically[0.5, 2](a >= -b / 2 % 3) or next (c != 1e-3))",
        "not (x > 1) implies (y < 2 implies z == 3)",
        "always[0, 10](0 > f(x, 2 ^ y, g()) - 1) until[1, 3] eventually(q > 0)",
    ] {
        let f = parse(text).unwrap();
        let again = parse(&f.to_string()).unwrap();
        assert_eq!(again, f);
    }
}

#[test]
fn a_grouped_left_term_does_not_read_back() {
    // The canonical text parenthesizes a binary left-hand term, and a leading
    // `(` opens a formula group, so such text does not parse again.
    let f = parse("a % 3 >= 1").unwrap();
    assert_eq!(f.to_string(), "(a % 3) >= 1");
    assert!(parse(&f.to_string()).is_err());
}
