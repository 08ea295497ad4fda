use sentil::error::Error;
use sentil::formula::ast::Formula;
use sentil::gpu::temporal::{transpile_temporal, MAX_TEMPORAL_LEN};
use sentil::gpu::transpiler::{check_outcome, transpile_atemporal, validate, NagaStage, Ssa};
use sentil::number::Decimal;

fn transpiled(formula: &str) -> String {
    let f = Formula::parse(formula).unwrap();
    let symbols = f.variables();
    transpile_atemporal(&f, &symbols).unwrap().evaluate_formula
}

#[test]
fn predicate_margins_transpile_and_validate() {
    assert!(transpiled("x > 5").contains("= v0 - v1"));
    assert!(transpiled("x < 5").contains("= v1 - v0"));
    assert!(transpiled("x == 5").contains("= -abs(v0 - v1)"));
    assert!(transpiled("x != 5").contains("= abs(v0 - v1)"));
}

#[test]
fn boolean_and_arithmetic_transpile_and_validate() {
    transpiled("x > 0 and y < 10");
    transpiled("x > 0 or y > 0");
    transpiled("not(x > 5)");
    transpiled("(x > 10) implies (y > 0)");
    assert!(transpiled("x / y > 0").contains("select("));
    transpiled("abs(x - 10) + sqrt(y) * 2 > exp(x) / ln(y)");
    transpiled("min(x, y) > max(x, 3)");
}

#[test]
fn temporal_operator_is_a_clear_transpilation_error() {
    let f = Formula::parse("always[0, 5](x > 0)").unwrap();
    let result = transpile_atemporal(&f, &["x".to_string()]);
    assert!(matches!(result, Err(Error::Transpilation { .. })));
}

#[test]
fn the_whole_source_of_a_small_formula() {
    assert_eq!(
        transpiled("x > 0.5"),
        "fn evaluate_formula(state: array<f32, 1>) -> f32 {\n    let v0 = state[0u];\n    let v1 = f32(0.5);\n    let v2 = v0 - v1;\n    return v2;\n}"
    );
}

#[test]
fn unknown_names_and_arities_are_reported() {
    let f = Formula::parse("y > 0").unwrap();
    assert!(matches!(
        transpile_atemporal(&f, &["x".to_string()]),
        Err(Error::UnknownVariable { name }) if name == "y"
    ));
    let f = Formula::parse("hypot(x, 1) > 0").unwrap();
    assert!(matches!(
        transpile_atemporal(&f, &f.variables()),
        Err(Error::UnknownFunction { name, arity: 2 }) if name == "hypot"
    ));
    let f = Formula::parse("abs(x, 1) > 0").unwrap();
    assert!(matches!(
        transpile_atemporal(&f, &f.variables()),
        Err(Error::UnknownFunction { arity: 2, .. })
    ));
    match transpile_atemporal(&Formula::parse("next(x > 0)").unwrap(), &["x".to_string()]) {
        Err(Error::Transpilation { message }) => assert_eq!(
            message,
            "the GPU path cannot evaluate `next` here; run this formula on the CPU monitor"
        ),
        _ => panic!("expected a transpilation error"),
    }
}

#[test]
fn registers_are_numbered_in_order() {
    let mut ssa = Ssa::new();
    assert_eq!(ssa.bind("1.0"), "v0");
    assert_eq!(ssa.bind("v0 + 1.0"), "v1");
    assert_eq!(ssa.body, "    let v0 = 1.0;\n    let v1 = v0 + 1.0;\n");
    assert_eq!(ssa.bound_count(), 2);
}

#[test]
fn naga_refuses_broken_source() {
    assert!(validate("fn f() -> f32 { return 1.0; }").is_ok());
    match validate("fn f( {") {
        Err(Error::Transpilation { message }) => {
            assert!(message.starts_with("generated shader did not parse"))
        }
        _ => panic!("expected a parse failure"),
    }
}

fn temporal(formula: &str, trace_len: usize) -> String {
    let f = Formula::parse(formula).unwrap();
    let symbols = f.variables();
    transpile_temporal(&f, &symbols, trace_len)
        .unwrap()
        .evaluate_temporal
}

#[test]
fn a_boolean_subtree_lowers_per_index_and_validates() {
    let source = temporal("x > 3 and y < 5", 4);
    assert!(source.contains("fn node_0"));
    assert!(source.contains("fn evaluate_temporal"));
    assert!(source.contains("return n0[0]"));
}

#[test]
fn degenerate_or_oversized_dimensions_decline() {
    let f = Formula::parse("x > 0").unwrap();
    let symbols = f.variables();
    assert!(transpile_temporal(&f, &symbols, 1).is_err());
    assert!(transpile_temporal(&f, &symbols, MAX_TEMPORAL_LEN + 1).is_err());
}

#[test]
fn always_and_eventually_lower_to_window_scans() {
    let always = temporal("always[0, 2](x > 0)", 8);
    assert!(always.contains("acc = min(acc, (*child)[j])"));
    assert!(always.contains("bitcast<f32>(0x7f800000u)")); // +inf seed
    assert!(always.contains("tj >= lo && tj <= (*times)[i] + f32(2.0)"));

    let eventually = temporal("eventually[1, 3](x > 0)", 8);
    assert!(eventually.contains("acc = max(acc, (*child)[j])"));
    assert!(eventually.contains("bitcast<f32>(0xff800000u)")); // -inf seed

    let unbounded = temporal("always[0, inf](x > 0)", 8);
    assert!(unbounded.contains("if (tj >= lo)"));
}

#[test]
fn other_temporal_operators_are_not_on_the_path() {
    let f = Formula::parse("x > 0 until y > 0").unwrap();
    match transpile_temporal(&f, &f.variables(), 4) {
        Err(Error::Transpilation { message }) => assert_eq!(
            message,
            "this temporal operator is not yet on the GPU temporal path"
        ),
        _ => panic!("expected a transpilation error"),
    }
}

fn debug_of(negative: bool, digits: &[u8], exponent: i128) -> String {
    let mut s = String::new();
    Decimal::from_parts(negative, &digits.to_vec(), exponent).write_debug(&mut s);
    s
}

#[test]
fn literals_are_written_as_rust_debug_writes_floats() {
    for (negative, digits, exponent) in [
        (false, vec![5u8], 0i128),
        (false, vec![2, 5], -1),
        (true, vec![1], -4),
        (false, vec![1], -5),
        (false, vec![1, 2, 5], -7),
        (false, vec![1], 16),
        (false, vec![9, 9], 14),
        (true, vec![3], 20),
        (false, vec![], 0),
    ] {
        let value: f64 = Decimal::from_parts(negative, &digits.to_vec(), exponent)
            .to_string()
            .parse()
            .unwrap();
        assert_eq!(debug_of(negative, &digits, exponent), format!("{value:?}"));
    }
    assert_eq!(debug_of(true, &[], 0), "-0.0");
}

#[test]
fn a_refusal_names_the_stage_before_nagas_message() {
    assert!(check_outcome(None).is_ok());
    match check_outcome(Some((NagaStage::Parse, "expected `)`".to_string()))) {
        Err(Error::Transpilation { message }) => {
            assert_eq!(message, "generated shader did not parse: expected `)`")
        }
        _ => panic!("expected a transpilation error"),
    }
    match check_outcome(Some((NagaStage::Validate, "Function(0)".to_string()))) {
        Err(Error::Transpilation { message }) => {
            assert_eq!(message, "generated shader did not validate: Function(0)")
        }
        _ => panic!("expected a transpilation error"),
    }
}
