use sentil::error::Error;
use sentil::formula::ast::Formula;
use sentil::semantics::stream::{contains_future, is_temporal, settle_lag_samples, validate_streaming};

fn f(text: &str) -> Formula {
    Formula::parse(text).unwrap()
}

fn refusal(text: &str) -> Option<String> {
    match validate_streaming(&f(text)) {
        Ok(()) => None,
        Err(Error::Unsupported { feature }) => Some(feature),
        Err(other) => panic!("unexpected error {other:?}"),
    }
}

#[test]
fn temporal_and_future_operators_are_told_apart() {
    assert!(!is_temporal(&f("x > 0 and not (y < 1)")));
    assert!(is_temporal(&f("x > 0 and once(y < 1)")));
    assert!(!contains_future(&f("historically[0, 2](x > 0) since y > 0")));
    assert!(contains_future(&f("once(next(x > 0))")));
}

#[test]
fn verdicts_settle_by_next_depth_and_bounded_windows() {
    assert_eq!(settle_lag_samples(&f("x > 0")), Some(0));
    assert_eq!(settle_lag_samples(&f("next(next(x > 0))")), Some(2));
    assert_eq!(settle_lag_samples(&f("always[0, 5](next(x > 0))")), Some(1));
    assert_eq!(settle_lag_samples(&f("always(x > 0)")), None);
    assert_eq!(settle_lag_samples(&f("x > 0 until[0, 3] y > 0")), Some(0));
    assert_eq!(settle_lag_samples(&f("x > 0 until y > 0")), None);
    assert_eq!(settle_lag_samples(&f("next(x > 0) or next(next(y > 0))")), Some(2));
}

#[test]
fn compositions_the_online_monitor_cannot_evaluate_are_refused() {
    assert_eq!(refusal("always[0, 2](x > 0) and once(y > 0)"), None);
    assert_eq!(
        refusal("once(eventually[0, 1](x > 0))").unwrap(),
        "a future-time operator nested inside a past-time operator or the operand of until, since, or next; evaluate this formula offline instead"
    );
    assert!(refusal("(next(x > 0)) since y > 0").is_some());
    assert_eq!(
        refusal("next(x > 0) and y > 0").unwrap(),
        "a boolean junction mixing a next-delayed branch with a time-delayed one; monitor them as separate formulas, or evaluate this one offline"
    );
    assert_eq!(refusal("always(x > 0) and next(y > 0)"), None);
}
