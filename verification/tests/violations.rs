use sentil::semantics::violations::violation_intervals;

#[test]
fn violation_intervals_finds_negative_runs() {
    let times = [0.0, 1.0, 2.0, 3.0, 4.0];
    let signal = [1.0, -1.0, -2.0, 0.5, -3.0];
    let negative: Vec<bool> = signal.iter().map(|r: &f64| *r < 0.0).collect();
    assert_eq!(
        violation_intervals(&times, &negative),
        vec![(1.0, 2.0), (4.0, 4.0)]
    );
}

#[test]
fn runs_at_the_edges_and_unequal_lengths() {
    assert_eq!(violation_intervals(&[0, 1, 2], &[true, true, true]), vec![(0, 2)]);
    assert_eq!(violation_intervals(&[0, 1, 2], &[false, false, false]), vec![]);
    assert_eq!(violation_intervals(&[5, 6, 7, 8], &[true, false]), vec![(5, 5)]);
    assert_eq!(violation_intervals(&[5, 6], &[false, true, true]), vec![(6, 6)]);
    assert_eq!(violation_intervals::<i32>(&[], &[]), vec![]);
}
