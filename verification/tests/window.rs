use sentil::semantics::window::{sliding_window_max, sliding_window_min};

#[test]
fn matches_a_worked_example() {
    let times = [0, 1, 2, 3, 4];
    let values = [5, 2, 7, 1, 3];
    assert_eq!(
        sliding_window_min(&values, &times, Some(0), Some(2)),
        vec![Some(2), Some(1), Some(1), Some(1), Some(3)]
    );
    assert_eq!(
        sliding_window_max(&values, &times, Some(0), Some(2)),
        vec![Some(7), Some(7), Some(7), Some(3), Some(3)]
    );
}

fn naive(values: &[i64], times: &[i64], a: Option<i64>, b: Option<i64>, want_min: bool) -> Vec<Option<i64>> {
    times
        .iter()
        .map(|&center| {
            let mut best: Option<i64> = None;
            for (&t, &v) in times.iter().zip(values) {
                let above = a.map_or(true, |lo| t as i128 >= center as i128 + lo as i128);
                let below = b.map_or(true, |hi| t as i128 <= center as i128 + hi as i128);
                if above && below {
                    best = Some(match best {
                        None => v,
                        Some(m) if want_min => m.min(v),
                        Some(m) => m.max(v),
                    });
                }
            }
            best
        })
        .collect()
}

#[test]
fn deque_equals_naive_on_a_fixed_spread_of_windows() {
    let times: Vec<i64> = vec![1, 2, 2, 4, 7, 8, 8, 9, 13, 20];
    let values: Vec<i64> = vec![3, -1, 4, 1, -5, 9, 2, 6, -5, 3];
    let windows = [
        (Some(0), Some(0)),
        (Some(0), Some(3)),
        (Some(-3), Some(0)),
        (Some(-2), Some(5)),
        (Some(4), Some(1)),
        (Some(0), None),
        (None, Some(0)),
        (None, None),
    ];
    for (a, b) in windows {
        assert_eq!(sliding_window_min(&values, &times, a, b), naive(&values, &times, a, b, true));
        assert_eq!(sliding_window_max(&values, &times, a, b), naive(&values, &times, a, b, false));
    }
}

#[test]
fn an_empty_window_gives_none() {
    let times = [0, 10];
    let values = [1, 2];
    assert_eq!(
        sliding_window_min(&values, &times, Some(1), Some(2)),
        vec![None, None]
    );
    assert_eq!(sliding_window_max(&[], &[], Some(0), Some(1)), Vec::<Option<i64>>::new());
}

#[test]
fn extreme_offsets_do_not_overflow() {
    let times = [i64::MIN, 0, i64::MAX];
    let values = [1, 2, 3];
    assert_eq!(
        sliding_window_max(&values, &times, Some(i64::MIN), Some(i64::MAX)),
        vec![Some(1), Some(3), Some(3)]
    );
}

use sentil::semantics::window::MonotonicDeque;

#[test]
fn the_online_deque_tracks_the_window_minimum() {
    let mut d = MonotonicDeque::with_capacity(4);
    assert_eq!(d.front_value(), None);
    d.push_min(0, 5);
    d.push_min(1, 2);
    d.push_min(2, 7);
    assert_eq!(d.front_value(), Some(2));
    d.evict_before(2);
    assert_eq!(d.front_value(), Some(7));
    d.push_min(3, 1);
    assert_eq!(d.front_value(), Some(1));
    d.evict_before(10);
    assert_eq!(d.front_value(), None);
    d.clear();
    d.push_max(0, -3);
    d.push_max(5, -4);
    assert_eq!(d.front_value(), Some(-3));
    d.evict_before(1);
    assert_eq!(d.front_value(), Some(-4));
}

#[test]
fn the_online_deque_agrees_with_the_sweep() {
    let times: Vec<i64> = vec![1, 2, 2, 4, 7, 8, 8, 9, 13, 20];
    let values: Vec<i64> = vec![3, -1, 4, 1, -5, 9, 2, 6, -5, 3];
    // A past window [t - 3, t] read online equals the offline sweep.
    let offline = sliding_window_max(&values, &times, Some(-3), Some(0));
    let mut d = MonotonicDeque::with_capacity(0);
    for i in 0..times.len() {
        d.push_max(times[i], values[i]);
        if i + 1 < times.len() && times[i + 1] == times[i] {
            continue;
        }
        d.evict_before(times[i] - 3);
        assert_eq!(d.front_value(), offline[i]);
    }
}
