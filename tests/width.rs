use deci::width::{columns_in, fit_end_in};

#[test]
fn columns_sum_widths_in_range() {
    let w = vec![1, 2, 0, 2];
    assert_eq!(columns_in(&w, 0, 4), 5);
    assert_eq!(columns_in(&w, 1, 3), 2);
    assert_eq!(columns_in(&w, 2, 99), 2);
    assert_eq!(columns_in(&w, 3, 1), 0);
}

#[test]
fn columns_saturate() {
    let w = vec![usize::MAX, 1];
    assert_eq!(columns_in(&w, 0, 2), usize::MAX);
}

#[test]
fn fit_end_stops_before_overflowing_budget() {
    let w = vec![2, 2, 1];
    assert_eq!(fit_end_in(&w, 0, 3), 1);
    assert_eq!(fit_end_in(&w, 0, 4), 2);
    assert_eq!(fit_end_in(&w, 0, 5), 3);
    assert_eq!(fit_end_in(&w, 1, 3), 3);
    assert_eq!(fit_end_in(&w, 1, 2), 2);
    assert_eq!(fit_end_in(&w, 3, 3), 3);
}

#[test]
fn zero_width_cluster_always_fits() {
    let w = vec![0, 1];
    let back = fit_end_in(&w, 0, columns_in(&w, 0, 0));
    assert_eq!(back, 1);
}

#[test]
fn width_round_trip_on_widths() {
    let w = vec![1, 2, 2, 1, 2];
    let mut last = 0;
    for n in 0..8 {
        let back = fit_end_in(&w, 0, columns_in(&w, 0, n));
        assert!(back <= n);
        assert!(back >= last);
        last = back;
    }
}
