use lti_signals::{
    even_odd_decomposition, impulse_decomposition, step_decomposition, AperiodicSignal, Signal,
    SignalError,
};

#[test]
fn impulse_single() {
    let sig = AperiodicSignal::new(vec![4]);
    assert_eq!(impulse_decomposition(sig), vec![AperiodicSignal::new(vec![4])]);
}

#[test]
fn impulse_multiple() {
    let sig = AperiodicSignal::new(vec![4, 2, 5]);
    let result = vec![
        AperiodicSignal::new(vec![4, 0, 0]),
        AperiodicSignal::new(vec![0, 2, 0]),
        AperiodicSignal::new(vec![0, 0, 5]),
    ];
    assert_eq!(impulse_decomposition(sig), result);
}

#[test]
fn impulse_empty_gives_no_components() {
    let sig = AperiodicSignal::new(vec![]);
    assert_eq!(impulse_decomposition(sig), Vec::<AperiodicSignal>::new());
}

#[test]
fn impulse_components_sum_to_signal() {
    let sig = AperiodicSignal::new(vec![3, -7, 0, 12, 5]);
    let parts = impulse_decomposition(sig.clone());
    let mut total = AperiodicSignal::new(vec![0; 5]);
    for p in parts {
        total = total + p;
    }
    assert_eq!(total, sig);
}

#[test]
fn step_single() {
    let sig = AperiodicSignal::new(vec![10]);
    assert_eq!(step_decomposition(sig).unwrap(), vec![AperiodicSignal::new(vec![0])]);
}

#[test]
fn step_multiple() {
    let sig = AperiodicSignal::new(vec![4, 2, 5]);
    let result = vec![
        AperiodicSignal::new(vec![0, 0, 0]),
        AperiodicSignal::new(vec![0, -2, -2]),
        AperiodicSignal::new(vec![0, 0, 3]),
    ];
    assert_eq!(step_decomposition(sig).unwrap(), result);
}

#[test]
fn step_components_sum_to_rise_from_first_sample() {
    let sig = AperiodicSignal::new(vec![4, 2, 5, 5, -1]);
    let parts = step_decomposition(sig).unwrap();
    let mut total = AperiodicSignal::new(vec![0; 5]);
    for p in parts {
        total = total + p;
    }
    assert_eq!(total, AperiodicSignal::new(vec![0, -2, 1, 1, -5]));
}

#[test]
fn step_empty_is_refused() {
    let sig = AperiodicSignal::new(vec![]);
    assert_eq!(step_decomposition(sig), Err(SignalError::EmptySignal));
}

#[test]
fn even_uneven() {
    let sig = AperiodicSignal::new(vec![4, 1, -3, -4, 10, 5, 7]);
    let even = AperiodicSignal::new(vec![4, 4, 1, 3, 3, 1, 4]);
    let odd = AperiodicSignal::new(vec![0, -3, -4, -7, 7, 4, 3]);
    assert_eq!(even_odd_decomposition(sig).unwrap(), vec![even, odd]);
}

#[test]
fn even_odd_parts_add_back_to_signal() {
    let sig = AperiodicSignal::new(vec![4, 1, -3, -4, 10, 5, 7]);
    let parts = even_odd_decomposition(sig.clone()).unwrap();
    let total = parts[0].clone() + parts[1].clone();
    assert_eq!(total, sig);
}

#[test]
fn even_odd_even_length_middle_sample() {
    let sig = AperiodicSignal::new(vec![2, 6, 9, -4]);
    let even = AperiodicSignal::new(vec![2, 1, 9, 1]);
    let odd = AperiodicSignal::new(vec![0, 5, 0, -5]);
    assert_eq!(even_odd_decomposition(sig).unwrap(), vec![even, odd]);
}

#[test]
fn even_odd_halves_round_toward_zero() {
    let sig = AperiodicSignal::new(vec![0, 2, -1]);
    let even = AperiodicSignal::new(vec![0, 0, 0]);
    let odd = AperiodicSignal::new(vec![0, 1, -1]);
    assert_eq!(even_odd_decomposition(sig).unwrap(), vec![even, odd]);
}

#[test]
fn even_odd_single_sample() {
    let sig = AperiodicSignal::new(vec![-8]);
    let parts = even_odd_decomposition(sig).unwrap();
    assert_eq!(parts, vec![AperiodicSignal::new(vec![-8]), AperiodicSignal::new(vec![0])]);
}

#[test]
fn even_odd_extreme_samples_do_not_overflow() {
    let sig = AperiodicSignal::new(vec![0, i64::MAX, i64::MIN]);
    let parts = even_odd_decomposition(sig).unwrap();
    assert_eq!(parts[0], AperiodicSignal::new(vec![0, 0, 0]));
    assert_eq!(parts[1], AperiodicSignal::new(vec![0, i64::MAX, -i64::MAX]));
}

#[test]
fn even_odd_empty_is_refused() {
    let sig = AperiodicSignal::new(vec![]);
    assert_eq!(even_odd_decomposition(sig), Err(SignalError::EmptySignal));
}
