use lti_signals::{AperiodicSignal, Signal};

#[test]
fn add_same_length_signals() {
    let sig_1 = AperiodicSignal::new(vec![1, 4, 8, 3]);
    let sig_2 = AperiodicSignal::new(vec![2, 3, 8, -1]);
    let output = AperiodicSignal::new(vec![3, 7, 16, 2]);
    assert_eq!(sig_1 + sig_2, output);
}

#[test]
fn add_signals_rhs_shorter() {
    let sig_1 = AperiodicSignal::new(vec![1, 4, 8, 3]);
    let sig_2 = AperiodicSignal::new(vec![2, 3]);
    let output = AperiodicSignal::new(vec![3, 7, 8, 3]);
    assert_eq!(sig_1 + sig_2, output);
}

#[test]
fn add_signals_lhs_shorter() {
    let sig_1 = AperiodicSignal::new(vec![2, 3]);
    let sig_2 = AperiodicSignal::new(vec![1, 4, 8, 3]);
    let output = AperiodicSignal::new(vec![3, 7, 8, 3]);
    assert_eq!(sig_1.add(sig_2), output);
}

#[test]
fn fold_identity() {
    let signal = AperiodicSignal::new(vec![1, 2, 3, 4, 5]);
    let kernel = AperiodicSignal::new(vec![1]);
    assert_eq!(signal.fold(&kernel), signal);
}

#[test]
fn fold_delay() {
    let signal = AperiodicSignal::new(vec![1, 2, 3, 4, 5]);
    let kernel = AperiodicSignal::new(vec![0, 0, 1]);
    assert_eq!(signal.fold(&kernel), AperiodicSignal::new(vec![0, 0, 1, 2, 3, 4, 5]));
}

#[test]
fn fold_amplify() {
    let signal = AperiodicSignal::new(vec![1, 2, -3, 4, 5]);
    let kernel = AperiodicSignal::new(vec![2]);
    assert_eq!(signal.fold(&kernel), AperiodicSignal::new(vec![2, 4, -6, 8, 10]));
}

#[test]
fn fold_general_kernel() {
    let signal = AperiodicSignal::new(vec![1, 2, 3]);
    let kernel = AperiodicSignal::new(vec![1, -1, 2]);
    assert_eq!(signal.fold(&kernel), AperiodicSignal::new(vec![1, 1, 3, 1, 6]));
}

#[test]
fn fold_with_empty_kernel_gives_zeros() {
    let signal = AperiodicSignal::new(vec![4, 5, 6]);
    let kernel = AperiodicSignal::new(vec![]);
    assert_eq!(signal.fold(&kernel), AperiodicSignal::new(vec![0, 0]));
}

#[test]
fn read_back_and_zero_padding() {
    let values = vec![7, -2, 9];
    let sig = AperiodicSignal::new(values.clone());
    assert_eq!(sig.len(), 3);
    for (i, v) in values.iter().enumerate() {
        assert_eq!(sig.at(i), *v);
        assert_eq!(sig.at_signed(i as i64), *v);
    }
    assert_eq!(sig.at(3), 0);
    assert_eq!(sig.at(1000), 0);
    assert_eq!(sig.at_signed(-1), 0);
    assert_eq!(sig.at_signed(3), 0);
    assert_eq!(sig.at_signed(i64::MIN), 0);
    assert_eq!(sig.values(), &values);
    assert_eq!(AperiodicSignal::new(sig.values().clone()), sig);
}
