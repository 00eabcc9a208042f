use firefly::reconnect::ReconnectBackoff;

#[test]
fn failures_double_up_to_the_maximum() {
    let mut b = ReconnectBackoff::new(5, 300);
    let waits: Vec<u64> = (0..9).map(|_| b.after_attempt(false)).collect();
    assert_eq!(waits, vec![5, 10, 20, 40, 80, 160, 300, 300, 300]);
}

#[test]
fn a_clean_end_resets_to_the_minimum() {
    let mut b = ReconnectBackoff::new(5, 300);
    b.after_attempt(false);
    b.after_attempt(false);
    assert_eq!(b.after_attempt(true), 5);
    assert_eq!(b.after_attempt(false), 10);
}

#[test]
fn zero_minimum_is_one_second_and_maximum_never_below_it() {
    let mut b = ReconnectBackoff::new(0, 0);
    assert_eq!(b.after_attempt(false), 1);
    assert_eq!(b.after_attempt(false), 1);
    let mut c = ReconnectBackoff::new(10, 3);
    assert_eq!(c.after_attempt(false), 10);
    assert_eq!(c.after_attempt(false), 10);
}
