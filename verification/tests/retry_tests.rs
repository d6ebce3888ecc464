use fluxbridge::retry::RetryPolicy;

#[test]
fn backoff_doubles_up_to_the_cap() {
    let p = RetryPolicy { base_delay_ms: 100, max_delay_ms: 1000, max_attempts: 8 };
    assert_eq!(p.next_retry(0), Some(100));
    assert_eq!(p.next_retry(1), Some(200));
    assert_eq!(p.next_retry(2), Some(400));
    assert_eq!(p.next_retry(3), Some(800));
    assert_eq!(p.next_retry(4), Some(1000));
    assert_eq!(p.next_retry(5), Some(1000));
}

#[test]
fn exhausted_attempts_give_up() {
    let p = RetryPolicy { base_delay_ms: 50, max_delay_ms: 400, max_attempts: 3 };
    assert!(p.next_retry(2).is_some());
    assert_eq!(p.next_retry(3), None);
    assert_eq!(p.next_retry(100), None);
}

#[test]
fn base_above_cap_is_clamped() {
    let p = RetryPolicy { base_delay_ms: 5000, max_delay_ms: 700, max_attempts: 2 };
    assert_eq!(p.next_retry(0), Some(700));
    assert_eq!(p.next_retry(1), Some(700));
}
