use keda_http::backoff::delay_for;
use keda_http::backoff::BackoffTracker;
use keda_http::backoff::BASE_DELAY_MS;
use keda_http::backoff::FAILURE_CEILING;
use keda_http::backoff::MAX_DELAY_MS;

#[test]
fn delays_double_from_the_base() {
    assert_eq!(delay_for(0), 1000);
    assert_eq!(delay_for(1), 2000);
    assert_eq!(delay_for(2), 4000);
    assert_eq!(delay_for(3), 8000);
    assert_eq!(delay_for(8), 256000);
}

#[test]
fn delays_are_capped() {
    assert_eq!(delay_for(9), MAX_DELAY_MS);
    assert_eq!(delay_for(40), MAX_DELAY_MS);
    assert_eq!(MAX_DELAY_MS, 300000);
}

#[test]
fn three_failures_then_success_resets() {
    let key = "default/a".to_string();
    let mut bo = BackoffTracker::new();

    assert_eq!(bo.record_failure(&key), BASE_DELAY_MS);
    assert_eq!(bo.record_failure(&key), 2 * BASE_DELAY_MS);
    assert_eq!(bo.record_failure(&key), 4 * BASE_DELAY_MS);
    assert_eq!(bo.failures(&key), 3);

    bo.forget(&key);
    assert_eq!(bo.failures(&key), 0);
    assert_eq!(bo.record_failure(&key), BASE_DELAY_MS);
}

#[test]
fn keys_fail_independently() {
    let a = "default/a".to_string();
    let b = "default/b".to_string();
    let mut bo = BackoffTracker::new();

    bo.record_failure(&a);
    bo.record_failure(&a);
    assert_eq!(bo.failures(&a), 2);
    assert_eq!(bo.failures(&b), 0);
    assert_eq!(bo.record_failure(&b), BASE_DELAY_MS);

    bo.forget(&a);
    assert_eq!(bo.failures(&a), 0);
    assert_eq!(bo.failures(&b), 1);
}

#[test]
fn ceiling_stops_retries() {
    let key = "default/a".to_string();
    let mut bo = BackoffTracker::new();
    for _ in 0..FAILURE_CEILING {
        bo.record_failure(&key);
    }
    assert_eq!(bo.failures(&key), FAILURE_CEILING);
    assert!(!bo.should_retry(&key));

    // The count saturates; another failure does not push it past the ceiling.
    bo.record_failure(&key);
    assert_eq!(bo.failures(&key), FAILURE_CEILING);
}
