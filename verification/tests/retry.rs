use dirdocs::retry::{after_attempt, backoff_ms, jitter_nanos, AfterAttempt};

#[test]
fn backoff_doubles_up_to_the_cap() {
    assert_eq!(backoff_ms(1), 300);
    assert_eq!(backoff_ms(2), 600);
    assert_eq!(backoff_ms(3), 1200);
    assert_eq!(backoff_ms(4), 2400);
    assert_eq!(backoff_ms(5), 4800);
    assert_eq!(backoff_ms(6), 8000);
    assert_eq!(backoff_ms(17), 8000);
    assert_eq!(backoff_ms(1000), 8000);
    assert_eq!(backoff_ms(usize::MAX), 8000);
}

#[test]
fn backoff_before_the_first_attempt_is_the_base() {
    assert_eq!(backoff_ms(0), 300);
}

#[test]
fn jitter_stays_below_a_quarter_second() {
    assert_eq!(jitter_nanos(0), 0);
    assert_eq!(jitter_nanos(249_999_999), 249_999_999);
    assert_eq!(jitter_nanos(250_000_000), 0);
    assert_eq!(jitter_nanos(999_999_999), 249_999_999);
    assert_eq!(jitter_nanos(u32::MAX), (u32::MAX % 250_000_000) as u64);
}

#[test]
fn success_ends_the_attempts() {
    assert_eq!(after_attempt(1, 5, true, 7), AfterAttempt::Done);
    assert_eq!(after_attempt(5, 5, true, 7), AfterAttempt::Done);
}

#[test]
fn last_failure_gives_up() {
    assert_eq!(after_attempt(5, 5, false, 7), AfterAttempt::GiveUp);
    assert_eq!(after_attempt(1, 1, false, 7), AfterAttempt::GiveUp);
}

#[test]
fn earlier_failure_waits() {
    assert_eq!(after_attempt(1, 5, false, 7), AfterAttempt::Wait { millis: 300, nanos: 7 });
    assert_eq!(after_attempt(4, 5, false, 123), AfterAttempt::Wait { millis: 2400, nanos: 123 });
}
