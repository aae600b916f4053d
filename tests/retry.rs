use shopify_api::retry::RetryPolicy;

/// Drives a policy over an operation that fails before attempt `succeed_on`
/// (counted from 1); returns the result and how many attempts were made.
fn drive(max: usize, succeed_on: usize) -> (Result<usize, String>, usize) {
    let mut policy = RetryPolicy::new(max);
    let mut calls: usize = 0;
    loop {
        calls += 1;
        let outcome = if calls == succeed_on { Ok(calls) } else { Err(format!("failure {}", calls)) };
        if let Some(r) = policy.record(outcome) {
            return (r, calls);
        }
    }
}

#[test]
fn succeeds_on_third_attempt() {
    assert_eq!(drive(10, 3), (Ok(3), 3));
}

#[test]
fn succeeds_on_first_attempt() {
    assert_eq!(drive(10, 1), (Ok(1), 1));
}

#[test]
fn succeeds_on_last_allowed_attempt() {
    assert_eq!(drive(4, 4), (Ok(4), 4));
}

#[test]
fn always_failing_returns_last_error() {
    assert_eq!(drive(5, usize::MAX), (Err("failure 5".to_string()), 5));
}

#[test]
fn single_attempt_allowed() {
    assert_eq!(drive(1, usize::MAX), (Err("failure 1".to_string()), 1));
}

#[test]
fn policy_counts_attempts() {
    let mut p = RetryPolicy::new(3);
    assert_eq!(p.record::<u8, u8>(Err(1)), None);
    assert_eq!(p.attempts_made, 1);
    assert_eq!(p.record::<u8, u8>(Err(2)), None);
    assert_eq!(p.record::<u8, u8>(Err(3)), Some(Err(3)));
    assert_eq!(p.attempts_made, 3);
    assert_eq!(p.max_attempts, 3);
}
