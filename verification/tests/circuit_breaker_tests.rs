use scheduling_service::circuit_breaker::{CircuitBreaker, CircuitBreakerConfig, CircuitState};

fn make_breaker(threshold: u32, cooldown_secs: u64) -> CircuitBreaker {
    CircuitBreaker::new(CircuitBreakerConfig {
        failure_threshold: threshold,
        cooldown_secs,
    })
}

#[test]
fn starts_closed() {
    let breaker = make_breaker(3, 10);
    assert_eq!(breaker.state(), CircuitState::Closed);
}

#[test]
fn stays_closed_below_threshold() {
    let mut breaker = make_breaker(3, 10);
    breaker.record_failure(0);
    breaker.record_failure(1);
    assert_eq!(breaker.state(), CircuitState::Closed);
    assert!(breaker.can_execute(2));
}

#[test]
fn opens_at_threshold() {
    let mut breaker = make_breaker(3, 10);
    for t in 0..3 {
        breaker.record_failure(t);
    }
    assert_eq!(breaker.state(), CircuitState::Open);
    assert!(!breaker.can_execute(3));
}

#[test]
fn transitions_to_half_open_after_cooldown() {
    let mut breaker = make_breaker(2, 0);
    breaker.record_failure(0);
    breaker.record_failure(0);
    assert_eq!(breaker.state(), CircuitState::Open);

    // Cooldown is 0 ms, so it should immediately transition
    assert!(breaker.can_execute(0));
    assert_eq!(breaker.state(), CircuitState::HalfOpen);
}

#[test]
fn success_in_half_open_closes() {
    let mut breaker = make_breaker(2, 0);
    breaker.record_failure(0);
    breaker.record_failure(0);
    assert!(breaker.can_execute(0)); // Transitions to HalfOpen
    assert_eq!(breaker.state(), CircuitState::HalfOpen);

    breaker.record_success();
    assert_eq!(breaker.state(), CircuitState::Closed);
    assert_eq!(breaker.consecutive_failures, 0);
}

#[test]
fn failure_in_half_open_reopens() {
    let mut breaker = make_breaker(2, 0);
    breaker.record_failure(0);
    breaker.record_failure(0);
    assert!(breaker.can_execute(0)); // Transitions to HalfOpen

    breaker.record_failure(1);
    assert_eq!(breaker.state(), CircuitState::Open);
}

#[test]
fn success_resets_failure_count() {
    let mut breaker = make_breaker(3, 10);
    breaker.record_failure(0);
    breaker.record_failure(1);
    breaker.record_success();
    assert_eq!(breaker.state(), CircuitState::Closed);

    // Should need 3 more failures to open, not 1
    breaker.record_failure(2);
    assert_eq!(breaker.state(), CircuitState::Closed);
}

#[test]
fn force_close_resets_everything() {
    let mut breaker = make_breaker(2, 100);
    breaker.record_failure(0);
    breaker.record_failure(1);
    assert_eq!(breaker.state(), CircuitState::Open);

    breaker.force_close();
    assert_eq!(breaker.state(), CircuitState::Closed);
    assert_eq!(breaker.consecutive_failures, 0);
    assert!(breaker.last_failure_time.is_none());
    assert!(breaker.can_execute(2));
}

#[test]
fn does_not_allow_execution_when_open_and_cooldown_not_elapsed() {
    let mut breaker = make_breaker(2, 100);
    breaker.record_failure(0);
    breaker.record_failure(1);
    assert_eq!(breaker.state(), CircuitState::Open);
    // 50 s after the last failure, with a 100 s cooldown.
    assert!(!breaker.can_execute(50_001));
}

#[test]
fn cooldown_duration_converts_seconds_to_milliseconds() {
    let config = CircuitBreakerConfig {
        failure_threshold: 5,
        cooldown_secs: 30,
    };
    assert_eq!(config.cooldown_duration(), 30_000);
    let default_config = CircuitBreakerConfig::default();
    assert_eq!(default_config.failure_threshold, 5);
    assert_eq!(default_config.cooldown_secs, 30);
}

#[test]
fn open_breaker_admits_call_after_cooldown_stamped_at_failure_time() {
    let mut breaker = make_breaker(1, 10);
    breaker.record_failure(5_000);
    assert_eq!(breaker.state(), CircuitState::Open);
    // 9 999 ms after the failure: still within the 10 s cooldown.
    assert!(!breaker.can_execute(14_999));
    // Exactly at the cooldown boundary the trial call is admitted.
    assert!(breaker.can_execute(15_000));
    assert_eq!(breaker.state(), CircuitState::HalfOpen);
}
