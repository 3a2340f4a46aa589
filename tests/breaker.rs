use edgeserve::circuit_breaker::{CallError, CircuitBreaker, Config, Rejection, State};

fn config() -> Config {
    Config { failure_threshold: 5, success_threshold: 2, timeout_ms: 30_000, half_open_max_calls: 3 }
}

#[test]
fn circuit_opens_and_recovers() {
    let mut cb = CircuitBreaker::new(config());
    let t = 1_000_000u64;
    for _ in 0..5 {
        assert!(cb.try_acquire(t).is_ok());
        cb.on_failure(t);
    }
    assert_eq!(cb.get_state(), State::Open);
    assert_eq!(cb.try_acquire(t + 10_000), Err(Rejection::BreakerOpen));
    assert_eq!(cb.get_state(), State::Open);
    assert!(cb.try_acquire(t + 35_000).is_ok());
    assert_eq!(cb.get_state(), State::HalfOpen);
    cb.on_success();
    assert_eq!(cb.get_state(), State::HalfOpen);
    assert!(cb.try_acquire(t + 35_001).is_ok());
    cb.on_success();
    assert_eq!(cb.get_state(), State::Closed);
    let stats = cb.get_stats();
    assert_eq!(stats.total_requests, 8);
    assert_eq!(stats.total_failures, 5);
}

#[test]
fn half_open_cap_rejects_extra_call() {
    let mut cb = CircuitBreaker::new(config());
    for _ in 0..5 {
        cb.on_failure(0);
    }
    assert!(cb.try_acquire(30_000).is_ok());
    assert!(cb.try_acquire(30_000).is_ok());
    assert!(cb.try_acquire(30_000).is_ok());
    assert_eq!(cb.try_acquire(30_000), Err(Rejection::HalfOpenCap));
    assert_eq!(cb.get_state(), State::HalfOpen);
}

#[test]
fn half_open_failure_reopens() {
    let mut cb = CircuitBreaker::new(config());
    for _ in 0..5 {
        cb.on_failure(0);
    }
    assert!(cb.try_acquire(40_000).is_ok());
    cb.on_failure(40_000);
    assert_eq!(cb.get_state(), State::Open);
    assert_eq!(cb.try_acquire(60_000), Err(Rejection::BreakerOpen));
}

#[test]
fn success_in_closed_resets_failures() {
    let mut cb = CircuitBreaker::new(config());
    for _ in 0..4 {
        cb.on_failure(0);
    }
    cb.on_success();
    assert_eq!(cb.get_stats().current_failures, 0);
    for _ in 0..4 {
        cb.on_failure(0);
    }
    assert_eq!(cb.get_state(), State::Closed);
}

#[test]
fn guarded_calls() {
    let mut cb = CircuitBreaker::new(Config { failure_threshold: 1, success_threshold: 1, timeout_ms: 100, half_open_max_calls: 1 });
    let ok: Result<u32, CallError<&str>> = cb.call(0, || Ok::<u32, &str>(7));
    assert_eq!(ok.unwrap(), 7);
    let failed = cb.call(1, || Err::<u32, &str>("boom"));
    assert!(matches!(failed, Err(CallError::Failed("boom"))));
    assert_eq!(cb.get_state(), State::Open);
    let mut made = false;
    let refused = cb.call(50, || {
        made = true;
        Ok::<u32, &str>(1)
    });
    assert!(matches!(refused, Err(CallError::Rejected(Rejection::BreakerOpen))));
    let closed_count = cb.get_stats().total_failures;
    assert_eq!(closed_count, 1);
    assert!(!made);
    assert!(cb.call(101, || Ok::<u32, &str>(1)).is_ok());
    assert_eq!(cb.get_state(), State::Closed);
}
