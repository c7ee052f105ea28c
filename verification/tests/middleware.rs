use stellar_router::middleware::call_log::{append, clear};
use stellar_router::middleware::circuit_breaker::{
    check_and_transition, default_route_call_state, handle_failure, handle_success, reset,
};
use stellar_router::middleware::rate_limit::{check_and_increment, reset_for_caller};
use stellar_router::middleware::types::{MiddlewareStorage, RouteConfig};

fn config() -> RouteConfig {
    RouteConfig {
        max_calls_per_window: 2,
        window_seconds: 60,
        failure_threshold: 3,
        recovery_window_seconds: 100,
        log_retention: 3,
    }
}

fn route() -> String {
    "oracle".to_string()
}

fn caller(name: &str) -> String {
    name.to_string()
}

#[test]
fn log_grows_and_then_overwrites_the_oldest() {
    let mut storage = MiddlewareStorage::new();
    for t in 1..=5u64 {
        append(&mut storage, &caller("a"), &route(), t % 2 == 0, &config(), t);
    }
    let log = storage.call_logs.get(&route()).unwrap();
    let times: Vec<u64> = log.entries.iter().map(|e| e.timestamp).collect();
    assert_eq!(times, vec![4, 5, 3]);
    assert_eq!(log.head, 2);
    assert_eq!(log.count, 3);
    let summary = storage.call_log_summaries.get(&route()).unwrap();
    assert_eq!(summary.total_calls, 5);
    assert_eq!(summary.success_count, 2);
    assert_eq!(summary.failure_count, 3);
    assert_eq!(summary.last_call_timestamp, 5);
    assert_eq!(summary.success_count + summary.failure_count, summary.total_calls);
}

#[test]
fn no_retention_is_no_log() {
    let mut storage = MiddlewareStorage::new();
    let config = RouteConfig { log_retention: 0, ..config() };
    append(&mut storage, &caller("a"), &route(), true, &config, 1);
    assert!(storage.call_logs.get(&route()).is_none());
    assert!(storage.call_log_summaries.get(&route()).is_none());
}

#[test]
fn cleared_log_is_gone() {
    let mut storage = MiddlewareStorage::new();
    let other = "vault".to_string();
    append(&mut storage, &caller("a"), &route(), true, &config(), 1);
    append(&mut storage, &caller("b"), &other, true, &config(), 2);
    clear(&mut storage, &route());
    assert!(storage.call_logs.get(&route()).is_none());
    assert!(storage.call_log_summaries.get(&route()).is_none());
    let log = storage.call_logs.get(&other).unwrap();
    assert_eq!(log.entries[0].caller, "b");
    assert_eq!(log.entries[0].route, "vault");
}

#[test]
fn circuit_opens_at_the_threshold() {
    let mut events = vec![];
    let mut state = default_route_call_state();
    handle_failure(&mut events, &route(), &config(), &mut state, 10);
    handle_failure(&mut events, &route(), &config(), &mut state, 20);
    assert!(!state.circuit_breaker.is_open);
    assert!(events.is_empty());
    handle_failure(&mut events, &route(), &config(), &mut state, 30);
    assert!(state.circuit_breaker.is_open);
    assert_eq!(state.circuit_breaker.opened_at, 30);
    assert_eq!(state.circuit_breaker.failure_count, 3);
    assert_eq!(events.len(), 1);
    assert_eq!(events[0].topic(), "circuit_opened");
}

#[test]
fn success_forgets_failures_of_a_closed_circuit() {
    let mut events = vec![];
    let mut state = default_route_call_state();
    handle_failure(&mut events, &route(), &config(), &mut state, 10);
    handle_failure(&mut events, &route(), &config(), &mut state, 11);
    handle_success(&mut state);
    assert_eq!(state.circuit_breaker.failure_count, 0);
    handle_failure(&mut events, &route(), &config(), &mut state, 12);
    assert!(!state.circuit_breaker.is_open);
}

#[test]
fn open_circuit_blocks_until_it_recovers() {
    let mut state = default_route_call_state();
    state.circuit_breaker.is_open = true;
    state.circuit_breaker.opened_at = 1000;
    assert!(check_and_transition(&config(), &mut state, 1099));
    assert!(state.circuit_breaker.is_open);
    assert!(!check_and_transition(&config(), &mut state, 1100));
    assert!(!state.circuit_breaker.is_open);
    assert!(state.circuit_breaker.is_half_open);
}

#[test]
fn circuit_without_recovery_window_stays_open() {
    let mut state = default_route_call_state();
    state.circuit_breaker.is_open = true;
    let config = RouteConfig { recovery_window_seconds: 0, ..config() };
    assert!(check_and_transition(&config, &mut state, u64::MAX));
}

#[test]
fn probe_closes_or_reopens_the_circuit() {
    let mut events = vec![];
    let mut state = default_route_call_state();
    state.circuit_breaker.is_half_open = true;
    state.circuit_breaker.failure_count = 3;
    handle_success(&mut state);
    assert!(!state.circuit_breaker.is_half_open);
    assert_eq!(state.circuit_breaker.failure_count, 0);

    state.circuit_breaker.is_half_open = true;
    handle_failure(&mut events, &route(), &config(), &mut state, 77);
    assert!(state.circuit_breaker.is_open);
    assert!(!state.circuit_breaker.is_half_open);
    assert_eq!(state.circuit_breaker.opened_at, 77);
    assert_eq!(state.circuit_breaker.failure_count, 1);
    assert_eq!(events.len(), 1);
}

#[test]
fn reset_closes_a_stored_circuit() {
    let mut storage = MiddlewareStorage::new();
    reset(&mut storage, &route());
    assert!(storage.call_states.get(&route()).is_none());
    let mut state = default_route_call_state();
    state.circuit_breaker.is_open = true;
    state.circuit_breaker.failure_count = 9;
    storage.call_states.insert(route(), state);
    reset(&mut storage, &route());
    let breaker = storage.call_states.get(&route()).unwrap().circuit_breaker;
    assert!(!breaker.is_open);
    assert_eq!(breaker.failure_count, 0);
}

#[test]
fn window_admits_the_limit_and_then_restarts() {
    let mut storage = MiddlewareStorage::new();
    let mut state = default_route_call_state();
    let a = caller("a");
    assert!(!check_and_increment(&mut storage, &a, &route(), &config(), &mut state, 100));
    assert!(!check_and_increment(&mut storage, &a, &route(), &config(), &mut state, 120));
    assert!(storage.call_states.get(&route()).is_none());
    assert!(check_and_increment(&mut storage, &a, &route(), &config(), &mut state, 159));
    let stored = storage.call_states.get(&route()).unwrap();
    assert_eq!(stored.rate_limits.get(&a).unwrap().total_violations, 1);
    assert_eq!(stored.rate_limits.get(&a).unwrap().calls_in_window, 2);
    assert!(!check_and_increment(&mut storage, &a, &route(), &config(), &mut state, 160));
    let limits = state.rate_limits.get(&a).unwrap();
    assert_eq!(limits.calls_in_window, 1);
    assert_eq!(limits.window_start, 160);
    assert_eq!(limits.total_violations, 1);
}

#[test]
fn violations_are_counted_beside_the_calls() {
    let mut storage = MiddlewareStorage::new();
    let mut state = default_route_call_state();
    let (a, b) = (caller("a"), caller("b"));
    check_and_increment(&mut storage, &b, &route(), &config(), &mut state, 90);
    for (k, t) in [100u64, 100, 110, 130, 159].into_iter().enumerate() {
        let blocked = check_and_increment(&mut storage, &a, &route(), &config(), &mut state, t);
        assert_eq!(blocked, k >= 2);
    }
    let limits = state.rate_limits.get(&a).unwrap();
    assert_eq!(limits.calls_in_window, 2);
    assert_eq!(limits.window_start, 100);
    assert_eq!(limits.total_violations, 3);
    let other = state.rate_limits.get(&b).unwrap();
    assert_eq!(other.calls_in_window, 1);
    assert_eq!(other.window_start, 90);
}

#[test]
fn log_keeps_the_latest_calls_in_order() {
    let mut storage = MiddlewareStorage::new();
    append(&mut storage, &caller("z"), &"other".to_string(), true, &config(), 7);
    for n in 1..=8u64 {
        append(&mut storage, &caller("a"), &route(), true, &config(), n);
        let log = storage.call_logs.get(&route()).unwrap();
        let len = log.entries.len();
        assert_eq!(len, std::cmp::min(n, 3) as usize);
        assert_eq!(log.count as usize, len);
        for j in 0..len {
            let entry = &log.entries[(log.head as usize + j) % len];
            assert_eq!(entry.timestamp, n - (len - 1 - j) as u64);
        }
    }
    assert_eq!(storage.call_logs.get(&"other".to_string()).unwrap().entries.len(), 1);
}

#[test]
fn callers_are_limited_separately() {
    let mut storage = MiddlewareStorage::new();
    let mut state = default_route_call_state();
    for _ in 0..2 {
        check_and_increment(&mut storage, &caller("a"), &route(), &config(), &mut state, 0);
    }
    assert!(check_and_increment(&mut storage, &caller("a"), &route(), &config(), &mut state, 0));
    assert!(!check_and_increment(&mut storage, &caller("b"), &route(), &config(), &mut state, 0));
}

#[test]
fn zero_limit_is_unlimited() {
    let mut storage = MiddlewareStorage::new();
    let mut state = default_route_call_state();
    let config = RouteConfig { max_calls_per_window: 0, ..config() };
    for _ in 0..10 {
        assert!(!check_and_increment(&mut storage, &caller("a"), &route(), &config, &mut state, 0));
    }
    assert!(state.rate_limits.get(&caller("a")).is_none());
}

#[test]
fn reset_forgets_one_caller() {
    let mut storage = MiddlewareStorage::new();
    let mut state = default_route_call_state();
    check_and_increment(&mut storage, &caller("a"), &route(), &config(), &mut state, 0);
    check_and_increment(&mut storage, &caller("b"), &route(), &config(), &mut state, 0);
    storage.call_states.insert(route(), state);
    reset_for_caller(&mut storage, &route(), &caller("a"));
    reset_for_caller(&mut storage, &"vault".to_string(), &caller("a"));
    let stored = storage.call_states.get(&route()).unwrap();
    assert!(stored.rate_limits.get(&caller("a")).is_none());
    assert_eq!(stored.rate_limits.get(&caller("b")).unwrap().calls_in_window, 1);
    assert!(storage.call_states.get(&"vault".to_string()).is_none());
}
