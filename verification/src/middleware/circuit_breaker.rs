//! Circuit breaker state machine.
//!
//! A route's circuit opens when failures in a row reach a threshold. While it is
//! open calls are blocked. Once the recovery window has passed it is half-open:
//! the next outcome closes it or opens it again.

use super::types::{
    CircuitBreakerState, MiddlewareEvent, MiddlewareStorage, RateLimitState, RouteCallState,
    RouteConfig,
};
use crate::store::KeyedStore;
use vstd::prelude::*;

verus! {

/// A closed circuit without failures.
pub open spec fn closed_breaker() -> CircuitBreakerState {
    CircuitBreakerState { failure_count: 0, opened_at: 0, is_open: false, is_half_open: false }
}

/// Whether an open circuit admits a probe at `now`.
pub open spec fn recovers(breaker: CircuitBreakerState, config: RouteConfig, now: u64) -> bool {
    config.recovery_window_seconds > 0 && now >= breaker.opened_at
        + config.recovery_window_seconds
}

/// The breaker once a call has been let through or blocked at `now`.
pub open spec fn after_check(
    breaker: CircuitBreakerState,
    config: RouteConfig,
    now: u64,
) -> CircuitBreakerState {
    if breaker.is_open && recovers(breaker, config, now) {
        CircuitBreakerState { is_open: false, is_half_open: true, ..breaker }
    } else {
        breaker
    }
}

/// Whether a call is blocked at `now`.
pub open spec fn is_blocked(breaker: CircuitBreakerState, config: RouteConfig, now: u64) -> bool {
    breaker.is_open && !recovers(breaker, config, now)
}

/// The breaker after a failed call.
pub open spec fn after_failure(
    breaker: CircuitBreakerState,
    config: RouteConfig,
    now: u64,
) -> CircuitBreakerState {
    if breaker.is_half_open {
        CircuitBreakerState { failure_count: 1, opened_at: now, is_open: true, is_half_open: false }
    } else if breaker.failure_count + 1 >= config.failure_threshold {
        CircuitBreakerState {
            failure_count: (breaker.failure_count + 1) as u32,
            opened_at: now,
            is_open: true,
            is_half_open: false,
        }
    } else {
        CircuitBreakerState {
            failure_count: (breaker.failure_count + 1) as u32,
            opened_at: breaker.opened_at,
            is_open: breaker.is_open,
            is_half_open: false,
        }
    }
}

/// Whether a failed call opens the circuit, or opens it anew.
pub open spec fn failure_opens(breaker: CircuitBreakerState, config: RouteConfig) -> bool {
    breaker.is_half_open || breaker.failure_count + 1 >= config.failure_threshold
}

/// The breaker after a successful call.
pub open spec fn after_success(breaker: CircuitBreakerState) -> CircuitBreakerState {
    if breaker.is_half_open {
        CircuitBreakerState { failure_count: 0, is_half_open: false, ..breaker }
    } else if !breaker.is_open {
        CircuitBreakerState { failure_count: 0, ..breaker }
    } else {
        breaker
    }
}

/// Checks the circuit before a call and makes it half-open if the recovery
/// window has passed. Returns `true` if the call is to be blocked.
pub fn check_and_transition(
    config: &RouteConfig,
    route_call_state: &mut RouteCallState,
    now: u64,
) -> (r: bool)
    requires
        old(route_call_state).circuit_breaker.is_open ==> old(
            route_call_state,
        ).circuit_breaker.opened_at + config.recovery_window_seconds <= u64::MAX,
    ensures
        r == is_blocked(old(route_call_state).circuit_breaker, *config, now),
        final(route_call_state).circuit_breaker == after_check(
            old(route_call_state).circuit_breaker,
            *config,
            now,
        ),
        final(route_call_state).rate_limits == old(route_call_state).rate_limits,
{
    if route_call_state.circuit_breaker.is_open {
        let recovers: bool = config.recovery_window_seconds > 0 && now
            >= route_call_state.circuit_breaker.opened_at + config.recovery_window_seconds;
        if recovers {
            route_call_state.circuit_breaker.is_open = false;
            route_call_state.circuit_breaker.is_half_open = true;
            false
        } else {
            true
        }
    } else {
        false
    }
}

/// Counts a failed call: opens the circuit at the threshold, and opens it again
/// if the call was the probe of a half-open circuit.
pub fn handle_failure(
    events: &mut Vec<MiddlewareEvent>,
    route: &String,
    config: &RouteConfig,
    route_call_state: &mut RouteCallState,
    now: u64,
)
    requires
        old(route_call_state).circuit_breaker.is_half_open || old(
            route_call_state,
        ).circuit_breaker.failure_count < u32::MAX,
    ensures
        final(route_call_state).circuit_breaker == after_failure(
            old(route_call_state).circuit_breaker,
            *config,
            now,
        ),
        final(route_call_state).rate_limits == old(route_call_state).rate_limits,
        final(events)@ == if failure_opens(old(route_call_state).circuit_breaker, *config) {
            old(events)@.push(
                MiddlewareEvent::CircuitOpened {
                    route: *route,
                    failure_count: final(route_call_state).circuit_breaker.failure_count,
                },
            )
        } else {
            old(events)@
        },
{
    if route_call_state.circuit_breaker.is_half_open {
        route_call_state.circuit_breaker.is_half_open = false;
        route_call_state.circuit_breaker.is_open = true;
        route_call_state.circuit_breaker.opened_at = now;
        route_call_state.circuit_breaker.failure_count = 1;
        events.push(
            MiddlewareEvent::CircuitOpened {
                route: route.clone(),
                failure_count: route_call_state.circuit_breaker.failure_count,
            },
        );
    } else {
        route_call_state.circuit_breaker.failure_count = route_call_state.circuit_breaker.failure_count
            + 1;
        if route_call_state.circuit_breaker.failure_count >= config.failure_threshold {
            route_call_state.circuit_breaker.is_open = true;
            route_call_state.circuit_breaker.opened_at = now;
            events.push(
                MiddlewareEvent::CircuitOpened {
                    route: route.clone(),
                    failure_count: route_call_state.circuit_breaker.failure_count,
                },
            );
        }
    }
}

/// Takes in a successful call: closes a half-open circuit, and forgets the
/// failures of a closed one.
pub fn handle_success(route_call_state: &mut RouteCallState)
    ensures
        final(route_call_state).circuit_breaker == after_success(
            old(route_call_state).circuit_breaker,
        ),
        final(route_call_state).rate_limits == old(route_call_state).rate_limits,
{
    if route_call_state.circuit_breaker.is_half_open {
        route_call_state.circuit_breaker.is_half_open = false;
        route_call_state.circuit_breaker.failure_count = 0;
    } else if !route_call_state.circuit_breaker.is_open
        && route_call_state.circuit_breaker.failure_count > 0 {
        route_call_state.circuit_breaker.failure_count = 0;
    }
}

/// Closes the circuit of a route, if calls on the route have left any state.
pub fn reset(storage: &mut MiddlewareStorage, route: &String)
    ensures
        final(storage).call_logs == old(storage).call_logs,
        final(storage).call_log_summaries == old(storage).call_log_summaries,
        final(storage).events == old(storage).events,
        final(storage).call_states@ == if old(storage).call_states@.contains_key(route@) {
            old(storage).call_states@.insert(
                route@,
                RouteCallState {
                    rate_limits: old(storage).call_states@[route@].rate_limits,
                    circuit_breaker: closed_breaker(),
                },
            )
        } else {
            old(storage).call_states@
        },
{
    match storage.call_states.get_mut(route) {
        Some(state) => {
            state.circuit_breaker = CircuitBreakerState {
                failure_count: 0,
                opened_at: 0,
                is_open: false,
                is_half_open: false,
            };
        },
        None => {},
    }
}

/// The state of a route without calls: no rate limits and a closed circuit.
pub fn default_route_call_state() -> (r: RouteCallState)
    ensures
        r.rate_limits@ == Map::<Seq<char>, RateLimitState>::empty(),
        r.circuit_breaker == closed_breaker(),
{
    RouteCallState {
        rate_limits: KeyedStore::new(),
        circuit_breaker: CircuitBreakerState {
            failure_count: 0,
            opened_at: 0,
            is_open: false,
            is_half_open: false,
        },
    }
}

/// The breaker after `n` failures in a row, all at `now`.
pub open spec fn after_failures(
    breaker: CircuitBreakerState,
    config: RouteConfig,
    now: u64,
    n: nat,
) -> CircuitBreakerState
    decreases n,
{
    if n == 0 {
        breaker
    } else {
        after_failure(after_failures(breaker, config, now, (n - 1) as nat), config, now)
    }
}

/// Failures in a row on a fresh circuit open it at the threshold and not before.
pub proof fn threshold_opens_the_circuit(config: RouteConfig, now: u64, n: nat)
    requires
        0 < n <= u32::MAX,
    ensures
        after_failures(closed_breaker(), config, now, n).is_open <==> n
            >= config.failure_threshold,
        after_failures(closed_breaker(), config, now, n).failure_count == n,
        !after_failures(closed_breaker(), config, now, n).is_half_open,
    decreases n,
{
    if n > 1 {
        threshold_opens_the_circuit(config, now, (n - 1) as nat);
    } else {
        assert(after_failures(closed_breaker(), config, now, 0) == closed_breaker());
    }
}

/// No step leaves a circuit open and half-open at once.
pub proof fn never_open_and_half_open(breaker: CircuitBreakerState, config: RouteConfig, now: u64)
    requires
        !(breaker.is_open && breaker.is_half_open),
    ensures
        ({
            let b = after_check(breaker, config, now);
            !(b.is_open && b.is_half_open)
        }),
        ({
            let b = after_failure(breaker, config, now);
            !(b.is_open && b.is_half_open)
        }),
        ({
            let b = after_success(breaker);
            !(b.is_open && b.is_half_open)
        }),
{
}

/// An open circuit blocks every call until its recovery window has passed. The
/// first call after that is let through, and its outcome decides: a success
/// closes the circuit, a failure opens it for another window.
pub proof fn probe_decides(
    breaker: CircuitBreakerState,
    config: RouteConfig,
    now: u64,
    later: u64,
)
    requires
        breaker.is_open,
    ensures
        is_blocked(breaker, config, now) <==> config.recovery_window_seconds == 0 || now
            < breaker.opened_at + config.recovery_window_seconds,
        is_blocked(breaker, config, now) ==> after_check(breaker, config, now) == breaker,
        !is_blocked(breaker, config, now) ==> {
            let probing = after_check(breaker, config, now);
            let closed = after_success(probing);
            let reopened = after_failure(probing, config, later);
            &&& !closed.is_open && !closed.is_half_open && closed.failure_count == 0
            &&& reopened.is_open && reopened.opened_at == later && reopened.failure_count == 1
        },
{
}

} // verus!
