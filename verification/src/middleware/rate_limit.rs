//! Per-caller rate limiting: a fixed-window counter for each route and caller.
//!
//! The window resets on the first call after `window_seconds` have passed since
//! its start.

use super::types::{MiddlewareStorage, RateLimitState, RouteCallState, RouteConfig};
use crate::common::Address;
use vstd::prelude::*;

verus! {

/// The counter of a caller, a fresh one where there is none.
pub open spec fn counter_of(
    limits: Map<Seq<char>, RateLimitState>,
    caller: Seq<char>,
    now: u64,
) -> RateLimitState {
    if limits.contains_key(caller) {
        limits[caller]
    } else {
        RateLimitState { calls_in_window: 0, window_start: now, total_violations: 0 }
    }
}

/// Whether the window of a counter is over at `now`.
pub open spec fn window_elapsed(counter: RateLimitState, config: RouteConfig, now: u64) -> bool {
    now >= counter.window_start + config.window_seconds
}

/// Whether a call at `now` exceeds the limit.
pub open spec fn is_exceeded(counter: RateLimitState, config: RouteConfig, now: u64) -> bool {
    &&& config.max_calls_per_window > 0
    &&& !window_elapsed(counter, config, now)
    &&& counter.calls_in_window >= config.max_calls_per_window
}

/// The counter after a call at `now` under a limit: a call over the limit counts
/// as a violation only.
pub open spec fn after_call(counter: RateLimitState, config: RouteConfig, now: u64) -> RateLimitState {
    if is_exceeded(counter, config, now) {
        RateLimitState {
            total_violations: if counter.total_violations < u32::MAX {
                (counter.total_violations + 1) as u32
            } else {
                u32::MAX
            },
            ..counter
        }
    } else if window_elapsed(counter, config, now) {
        RateLimitState { calls_in_window: 1, window_start: now, ..counter }
    } else {
        RateLimitState { calls_in_window: (counter.calls_in_window + 1) as u32, ..counter }
    }
}

/// Checks and updates the limit of `caller` on `route`. Returns `true` if the
/// call is over the limit and to be blocked; the violation is then written to
/// storage at once.
pub fn check_and_increment(
    storage: &mut MiddlewareStorage,
    caller: &Address,
    route: &String,
    config: &RouteConfig,
    route_call_state: &mut RouteCallState,
    now: u64,
) -> (r: bool)
    requires
        config.max_calls_per_window > 0 ==> counter_of(
            old(route_call_state).rate_limits@,
            caller@,
            now,
        ).window_start + config.window_seconds <= u64::MAX,
    ensures
        r == is_exceeded(
            counter_of(old(route_call_state).rate_limits@, caller@, now),
            *config,
            now,
        ),
        final(route_call_state).circuit_breaker == old(route_call_state).circuit_breaker,
        final(route_call_state).rate_limits@ == if config.max_calls_per_window == 0 {
            old(route_call_state).rate_limits@
        } else {
            old(route_call_state).rate_limits@.insert(
                caller@,
                after_call(
                    counter_of(old(route_call_state).rate_limits@, caller@, now),
                    *config,
                    now,
                ),
            )
        },
        !r ==> *final(storage) == *old(storage),
        r ==> {
            let written = final(storage).call_states@[route@];
            &&& final(storage).call_states@ == old(storage).call_states@.insert(route@, written)
            &&& written.rate_limits@ == final(route_call_state).rate_limits@
            &&& written.circuit_breaker == final(route_call_state).circuit_breaker
            &&& final(storage).call_logs == old(storage).call_logs
            &&& final(storage).call_log_summaries == old(storage).call_log_summaries
            &&& final(storage).events == old(storage).events
        },
{
    if config.max_calls_per_window == 0 {
        return false;
    }
    let state: RateLimitState = match route_call_state.rate_limits.get(caller) {
        Some(state) => *state,
        None => RateLimitState { calls_in_window: 0, window_start: now, total_violations: 0 },
    };
    let window_elapsed: bool = now >= state.window_start + config.window_seconds;
    let calls: u32 = if window_elapsed {
        0
    } else {
        state.calls_in_window
    };
    let window_start: u64 = if window_elapsed {
        now
    } else {
        state.window_start
    };
    if calls >= config.max_calls_per_window {
        let mut violation: RateLimitState = state;
        violation.total_violations = violation.total_violations.saturating_add(1);
        route_call_state.rate_limits.insert(caller.clone(), violation);
        let written: RouteCallState = route_call_state.snapshot();
        storage.call_states.insert(route.clone(), written);
        return true;
    }
    route_call_state.rate_limits.insert(
        caller.clone(),
        RateLimitState {
            calls_in_window: calls + 1,
            window_start,
            total_violations: state.total_violations,
        },
    );
    false
}

/// Forgets the counter of one caller on a route.
pub fn reset_for_caller(storage: &mut MiddlewareStorage, route: &String, caller: &Address)
    ensures
        final(storage).call_logs == old(storage).call_logs,
        final(storage).call_log_summaries == old(storage).call_log_summaries,
        final(storage).events == old(storage).events,
        !old(storage).call_states@.contains_key(route@) ==> final(storage).call_states@ == old(
            storage,
        ).call_states@,
        old(storage).call_states@.contains_key(route@) ==> {
            let before = old(storage).call_states@[route@];
            let after = final(storage).call_states@[route@];
            &&& final(storage).call_states@ == old(storage).call_states@.insert(route@, after)
            &&& after.rate_limits@ == before.rate_limits@.remove(caller@)
            &&& after.circuit_breaker == before.circuit_breaker
        },
{
    match storage.call_states.get_mut(route) {
        Some(state) => {
            state.rate_limits.remove(caller);
        },
        None => {},
    }
}

/// The counters after calls of one caller, each at its time.
pub open spec fn after_calls(
    config: RouteConfig,
    limits: Map<Seq<char>, RateLimitState>,
    caller: Seq<char>,
    times: Seq<u64>,
) -> Map<Seq<char>, RateLimitState>
    decreases times.len(),
{
    if times.len() == 0 {
        limits
    } else {
        let before = after_calls(config, limits, caller, times.drop_last());
        before.insert(
            caller,
            after_call(counter_of(before, caller, times.last()), config, times.last()),
        )
    }
}

/// Whether calls come in order, all within the window that the first one opens.
pub open spec fn within_one_window(config: RouteConfig, times: Seq<u64>) -> bool {
    &&& forall|i: int, j: int| 0 <= i <= j < times.len() ==> times[i] <= times[j]
    &&& forall|i: int| 0 <= i < times.len() ==> #[trigger] times[i] < times[0] + config.window_seconds
}

/// The counter of a caller after `n` calls within the window opened at `start`: no more
/// calls than the limit are counted, and those beyond it as violations.
pub open spec fn window_count(config: RouteConfig, start: u64, n: nat) -> RateLimitState {
    let let_through = if n < config.max_calls_per_window {
        n
    } else {
        config.max_calls_per_window as nat
    };
    RateLimitState {
        calls_in_window: let_through as u32,
        window_start: start,
        total_violations: if n - let_through < u32::MAX {
            (n - let_through) as u32
        } else {
            u32::MAX
        },
    }
}

/// Calls of a new caller within one window are counted in that caller's counter, and
/// leave every other as it was.
pub proof fn window_is_counted(
    config: RouteConfig,
    limits: Map<Seq<char>, RateLimitState>,
    caller: Seq<char>,
    times: Seq<u64>,
)
    requires
        config.max_calls_per_window > 0,
        !limits.contains_key(caller),
        times.len() > 0,
        within_one_window(config, times),
    ensures
        after_calls(config, limits, caller, times) == limits.insert(
            caller,
            window_count(config, times[0], times.len()),
        ),
    decreases times.len(),
{
    let earlier = times.drop_last();
    let now = times.last();
    assert(times[times.len() - 1] == now);
    assert(times[0] <= now < times[0] + config.window_seconds);
    if earlier.len() > 0 {
        assert forall|i: int| 0 <= i < earlier.len() implies #[trigger] earlier[i] < earlier[0]
            + config.window_seconds by {
            assert(times[i] == earlier[i]);
        }
        window_is_counted(config, limits, caller, earlier);
    } else {
        assert(after_calls(config, limits, caller, earlier) == limits);
    }
    assert(after_calls(config, limits, caller, times) =~= limits.insert(
        caller,
        window_count(config, times[0], times.len()),
    ));
}

/// Of the calls of a new caller within one window exactly the first
/// `max_calls_per_window` are let through; the first call after the window is let through
/// again, and starts a new window.
pub proof fn window_admits_the_limit(
    config: RouteConfig,
    limits: Map<Seq<char>, RateLimitState>,
    caller: Seq<char>,
    times: Seq<u64>,
    now: u64,
)
    requires
        config.max_calls_per_window > 0,
        !limits.contains_key(caller),
        within_one_window(config, times),
    ensures
        ({
            let counter = counter_of(after_calls(config, limits, caller, times), caller, now);
            if times.len() == 0 || now < times[0] + config.window_seconds {
                is_exceeded(counter, config, now) <==> times.len() >= config.max_calls_per_window
            } else {
                let after = after_call(counter, config, now);
                &&& !is_exceeded(counter, config, now)
                &&& after.calls_in_window == 1
                &&& after.window_start == now
                &&& after.total_violations == counter.total_violations
            }
        }),
{
    if times.len() > 0 {
        window_is_counted(config, limits, caller, times);
    }
}

} // verus!
