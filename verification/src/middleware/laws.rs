//! What holds of the call policies: limits, circuits and logs.

use super::call_log::{
    counted, is_appended, is_logged, latest, log_count, log_entries, log_head, summary_of,
};
use super::circuit_breaker::{
    after_check, after_failure, after_success, closed_breaker, failure_opens, is_blocked,
};
use super::rate_limit::{after_call, counter_of, is_exceeded};
use super::types::{
    CallLogEntry, CallLogState, CallLogSummary, CircuitBreakerState, MiddlewareStorage,
    RateLimitState, RouteConfig,
};
use vstd::prelude::*;

verus! {

/// A call is over the limit exactly if there is one, the window that the caller's counter began
/// lasts still, and the counter has reached the limit. A limit of zero stops no call.
pub proof fn calls_beyond_the_limit_are_stopped(
    counter: RateLimitState,
    config: RouteConfig,
    now: u64,
)
    ensures
        is_exceeded(counter, config, now) <==> config.max_calls_per_window >= 1 && now
            < counter.window_start + config.window_seconds && config.max_calls_per_window
            <= counter.calls_in_window,
{
}

/// A call that is let through counts: one more in a window that lasts still, and the first of a
/// new one otherwise, which begins with it. A call that is stopped counts as a violation and as
/// nothing else; violations are never forgotten.
pub proof fn calls_are_counted(counter: RateLimitState, config: RouteConfig, now: u64)
    ensures
        ({
            let after = after_call(counter, config, now);
            let lasts = now < counter.window_start + config.window_seconds;
            let stopped = config.max_calls_per_window >= 1 && lasts && config.max_calls_per_window
                <= counter.calls_in_window;
            &&& stopped ==> after.calls_in_window == counter.calls_in_window && after.window_start
                == counter.window_start
            &&& stopped && counter.total_violations < u32::MAX ==> after.total_violations
                == counter.total_violations + 1
            &&& stopped && counter.total_violations == u32::MAX ==> after.total_violations
                == u32::MAX
            &&& !stopped ==> after.total_violations == counter.total_violations
            &&& !stopped && lasts && counter.calls_in_window < u32::MAX ==> after.calls_in_window
                == counter.calls_in_window + 1 && after.window_start == counter.window_start
            &&& !stopped && !lasts ==> after.calls_in_window == 1 && after.window_start == now
        }),
{
}

/// Callers have counters of their own; a new caller's is empty and begins with the call.
pub proof fn new_callers_start_afresh(
    limits: Map<Seq<char>, RateLimitState>,
    caller: Seq<char>,
    now: u64,
)
    ensures
        limits.contains_key(caller) ==> counter_of(limits, caller, now) == limits[caller],
        !limits.contains_key(caller) ==> {
            let counter = counter_of(limits, caller, now);
            counter.calls_in_window == 0 && counter.window_start == now && counter.total_violations
                == 0
        },
{
}

/// A circuit stops calls exactly while it is open and its recovery window, if it has one, has not
/// passed; a call after that turns it half-open. A circuit that is not open stops nothing and
/// stays as it is.
pub proof fn open_circuits_stop_calls(breaker: CircuitBreakerState, config: RouteConfig, now: u64)
    ensures
        is_blocked(breaker, config, now) <==> breaker.is_open && (config.recovery_window_seconds == 0
            || now < breaker.opened_at + config.recovery_window_seconds),
        !breaker.is_open ==> after_check(breaker, config, now) == breaker,
        breaker.is_open && config.recovery_window_seconds >= 1 && now >= breaker.opened_at
            + config.recovery_window_seconds ==> {
            let after = after_check(breaker, config, now);
            !after.is_open && after.is_half_open && after.failure_count == breaker.failure_count
                && after.opened_at == breaker.opened_at
        },
        is_blocked(breaker, config, now) ==> after_check(breaker, config, now) == breaker,
{
}

/// A failed call opens the circuit exactly if it was half-open, or the failures in a row have
/// reached the threshold with it; it counts the failure, and a circuit that it opens is open from
/// then on. A failed probe begins a new count.
pub proof fn failures_open_the_circuit(breaker: CircuitBreakerState, config: RouteConfig, now: u64)
    requires
        breaker.is_half_open || breaker.failure_count < u32::MAX,
    ensures
        ({
            let after = after_failure(breaker, config, now);
            let opens = breaker.is_half_open || config.failure_threshold <= breaker.failure_count
                + 1;
            &&& failure_opens(breaker, config) <==> opens
            &&& opens ==> after.is_open && after.opened_at == now
            &&& !opens ==> after.is_open == breaker.is_open && after.opened_at == breaker.opened_at
            &&& !after.is_half_open
            &&& breaker.is_half_open ==> after.failure_count == 1
            &&& !breaker.is_half_open ==> after.failure_count == breaker.failure_count + 1
        }),
{
}

/// A successful call forgets the failures of a circuit that is closed or half-open, and closes
/// one that is half-open; an open circuit stays as it is.
pub proof fn successes_close_the_circuit(breaker: CircuitBreakerState)
    ensures
        ({
            let after = after_success(breaker);
            &&& breaker.is_half_open || !breaker.is_open ==> after.failure_count == 0
                && !after.is_half_open
            &&& breaker.is_open && !breaker.is_half_open ==> after == breaker
            &&& after.is_open == breaker.is_open
            &&& after.opened_at == breaker.opened_at
        }),
        closed_breaker().failure_count == 0 && !closed_breaker().is_open
            && !closed_breaker().is_half_open && closed_breaker().opened_at == 0,
{
}

/// A logged call adds one to the calls of its route, and one to its successes or its failures;
/// the time of the latest call is its own.
pub proof fn logged_calls_are_counted(summary: CallLogSummary, success: bool, now: u64)
    requires
        summary.total_calls < u64::MAX,
        summary.success_count < u64::MAX,
        summary.failure_count < u64::MAX,
    ensures
        ({
            let after = counted(summary, success, now);
            &&& after.total_calls == summary.total_calls + 1
            &&& success ==> after.success_count == summary.success_count + 1 && after.failure_count
                == summary.failure_count
            &&& !success ==> after.failure_count == summary.failure_count + 1 && after.success_count
                == summary.success_count
            &&& after.last_call_timestamp == now
        }),
{
}

/// A route that was never logged has no entries and no calls.
pub proof fn unlogged_routes_are_empty(storage: MiddlewareStorage, route: Seq<char>)
    ensures
        !storage.call_logs@.contains_key(route) ==> log_entries(storage, route).len() == 0
            && log_head(storage, route) == 0 && log_count(storage, route) == 0,
        storage.call_logs@.contains_key(route) ==> log_entries(storage, route)
            == storage.call_logs@[route].entries@ && log_head(storage, route)
            == storage.call_logs@[route].head && log_count(storage, route)
            == storage.call_logs@[route].count,
        !storage.call_log_summaries@.contains_key(route) ==> {
            let summary = summary_of(storage, route);
            summary.total_calls == 0 && summary.success_count == 0 && summary.failure_count == 0
                && summary.last_call_timestamp == 0
        },
        storage.call_log_summaries@.contains_key(route) ==> summary_of(storage, route)
            == storage.call_log_summaries@[route],
{
}

/// Writing to a log changes one entry: it is added behind the others while there is room, and
/// else takes the place of the one at the head, which moves on by one, round the capacity.
pub proof fn one_entry_is_written(
    before: Seq<CallLogEntry>,
    head: u32,
    count: u32,
    entry: CallLogEntry,
    cap: u32,
    after: CallLogState,
    i: int,
)
    requires
        is_appended(before, head, count, entry, cap, after),
        cap > 0,
        0 <= head < before.len() || before.len() < cap,
    ensures
        before.len() < cap ==> after.entries@.len() == before.len() + 1 && after.entries@.last()
            == entry && after.head == head,
        before.len() >= cap ==> after.entries@.len() == before.len() && after.entries@[head as int]
            == entry && (0 <= i < before.len() && i != head ==> after.entries@[i] == before[i]),
        before.len() < cap && 0 <= i < before.len() ==> after.entries@[i] == before[i],
        before.len() >= cap && head + 1 < cap ==> after.head == head + 1,
        before.len() >= cap && head + 1 == cap ==> after.head == 0,
        count < cap ==> after.count == count + 1,
        count >= cap ==> after.count == cap,
{
    if head + 1 < cap {
        assert((head + 1) % (cap as int) == head + 1) by (nonlinear_arith)
            requires
                0 <= head,
                head + 1 < cap,
        ;
    }
    if head + 1 == cap {
        assert((head + 1) % (cap as int) == 0) by (nonlinear_arith)
            requires
                head + 1 == cap,
                cap > 0,
        ;
    }
}

/// The latest entries are the last of all, in order, as many as are asked for or as there are.
pub proof fn latest_entries_are_the_last(entries: Seq<CallLogEntry>, n: u32, i: int)
    ensures
        latest(entries, n).len() == if entries.len() < n {
            entries.len()
        } else {
            n as nat
        },
        0 <= i < latest(entries, n).len() ==> latest(entries, n)[latest(entries, n).len() - 1 - i]
            == entries[entries.len() - 1 - i],
{
}

/// Read from the oldest entry to the latest, a log begins at its head and goes round.
pub proof fn logs_are_read_from_the_head(log: CallLogState, i: int)
    requires
        log.wf(),
        0 <= i < log.entries@.len(),
    ensures
        log.chronological().len() == log.entries@.len(),
        log.head + i < log.entries@.len() ==> log.chronological()[i] == log.entries@[log.head + i],
        log.head + i >= log.entries@.len() ==> log.chronological()[i] == log.entries@[log.head + i
            - log.entries@.len()],
{
}

/// Writing an entry to the log of a route leaves the logs of other routes as they were.
pub proof fn other_logs_stay(
    before: MiddlewareStorage,
    route: Seq<char>,
    entry: CallLogEntry,
    cap: u32,
    after: MiddlewareStorage,
    other: Seq<char>,
)
    requires
        is_logged(before, route, entry, cap, after),
        other != route,
    ensures
        after.call_logs@.contains_key(route),
        after.call_logs@[route].wf(),
        after.call_logs@.contains_key(other) == before.call_logs@.contains_key(other),
        before.call_logs@.contains_key(other) ==> after.call_logs@[other]
            == before.call_logs@[other],
{
}

} // verus!
