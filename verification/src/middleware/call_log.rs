//! Call logging: a ring buffer of entries per route and running totals beside
//! it, so that aggregate reads need not load the entries.

use super::types::{CallLogEntry, CallLogState, CallLogSummary, MiddlewareStorage, RouteConfig};
use crate::common::Address;
use vstd::prelude::*;

verus! {

/// The entries of a route's ring, none where it has no ring yet.
pub open spec fn log_entries(storage: MiddlewareStorage, route: Seq<char>) -> Seq<CallLogEntry> {
    if storage.call_logs@.contains_key(route) {
        storage.call_logs@[route].entries@
    } else {
        seq![]
    }
}

/// The head of a route's ring.
pub open spec fn log_head(storage: MiddlewareStorage, route: Seq<char>) -> u32 {
    if storage.call_logs@.contains_key(route) {
        storage.call_logs@[route].head
    } else {
        0
    }
}

/// How many entries of a route's ring have been written.
pub open spec fn log_count(storage: MiddlewareStorage, route: Seq<char>) -> u32 {
    if storage.call_logs@.contains_key(route) {
        storage.call_logs@[route].count
    } else {
        0
    }
}

/// The totals of a route, all zero where it has none yet.
pub open spec fn summary_of(storage: MiddlewareStorage, route: Seq<char>) -> CallLogSummary {
    if storage.call_log_summaries@.contains_key(route) {
        storage.call_log_summaries@[route]
    } else {
        CallLogSummary {
            total_calls: 0,
            success_count: 0,
            failure_count: 0,
            last_call_timestamp: 0,
        }
    }
}

/// The totals with one call more.
pub open spec fn counted(summary: CallLogSummary, success: bool, now: u64) -> CallLogSummary {
    CallLogSummary {
        total_calls: (summary.total_calls + 1) as u64,
        success_count: if success {
            (summary.success_count + 1) as u64
        } else {
            summary.success_count
        },
        failure_count: if success {
            summary.failure_count
        } else {
            (summary.failure_count + 1) as u64
        },
        last_call_timestamp: now,
    }
}

/// `after` is the ring `before` of capacity `cap` with `entry` written to it:
/// behind the others while there is room, else over the oldest.
pub open spec fn is_appended(
    before: Seq<CallLogEntry>,
    head: u32,
    count: u32,
    entry: CallLogEntry,
    cap: u32,
    after: CallLogState,
) -> bool {
    &&& after.entries@ == if before.len() < cap {
        before.push(entry)
    } else {
        before.update(head as int, entry)
    }
    &&& after.head == if before.len() < cap {
        head
    } else {
        ((head + 1) % cap as int) as u32
    }
    &&& after.count == if count < cap {
        (count + 1) as u32
    } else {
        cap
    }
}

/// Whether the logs of `after` are those of `before` with `entry` written to the ring of
/// a route.
pub open spec fn is_logged(
    before: MiddlewareStorage,
    route: Seq<char>,
    entry: CallLogEntry,
    cap: u32,
    after: MiddlewareStorage,
) -> bool {
    let log = after.call_logs@[route];
    &&& after.call_logs@ == before.call_logs@.insert(route, log)
    &&& log.wf()
    &&& is_appended(
        log_entries(before, route),
        log_head(before, route),
        log_count(before, route),
        entry,
        cap,
        log,
    )
}

/// Writes `entry` to a ring of capacity `cap`.
fn append_entry(log: &mut CallLogState, entry: CallLogEntry, cap: u32)
    requires
        old(log).wf(),
        cap > 0,
    ensures
        is_appended(old(log).entries@, old(log).head, old(log).count, entry, cap, *final(log)),
        final(log).wf(),
{
    if log.entries.len() < cap as usize {
        log.entries.push(entry);
    } else {
        log.entries.set(log.head as usize, entry);
        log.head = (log.head + 1) % cap;
    }
    if log.count < cap {
        log.count = log.count + 1;
    } else {
        log.count = cap;
    }
}

/// Logs a call on `route` and counts it in the totals.
///
/// Does nothing where the route retains no log.
pub fn append(
    storage: &mut MiddlewareStorage,
    caller: &Address,
    route: &String,
    success: bool,
    config: &RouteConfig,
    now: u64,
)
    requires
        old(storage).call_logs@.contains_key(route@) ==> old(storage).call_logs@[route@].wf(),
        config.log_retention > 0 ==> {
            let summary = summary_of(*old(storage), route@);
            &&& summary.total_calls < u64::MAX
            &&& success ==> summary.success_count < u64::MAX
            &&& !success ==> summary.failure_count < u64::MAX
        },
    ensures
        final(storage).call_states == old(storage).call_states,
        final(storage).events == old(storage).events,
        config.log_retention == 0 ==> *final(storage) == *old(storage),
        config.log_retention > 0 ==> {
            &&& is_logged(
                *old(storage),
                route@,
                CallLogEntry { caller: *caller, timestamp: now, success, route: *route },
                config.log_retention,
                *final(storage),
            )
            &&& final(storage).call_log_summaries@ == old(storage).call_log_summaries@.insert(
                route@,
                counted(summary_of(*old(storage), route@), success, now),
            )
        },
{
    if config.log_retention == 0 {
        return;
    }
    let entry = CallLogEntry {
        caller: caller.clone(),
        timestamp: now,
        success,
        route: route.clone(),
    };
    let known: bool = storage.call_logs.contains(route);
    if known {
        match storage.call_logs.get_mut(route) {
            Some(log) => append_entry(log, entry, config.log_retention),
            None => {},
        }
    } else {
        let mut log = CallLogState { entries: Vec::new(), head: 0, count: 0 };
        append_entry(&mut log, entry, config.log_retention);
        storage.call_logs.insert(route.clone(), log);
    }
    proof {
        assert(storage.call_logs@ =~= old(storage).call_logs@.insert(
            route@,
            storage.call_logs@[route@],
        ));
    }
    let mut summary: CallLogSummary = match storage.call_log_summaries.get(route) {
        Some(summary) => *summary,
        None => CallLogSummary {
            total_calls: 0,
            success_count: 0,
            failure_count: 0,
            last_call_timestamp: 0,
        },
    };
    summary.total_calls = summary.total_calls + 1;
    if success {
        summary.success_count = summary.success_count + 1;
    } else {
        summary.failure_count = summary.failure_count + 1;
    }
    summary.last_call_timestamp = now;
    storage.call_log_summaries.insert(route.clone(), summary);
}

/// Clears the log and the totals of `route`.
pub fn clear(storage: &mut MiddlewareStorage, route: &String)
    ensures
        final(storage).call_states == old(storage).call_states,
        final(storage).events == old(storage).events,
        final(storage).call_logs@ == old(storage).call_logs@.remove(route@),
        final(storage).call_log_summaries@ == old(storage).call_log_summaries@.remove(route@),
{
    storage.call_logs.remove(route);
    storage.call_log_summaries.remove(route);
}

/// A ring reads, from the oldest entry to the latest, as a queue: a new entry goes
/// to the end, and once the ring is full the oldest one leaves. So it does where
/// the ring has not wrapped before its capacity grew, nor wraps where it shrank;
/// one of constant capacity never does either.
pub proof fn ring_is_a_queue(before: CallLogState, entry: CallLogEntry, cap: u32, after: CallLogState)
    requires
        before.wf(),
        cap > 0,
        before.entries@.len() < cap ==> before.head == 0,
        before.entries@.len() > cap ==> before.head + 1 < cap,
        is_appended(before.entries@, before.head, before.count, entry, cap, after),
    ensures
        after.chronological() == if before.entries@.len() < cap {
            before.chronological().push(entry)
        } else {
            before.chronological().drop_first().push(entry)
        },
        before.entries@.len() <= cap ==> after.entries@.len() <= cap && (after.entries@.len() < cap
            ==> after.head == 0),
{
    if before.entries@.len() < cap {
        assert(after.chronological() =~= before.chronological().push(entry));
    } else {
        let head = before.head as int;
        if head + 1 < cap {
            assert((head + 1) % cap as int == head + 1) by (nonlinear_arith)
                requires
                    0 <= head + 1 < cap,
            ;
        } else {
            assert((head + 1) % cap as int == 0) by (nonlinear_arith)
                requires
                    head + 1 == cap,
                    cap > 0,
            ;
        }
        assert(after.chronological() =~= before.chronological().drop_first().push(entry));
    }
}

/// Whether `states` are those that the storage goes through as entries are logged for a
/// route, one after the other.
pub open spec fn is_log_run(
    states: Seq<MiddlewareStorage>,
    route: Seq<char>,
    entries: Seq<CallLogEntry>,
    cap: u32,
) -> bool {
    &&& states.len() == entries.len() + 1
    &&& forall|i: int|
        0 <= i < entries.len() ==> is_logged(
            states[i],
            route,
            #[trigger] entries[i],
            cap,
            states[i + 1],
        )
}

/// The last `n` of some entries, or all where there are fewer.
pub open spec fn latest(entries: Seq<CallLogEntry>, n: u32) -> Seq<CallLogEntry> {
    if entries.len() <= n {
        entries
    } else {
        entries.skip(entries.len() - n)
    }
}

/// A log that is begun with a constant retention holds, from the oldest to the latest,
/// exactly the latest entries that it retains; the logs of other routes stay as they were.
pub proof fn log_keeps_the_latest(
    states: Seq<MiddlewareStorage>,
    route: Seq<char>,
    entries: Seq<CallLogEntry>,
    cap: u32,
)
    requires
        cap > 0,
        is_log_run(states, route, entries, cap),
        !states[0].call_logs@.contains_key(route),
        entries.len() > 0,
    ensures
        ({
            let kept = latest(entries, cap);
            let log = states.last().call_logs@[route];
            &&& states.last().call_logs@ == states[0].call_logs@.insert(route, log)
            &&& log.count == log.entries@.len() == kept.len()
            &&& log.chronological() == kept
            &&& forall|j: int|
                0 <= j < kept.len() ==> log.entries@[(log.head + j) % kept.len() as int]
                    == #[trigger] kept[j]
        }),
    decreases entries.len(),
{
    let n = entries.len() as int;
    let entry = entries[n - 1];
    let before = states[n - 1];
    let log = states[n].call_logs@[route];
    let kept = latest(entries, cap);
    assert(is_logged(before, route, entry, cap, states[n]));
    if n == 1 {
        assert(log.chronological() =~= kept);
    } else {
        let earlier = entries.drop_last();
        assert forall|i: int| 0 <= i < earlier.len() implies is_logged(
            states.drop_last()[i],
            route,
            #[trigger] earlier[i],
            cap,
            states.drop_last()[i + 1],
        ) by {
            assert(earlier[i] == entries[i]);
        }
        log_keeps_the_latest(states.drop_last(), route, earlier, cap);
        let old_log = before.call_logs@[route];
        assert(states.drop_last().last() == before);
        assert(old_log.chronological() == latest(earlier, cap));
        lemma_head_while_filling(states, route, entries, cap, n - 1);
        ring_is_a_queue(old_log, entry, cap, log);
        assert(log.chronological() =~= kept);
    }
    assert(log.entries@.len() == log.chronological().len());
    assert forall|j: int| 0 <= j < kept.len() implies log.entries@[(log.head + j)
        % kept.len() as int] == #[trigger] kept[j] by {
        let len = kept.len() as int;
        let head = log.head as int;
        if head + j < len {
            assert((head + j) % len == head + j) by (nonlinear_arith)
                requires
                    0 <= head + j < len,
            ;
        } else {
            assert((head + j) % len == head + j - len) by (nonlinear_arith)
                requires
                    len <= head + j < 2 * len,
            ;
        }
        assert(log.chronological()[j] == kept[j]);
    }
    assert(states.last().call_logs@ =~= states[0].call_logs@.insert(route, log));
}

/// As long as a ring is not full, its head stays at the start.
proof fn lemma_head_while_filling(
    states: Seq<MiddlewareStorage>,
    route: Seq<char>,
    entries: Seq<CallLogEntry>,
    cap: u32,
    n: int,
)
    requires
        cap > 0,
        is_log_run(states, route, entries, cap),
        !states[0].call_logs@.contains_key(route),
        0 < n <= entries.len(),
    ensures
        states[n].call_logs@.contains_key(route),
        ({
            let log = states[n].call_logs@[route];
            &&& log.wf()
            &&& log.entries@.len() <= cap
            &&& log.entries@.len() < cap ==> log.head == 0
        }),
    decreases n,
{
    assert(is_logged(states[n - 1], route, entries[n - 1], cap, states[n]));
    if n > 1 {
        lemma_head_while_filling(states, route, entries, cap, n - 1);
    }
}

/// Successes and failures add up to the calls, whatever is counted.
pub proof fn totals_add_up(summary: CallLogSummary, success: bool, now: u64)
    requires
        summary.success_count + summary.failure_count == summary.total_calls,
        summary.total_calls < u64::MAX,
    ensures
        ({
            let after = counted(summary, success, now);
            after.success_count + after.failure_count == after.total_calls
        }),
{
}

} // verus!
