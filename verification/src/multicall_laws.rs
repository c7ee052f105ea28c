//! What holds of batches of calls: which calls are made, what is reported, kept and published.

use crate::common::{failure_views, Address, BatchCallResult, CallResult, CallSuccess};
use crate::multicall::{
    attempted, attempted_up_to_first_stop, budget_failures, call_result, ends_early,
    every_attempt_is_recorded, failure_message, failures, is_executed, is_recorded, stops,
    stored_results_read_back, successes, summary, BatchRun, BatchStep, BatchSummary,
    CallDescriptor, MulticallError, MulticallEvent, RouterMulticall,
};
use vstd::prelude::*;

verus! {

/// A batch ends before its time exactly with a failed call that is required, or with any
/// failed call where it is to fail fast.
pub proof fn failed_calls_end_a_batch(call: CallDescriptor, success: bool, fail_fast: bool)
    ensures
        stops(call, success, fail_fast) <==> !success && (call.required || fail_fast),
{
}

/// What is remembered of a call is where it went and how it ended; a call that failed is
/// recorded as over budget exactly if a budget was set for it.
pub proof fn calls_are_remembered(call: CallDescriptor, success: bool)
    ensures
        call_result(call, success).target == call.target,
        call_result(call, success).function == call.function,
        call_result(call, success).success == success,
        failure_message(call) == if call.instruction_budget is Some {
            "budget_exceeded"@
        } else {
            "invoke_failed"@
        },
{
}

/// A batch is refused exactly while another is under way, if it is empty, before the contract
/// is set up, or if it has more calls than are accepted; the first of these that holds is the
/// answer.
pub proof fn acceptable_batches(state: RouterMulticall, calls: Seq<CallDescriptor>)
    ensures
        state.refusal(calls) is None <==> !state.executing && calls.len() >= 1
            && state.max_batch_size is Some && calls.len() <= state.max_batch_size->0,
        !state.executing && calls.len() == 0 <==> state.refusal(calls) == Some(
            MulticallError::EmptyBatch,
        ),
        !state.executing && calls.len() > 0 && state.max_batch_size is None <==> state.refusal(
            calls,
        ) == Some(MulticallError::NotInitialized),
        !state.executing && calls.len() > 0 && state.max_batch_size is Some && calls.len()
            > state.max_batch_size->0 <==> state.refusal(calls) == Some(
            MulticallError::BatchTooLarge,
        ),
{
}

/// Whether the first `n` calls of a batch are those that are made: none before the last of them
/// is a failed call that is required, nor any failed call where the batch is to fail fast; and
/// they are all calls, or the last of them is such a call.
pub open spec fn are_made(
    calls: Seq<CallDescriptor>,
    outcomes: Seq<bool>,
    fail_fast: bool,
    n: int,
) -> bool {
    &&& 1 <= n <= calls.len()
    &&& forall|j: int|
        0 <= j < n - 1 ==> outcomes[j] || !((#[trigger] calls[j]).required || fail_fast)
    &&& n == calls.len() || (!outcomes[n - 1] && (calls[n - 1].required || fail_fast))
}

/// A batch makes exactly those calls.
proof fn lemma_made(calls: Seq<CallDescriptor>, outcomes: Seq<bool>, fail_fast: bool, n: int)
    requires
        are_made(calls, outcomes, fail_fast, n),
    ensures
        attempted(calls, outcomes, fail_fast, calls.len()) == n,
        ends_early(calls, outcomes, fail_fast) == (!outcomes[n - 1] && (calls[n - 1].required
            || fail_fast)),
{
    attempted_up_to_first_stop(calls, outcomes, fail_fast, calls.len());
    let m = attempted(calls, outcomes, fail_fast, calls.len());
    if m < n {
        assert(stops(calls[m - 1], outcomes[m - 1], fail_fast));
        assert(outcomes[m - 1] || !(calls[m - 1].required || fail_fast));
    }
    if n < m {
        assert(!stops(calls[n - 1], outcomes[n - 1], fail_fast));
    }
}

/// An accepted batch fails exactly if the last call that is made fails and is required.
/// Otherwise every call that is made is reported: a success under its index with what was
/// called, a failure under its index with its message, and nothing else.
pub proof fn batch_reports_what_was_made(
    before: RouterMulticall,
    caller: Address,
    calls: Seq<CallDescriptor>,
    simulate: bool,
    store_results: bool,
    fail_fast: bool,
    outcomes: Seq<bool>,
    result: Result<BatchCallResult, MulticallError>,
    after: RouterMulticall,
    n: int,
    i: int,
)
    requires
        is_executed(
            before,
            caller,
            calls,
            simulate,
            store_results,
            fail_fast,
            outcomes,
            result,
            after,
        ),
        before.refusal(calls) is None,
        are_made(calls, outcomes, fail_fast, n),
        0 <= i < n <= u32::MAX,
    ensures
        result is Err <==> !outcomes[n - 1] && calls[n - 1].required,
        result matches Err(e) ==> e == MulticallError::RequiredCallFailed,
        result matches Ok(report) ==> {
            &&& report.successes@.len() + report.failures@.len() == n
            &&& outcomes[i] ==> report.successes@.contains(
                CallSuccess {
                    index: i as u32,
                    result: CallResult {
                        target: calls[i].target,
                        function: calls[i].function,
                        success: true,
                    },
                },
            )
            &&& !outcomes[i] ==> failure_views(report.failures@).contains(
                (
                    i as u32,
                    if calls[i].instruction_budget is Some {
                        "budget_exceeded"@
                    } else {
                        "invoke_failed"@
                    },
                ),
            )
        },
{
    lemma_made(calls, outcomes, fail_fast, n);
    every_attempt_is_recorded(calls, outcomes, n as nat);
    match result {
        Ok(report) => {
            assert(failure_views(report.failures@).len() == report.failures@.len());
            assert(outcomes[i] == outcomes[i]);
        },
        Err(_) => {},
    }
}

/// Of every call that is made one event tells caller, target, function, outcome and index, in
/// order. A failed required call is told once more; a batch that runs to its end is told with
/// its counts; one that stops early is not.
pub proof fn batch_publishes_what_was_made(
    before: RouterMulticall,
    caller: Address,
    calls: Seq<CallDescriptor>,
    simulate: bool,
    store_results: bool,
    fail_fast: bool,
    outcomes: Seq<bool>,
    result: Result<BatchCallResult, MulticallError>,
    after: RouterMulticall,
    n: int,
    i: int,
)
    requires
        is_executed(
            before,
            caller,
            calls,
            simulate,
            store_results,
            fail_fast,
            outcomes,
            result,
            after,
        ),
        before.refusal(calls) is None,
        are_made(calls, outcomes, fail_fast, n),
        0 <= i < n <= u32::MAX,
    ensures
        ({
            let told = before.events@.len();
            let failed = !outcomes[n - 1] && calls[n - 1].required;
            let stopped = !outcomes[n - 1] && (calls[n - 1].required || fail_fast);
            &&& after.events@.take(told as int) == before.events@
            &&& after.events@[told + i] == (MulticallEvent::CallResult {
                caller,
                target: calls[i].target,
                function: calls[i].function,
                success: outcomes[i],
                index: i as u32,
            })
            &&& failed ==> after.events@.len() == told + n + 1 && after.events@.last() == (
            MulticallEvent::CallFailed {
                index: (n - 1) as u32,
                target: calls[n - 1].target,
                function: calls[n - 1].function,
            })
            &&& stopped && !failed ==> after.events@.len() == told + n
            &&& !stopped ==> after.events@.len() == told + n + 1 && after.events@.last() == (
            MulticallEvent::BatchExecuted { summary: summary(calls, outcomes, n as nat) })
        }),
{
    lemma_made(calls, outcomes, fail_fast, n);
    assert(after.events@.take(before.events@.len() as int) =~= before.events@);
}

/// A batch is counted exactly if it runs to its end and is no simulation. The results of the
/// calls that were made are kept, under the number of batches before and the index, exactly if
/// that is asked for; other results stay, and so do the settings.
pub proof fn batch_keeps_what_was_made(
    before: RouterMulticall,
    caller: Address,
    calls: Seq<CallDescriptor>,
    simulate: bool,
    store_results: bool,
    fail_fast: bool,
    outcomes: Seq<bool>,
    result: Result<BatchCallResult, MulticallError>,
    after: RouterMulticall,
    n: int,
    key: (u64, u32),
)
    requires
        is_executed(
            before,
            caller,
            calls,
            simulate,
            store_results,
            fail_fast,
            outcomes,
            result,
            after,
        ),
        before.refusal(calls) is None,
        are_made(calls, outcomes, fail_fast, n),
        n <= u32::MAX,
        before.total_batches matches Some(count) ==> count < u64::MAX,
    ensures
        ({
            let count = if before.total_batches is Some {
                before.total_batches->0
            } else {
                0
            };
            let stopped = !outcomes[n - 1] && (calls[n - 1].required || fail_fast);
            &&& stopped || simulate ==> after.total_batches == before.total_batches
            &&& !stopped && !simulate ==> after.total_batches == Some((count + 1) as u64)
            &&& !store_results ==> after.batch_results@ == before.batch_results@
            &&& store_results && key.0 == count && key.1 < n ==> after.batch_results@.contains_key(
                key,
            ) && after.batch_results@[key].target == calls[key.1 as int].target
                && after.batch_results@[key].function == calls[key.1 as int].function
                && after.batch_results@[key].success == outcomes[key.1 as int]
            &&& key.0 != count || key.1 >= n ==> after.batch_results@.contains_key(key)
                == before.batch_results@.contains_key(key) && (before.batch_results@.contains_key(
                key,
            ) ==> after.batch_results@[key] == before.batch_results@[key])
            &&& after.admin == before.admin && after.max_batch_size == before.max_batch_size
        }),
{
    lemma_made(calls, outcomes, fail_fast, n);
    stored_results_read_back(
        before.batch_results@,
        before.batch_count(),
        calls,
        outcomes,
        n as nat,
    );
    let kept = crate::multicall::stored(
        before.batch_results@,
        before.batch_count(),
        calls,
        outcomes,
        n as nat,
    );
    let i = key.1;
    if key.0 == before.batch_count() && i < n {
        assert(key == (before.batch_count(), i));
        assert(kept.contains_key((before.batch_count(), i)));
        assert(kept[(before.batch_count(), i)] == call_result(calls[i as int], outcomes[i as int]));
    } else {
        assert(kept.contains_key(key) == before.batch_results@.contains_key(key));
    }
}

/// The counts of a batch go up call by call: the total by one, the successes by one for a call
/// that succeeded, the failures by one for another, and those over budget by one for a failure
/// for which a budget was set.
pub proof fn counts_go_call_by_call(calls: Seq<CallDescriptor>, outcomes: Seq<bool>, n: nat)
    requires
        n < u32::MAX,
    ensures
        ({
            let (before, after) = (
                summary(calls, outcomes, n),
                summary(calls, outcomes, n + 1),
            );
            let call = calls[n as int];
            let good = outcomes[n as int];
            &&& after.total == before.total + 1
            &&& after.succeeded == before.succeeded + if good {
                1int
            } else {
                0
            }
            &&& after.failed == before.failed + if good {
                0int
            } else {
                1
            }
            &&& after.budget_exceeded_count == before.budget_exceeded_count + if !good
                && call.instruction_budget is Some {
                1int
            } else {
                0
            }
        }),
        summary(calls, outcomes, 0) == (BatchSummary {
            total: 0,
            succeeded: 0,
            failed: 0,
            budget_exceeded_count: 0,
        }),
{
    every_attempt_is_recorded(calls, outcomes, n);
    lemma_budget_bound(calls, outcomes, n);
}

proof fn lemma_budget_bound(calls: Seq<CallDescriptor>, outcomes: Seq<bool>, n: nat)
    ensures
        budget_failures(calls, outcomes, n) <= n,
        failures(calls, outcomes, n).len() <= n,
        successes(calls, outcomes, n).len() <= n,
    decreases n,
{
    if n > 0 {
        lemma_budget_bound(calls, outcomes, (n - 1) as nat);
    }
}

/// What follows an outcome: the batch is aborted by a failed call that is required, stopped by
/// another failed call where it is to fail fast, completed with its last call, and goes on
/// otherwise. It is under way only while it goes on, and is counted only when it is completed
/// and no simulation.
pub proof fn outcomes_decide_the_next_step(
    before: RouterMulticall,
    run: BatchRun,
    success: bool,
    after: RouterMulticall,
    run_after: BatchRun,
    step: BatchStep,
)
    requires
        is_recorded(before, run, success, after, run_after, step),
        run.next < run.calls@.len(),
        run.batch_id < u64::MAX,
    ensures
        ({
            let call = run.calls@[run.next as int];
            let ends = !success && (call.required || run.fail_fast);
            let last = run.next + 1 == run.calls@.len();
            &&& step == BatchStep::Aborted <==> !success && call.required
            &&& step == BatchStep::Stopped <==> !success && !call.required && run.fail_fast
            &&& step == BatchStep::Completed <==> !ends && last
            &&& step == BatchStep::Continue <==> !ends && !last
            &&& step != BatchStep::Continue ==> !after.executing
            &&& step == BatchStep::Continue ==> after.executing == before.executing
            &&& !ends && last && !run.simulate ==> after.total_batches == Some(
                (run.batch_id + 1) as u64,
            )
            &&& ends || !last || run.simulate ==> after.total_batches == before.total_batches
            &&& run_after.next == run.next + 1
            &&& run_after.calls == run.calls && run_after.caller == run.caller
            &&& run_after.batch_id == run.batch_id && run_after.simulate == run.simulate
            &&& run_after.store_results == run.store_results && run_after.fail_fast == run.fail_fast
            &&& after.admin == before.admin && after.max_batch_size == before.max_batch_size
            &&& run_after.result.successes@.len() == run.result.successes@.len() + if success {
                1int
            } else {
                0
            }
            &&& run_after.result.failures@.len() == run.result.failures@.len() + if success {
                0int
            } else {
                1
            }
        }),
{
    assert(failure_views(run.result.failures@).len() == run.result.failures@.len());
    assert(failure_views(run_after.result.failures@).len() == run_after.result.failures@.len());
}

/// Two runs are of the same batch exactly if they differ in nothing but how far they have come,
/// and two states have the same settings exactly if admin and largest batch are the same. The
/// largest batch is of at least one call.
pub proof fn batches_keep_their_settings(
    a: BatchRun,
    b: BatchRun,
    c: RouterMulticall,
    d: RouterMulticall,
)
    ensures
        a.same_batch(b) <==> a == (BatchRun {
            next: a.next,
            result: a.result,
            budget_exceeded: a.budget_exceeded,
            ..b
        }),
        c.same_settings(d) <==> c == (RouterMulticall {
            total_batches: c.total_batches,
            executing: c.executing,
            batch_results: c.batch_results,
            events: c.events,
            ..d
        }),
        c.wf() <==> c.max_batch_size is None || c.max_batch_size->0 >= 1,
{
}

} // verus!
