//! What holds of the execution pipeline as a whole.

use super::contract::{backoff, fee_for, MIN_BACKOFF_MULTIPLIER};
use super::run::{attempts_of, goes_through, last_attempt, simulation_failed, Run};
use super::types::{
    CallOutcome, ExecutionError, ExecutionEvent, ExecutionRequest, RouterExecution,
};
use crate::common::{Address, Symbol};
use vstd::prelude::*;

verus! {

/// A valid multiplier never makes the delay shorter from one retry to the next, as long as
/// the delay has not reached the largest number.
pub proof fn delays_do_not_shrink(base_ms: u64, multiplier: u32, attempt_index: nat)
    requires
        multiplier >= MIN_BACKOFF_MULTIPLIER,
        backoff(base_ms, multiplier, attempt_index) * multiplier <= u64::MAX,
    ensures
        backoff(base_ms, multiplier, attempt_index + 1) >= backoff(
            base_ms,
            multiplier,
            attempt_index,
        ),
{
    let delay = backoff(base_ms, multiplier, attempt_index);
    lemma_backoff_in_range(base_ms, multiplier, attempt_index);
    assert(delay * multiplier >= delay * 100) by (nonlinear_arith)
        requires
            delay >= 0,
            multiplier >= 100,
    ;
}

/// Without growth the delay is the same at every retry.
pub proof fn delay_is_constant_without_growth(base_ms: u64, attempt_index: nat)
    requires
        base_ms <= u64::MAX / 100,
    ensures
        backoff(base_ms, 100, attempt_index) == base_ms,
    decreases attempt_index,
{
    if attempt_index > 0 {
        delay_is_constant_without_growth(base_ms, (attempt_index - 1) as nat);
    }
}

/// A delay is a number of 64 bits.
proof fn lemma_backoff_in_range(base_ms: u64, multiplier: u32, attempt_index: nat)
    ensures
        0 <= backoff(base_ms, multiplier, attempt_index) <= u64::MAX,
    decreases attempt_index,
{
    if attempt_index > 0 {
        lemma_backoff_in_range(base_ms, multiplier, (attempt_index - 1) as nat);
        let delay = backoff(base_ms, multiplier, (attempt_index - 1) as nat);
        assert(delay * multiplier >= 0) by (nonlinear_arith)
            requires
                delay >= 0,
                multiplier >= 0,
        ;
    }
}

/// Under high load the fee is twice what it is otherwise.
pub proof fn high_load_doubles_the_fee(amount: i128, calm: u32, busy: u32)
    requires
        amount > 0,
        calm < 8000,
        busy >= 8000,
    ensures
        fee_for(amount, busy).total_fee == 2 * fee_for(amount, calm).total_fee,
        fee_for(amount, calm).total_fee == fee_for(amount, calm).base_fee + fee_for(
            amount,
            calm,
        ).resource_fee,
{
}

/// A larger amount never costs less.
pub proof fn fee_grows_with_the_amount(smaller: i128, larger: i128, load_bps: u32)
    requires
        0 < smaller <= larger,
    ensures
        fee_for(smaller, load_bps).total_fee <= fee_for(larger, load_bps).total_fee,
{
}

/// A call is made again only after a network error: every attempt before the last failed
/// with one, and the last did not, unless no retry was left. What the contract rejects is
/// thus attempted once.
pub proof fn only_network_errors_are_retried(outcomes: Seq<CallOutcome>, i: int)
    requires
        outcomes.len() > 0,
    ensures
        0 <= last_attempt(outcomes) < outcomes.len(),
        0 <= i < last_attempt(outcomes) ==> outcomes[i].is_transient(),
        outcomes[last_attempt(outcomes)].is_transient() ==> last_attempt(outcomes)
            == outcomes.len() - 1,
        !outcomes[0].is_transient() ==> last_attempt(outcomes) == 0,
    decreases outcomes.len(),
{
    if outcomes.len() > 1 && outcomes[0].is_transient() {
        only_network_errors_are_retried(outcomes.drop_first(), i - 1);
    }
}

/// For every positive amount the resource fee is the larger of 100 and a thousandth of the
/// amount, rounded down: it is at least both and exceeds neither, whatever the amount. To it
/// comes a base fee of 100, and from a load of 8000 on both are taken twice.
pub proof fn fee_is_a_thousandth_of_the_amount(amount: i128, load_bps: u32)
    requires
        amount > 0,
    ensures
        ({
            let fee = fee_for(amount, load_bps);
            &&& fee.resource_fee >= 100
            &&& 1000 * fee.resource_fee > amount - 1000
            &&& fee.resource_fee == 100 || 1000 * fee.resource_fee <= amount
            &&& fee.base_fee == 100
            &&& load_bps < 8000 ==> fee.total_fee == 100 + fee.resource_fee && !fee.high_load
                && fee.surge_multiplier == 100
            &&& load_bps >= 8000 ==> fee.total_fee == 200 + 2 * fee.resource_fee && fee.high_load
                && fee.surge_multiplier == 200
        }),
{
}

/// A thousand more of the amount costs exactly one more, once the amount is beyond the
/// smallest fee.
pub proof fn fee_grows_in_proportion(amount: i128, more: int, load_bps: u32)
    requires
        amount >= 100_000,
        more >= 0,
        amount + 1000 * more <= i128::MAX,
    ensures
        fee_for((amount + 1000 * more) as i128, load_bps).resource_fee == fee_for(
            amount,
            load_bps,
        ).resource_fee + more,
{
}

/// The first delay is the base; every further one is the one before times the multiplier in
/// hundredths, rounded down, with the product cut off at the largest number.
pub proof fn delays_grow_by_the_multiplier(base_ms: u64, multiplier: u32, attempt_index: nat)
    ensures
        backoff(base_ms, multiplier, 0) == base_ms,
        ({
            let delay = backoff(base_ms, multiplier, attempt_index);
            let next = backoff(base_ms, multiplier, attempt_index + 1);
            &&& 0 <= delay <= u64::MAX
            &&& delay * multiplier <= u64::MAX ==> 100 * next <= delay * multiplier < 100 * next
                + 100
            &&& delay * multiplier > u64::MAX ==> 100 * next <= u64::MAX < 100 * next + 100
        }),
{
    lemma_backoff_in_range(base_ms, multiplier, attempt_index);
    lemma_backoff_in_range(base_ms, multiplier, attempt_index + 1);
}

/// With a multiplier of 200 every delay is twice the one before, as long as it fits.
pub proof fn double_multiplier_doubles_the_delay(base_ms: u64, attempt_index: nat)
    requires
        backoff(base_ms, 200, attempt_index) * 200 <= u64::MAX,
    ensures
        backoff(base_ms, 200, attempt_index + 1) == 2 * backoff(base_ms, 200, attempt_index),
{
}

/// The errors that are worth a retry are those with the codes 101 and 102, and no others.
pub proof fn network_errors_are_101_and_102(outcome: CallOutcome)
    ensures
        outcome.is_transient() <==> outcome == CallOutcome::Failed(101) || outcome
            == CallOutcome::Failed(102),
{
}

/// A request is retried as often as it asks for, but never more often than the pipeline
/// allows.
pub proof fn retries_are_capped(pipeline: RouterExecution, request: ExecutionRequest)
    ensures
        pipeline.retries_for(request) <= request.max_retries,
        pipeline.retries_for(request) <= pipeline.max_retries,
        pipeline.retries_for(request) == request.max_retries || pipeline.retries_for(request)
            == pipeline.max_retries,
{
}

/// A request goes through exactly if its simulation did, where one was asked for, and one of
/// its attempts did, before which every attempt failed with a network error.
pub proof fn requests_go_through_at_the_first_success(
    request: ExecutionRequest,
    outcomes: Seq<CallOutcome>,
    k: int,
)
    requires
        outcomes.len() > if request.simulate_first {
            1int
        } else {
            0
        },
    ensures
        simulation_failed(request, outcomes) <==> request.simulate_first && outcomes[0]
            != CallOutcome::Succeeded,
        ({
            let from = if request.simulate_first {
                1int
            } else {
                0
            };
            let tried = attempts_of(request, outcomes);
            &&& tried == outcomes.skip(from)
            &&& !simulation_failed(request, outcomes) && from <= k < outcomes.len() && outcomes[k]
                == CallOutcome::Succeeded && (forall|j: int|
                from <= j < k ==> (#[trigger] outcomes[j] == CallOutcome::Failed(101)
                    || outcomes[j] == CallOutcome::Failed(102))) ==> goes_through(request, outcomes)
                && last_attempt(tried) == k - from
            &&& goes_through(request, outcomes) ==> !simulation_failed(request, outcomes)
                && outcomes[from + last_attempt(tried)] == CallOutcome::Succeeded
            &&& from <= k < from + last_attempt(tried) ==> outcomes[k] == CallOutcome::Failed(101)
                || outcomes[k] == CallOutcome::Failed(102)
        }),
{
    let from = if request.simulate_first {
        1int
    } else {
        0
    };
    let tried = attempts_of(request, outcomes);
    assert(tried =~= outcomes.skip(from));
    only_network_errors_are_retried(tried, k - from);
    let last = last_attempt(tried);
    assert(tried[last] == outcomes[from + last]);
    if from <= k < outcomes.len() && outcomes[k] == CallOutcome::Succeeded && (forall|j: int|
        from <= j < k ==> (#[trigger] outcomes[j] == CallOutcome::Failed(101) || outcomes[j]
            == CallOutcome::Failed(102))) {
        assert(tried[k - from] == outcomes[k]);
        if last < k - from {
            assert(outcomes[from + last] == CallOutcome::Failed(101) || outcomes[from + last]
                == CallOutcome::Failed(102));
        }
    }
}

/// What a call under way decides: an attempt that went through is a success; one that failed
/// with code 101 or 102 is made again while fewer retries than allowed were used; every other
/// failure, and every failure of the simulation, ends the request.
pub proof fn outcomes_decide_what_follows(run: Run, outcome: CallOutcome)
    ensures
        run.is_success(outcome) <==> !run.simulating && outcome == CallOutcome::Succeeded,
        run.is_retried(outcome) <==> !run.simulating && (outcome == CallOutcome::Failed(101)
            || outcome == CallOutcome::Failed(102)) && run.attempts < run.retries,
        outcome != CallOutcome::Succeeded ==> run.is_failure(outcome) != run.is_retried(outcome),
        outcome == CallOutcome::Succeeded ==> !run.is_failure(outcome) && !run.is_retried(outcome),
{
}

/// Of every retry there is one event, in order, with the number of the attempt that failed and
/// the delay before the next.
pub proof fn every_retry_is_published(
    pipeline: RouterExecution,
    target: Address,
    function: Symbol,
    n: nat,
    i: int,
)
    requires
        0 <= i < n,
    ensures
        pipeline.retry_events(target, function, n).len() == n,
        pipeline.retry_events(target, function, n)[i] == (ExecutionEvent::Retried {
            target,
            function,
            attempts: (i + 1) as u32,
            delay_ms: backoff(
                pipeline.backoff_base_ms,
                pipeline.backoff_multiplier,
                i as nat,
            ) as u64,
        }),
    decreases n,
{
    if n > 1 {
        every_retry_is_published(
            pipeline,
            target,
            function,
            (n - 1) as nat,
            if i < n - 1 {
                i
            } else {
                0
            },
        );
    } else {
        assert(pipeline.retry_events(target, function, 0) =~= Seq::<ExecutionEvent>::empty());
    }
}

/// A failure is counted once and published with its code and the attempts made, and then as an
/// execution that did not succeed; nothing else changes.
pub proof fn failures_are_counted_once(
    before: RouterExecution,
    target: Address,
    function: Symbol,
    error: ExecutionError,
    attempts: u32,
    after: RouterExecution,
)
    requires
        before.is_failed(target, function, error, attempts, after),
        before.total_errors < u64::MAX,
    ensures
        after.total_errors == before.total_errors + 1,
        after.total_executions == before.total_executions,
        after.history == before.history,
        after.admin == before.admin && after.max_retries == before.max_retries,
        after.events@.len() == before.events@.len() + 2,
        after.events@[before.events@.len() as int] matches ExecutionEvent::Failed {
            target: t,
            function: f,
            code,
            attempts: n,
        } && t == target && f == function && n == attempts && (error
            == ExecutionError::SimulationFailed ==> code == 201) && (error
            == ExecutionError::ContractRejected ==> code == 301),
        after.events@.last() == (ExecutionEvent::Executed {
            target,
            function,
            success: false,
            attempts,
        }),
{
}

/// Nobody but the admin passes, and nobody at all before there is one. At most 5 retries are
/// configured, with a multiplier of at least 100 percent.
pub proof fn settings_are_within_limits(execution: RouterExecution, caller: Address)
    ensures
        execution.admin is None ==> execution.admin_fault(caller) == Some(
            ExecutionError::NotInitialized,
        ),
        execution.admin is Some && execution.admin->0@ != caller@ ==> execution.admin_fault(caller)
            == Some(ExecutionError::Unauthorized),
        execution.admin is Some && execution.admin->0@ == caller@ ==> execution.admin_fault(
            caller,
        ) is None,
        execution.wf() <==> execution.max_retries <= 5 && execution.backoff_multiplier >= 100,
{
}

/// Errors of the network have numbers from 101 on, of a simulation from 201, of a contract from
/// 301 and of the pipeline itself from 401, in order.
pub proof fn errors_are_numbered(error: ExecutionError)
    ensures
        error == ExecutionError::NetworkTimeout <==> error.number() == 101,
        error == ExecutionError::NetworkUnavailable <==> error.number() == 102,
        error == ExecutionError::SimulationFailed <==> error.number() == 201,
        error == ExecutionError::SimulationInsufficientResources <==> error.number() == 202,
        error == ExecutionError::ContractRejected <==> error.number() == 301,
        error == ExecutionError::ContractNotFound <==> error.number() == 302,
        error == ExecutionError::ContractFunctionNotFound <==> error.number() == 303,
        error == ExecutionError::AlreadyInitialized <==> error.number() == 401,
        error == ExecutionError::NotInitialized <==> error.number() == 402,
        error == ExecutionError::Unauthorized <==> error.number() == 403,
        error == ExecutionError::InvalidConfig <==> error.number() == 404,
        error == ExecutionError::InvalidAmount <==> error.number() == 405,
{
}

} // verus!
