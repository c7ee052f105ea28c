//! Batches of cross-contract calls in a single transaction.
//!
//! - Up to a configured number of calls per batch
//! - Per-call success and failure tracking
//! - A failed required call aborts the batch
//! - Call results stored for later inspection
//!
//! The calls themselves are made by the host. [`RouterMulticall::begin_batch`]
//! takes the reentrancy guard and hands out a [`BatchRun`]; for each call the
//! host reports the outcome through [`RouterMulticall::record_outcome`], which
//! says whether to go on. [`RouterMulticall::execute_batch`] runs a whole batch
//! over outcomes that are already known.

use crate::common::{
    admin_check, failure_views, require_admin, Address, BatchCallResult, CallResult, CallSuccess,
    Symbol,
};
use crate::store::KeyedStore;
use vstd::prelude::*;

verus! {

/// A single call descriptor in a batch.
#[derive(Debug, PartialEq)]
pub struct CallDescriptor {
    /// Target contract address
    pub target: Address,
    /// Function name to call
    pub function: Symbol,
    /// Whether failure of this call should abort the whole batch
    pub required: bool,
    /// Optional CPU instruction budget for this call. The host does not expose a
    /// per-call counter, so it is reflected in failure messages only.
    pub instruction_budget: Option<u64>,
    /// The arguments, as the host's tagged 64-bit values
    pub args: Vec<u64>,
}

/// Summary of a batch execution as aggregate counts.
#[derive(Clone, Copy, Debug, PartialEq)]
pub struct BatchSummary {
    pub total: u32,
    pub succeeded: u32,
    pub failed: u32,
    /// Number of calls that failed while an `instruction_budget` was set.
    pub budget_exceeded_count: u32,
}

#[derive(Clone, Copy, Debug, PartialEq, Eq, Structural)]
pub enum MulticallError {
    AlreadyInitialized,
    NotInitialized,
    Unauthorized,
    BatchTooLarge,
    EmptyBatch,
    RequiredCallFailed,
    InvalidConfig,
    Reentrancy,
}

impl MulticallError {
    /// The number under which the error is reported on the ledger.
    pub fn code(self) -> (r: u32)
        ensures
            r == (match self {
                MulticallError::AlreadyInitialized => 1u32,
                MulticallError::NotInitialized => 2,
                MulticallError::Unauthorized => 3,
                MulticallError::BatchTooLarge => 4,
                MulticallError::EmptyBatch => 5,
                MulticallError::RequiredCallFailed => 6,
                MulticallError::InvalidConfig => 7,
                MulticallError::Reentrancy => 8,
            }),
    {
        match self {
            MulticallError::AlreadyInitialized => 1,
            MulticallError::NotInitialized => 2,
            MulticallError::Unauthorized => 3,
            MulticallError::BatchTooLarge => 4,
            MulticallError::EmptyBatch => 5,
            MulticallError::RequiredCallFailed => 6,
            MulticallError::InvalidConfig => 7,
            MulticallError::Reentrancy => 8,
        }
    }
}

/// What the contract publishes.
#[derive(Debug, PartialEq)]
pub enum MulticallEvent {
    CallResult { caller: Address, target: Address, function: Symbol, success: bool, index: u32 },
    CallFailed { index: u32, target: Address, function: Symbol },
    BatchExecuted { summary: BatchSummary },
    MaxBatchSizeUpdated { old_size: u32, new_size: u32 },
    AdminTransferred { old_admin: Address, new_admin: Address },
}

impl MulticallEvent {
    /// The topic under which the event is published.
    pub fn topic(&self) -> (r: &'static str)
        ensures
            r@ == (match self {
                MulticallEvent::CallResult { .. } => "call_result"@,
                MulticallEvent::CallFailed { .. } => "call_failed"@,
                MulticallEvent::BatchExecuted { .. } => "batch_executed"@,
                MulticallEvent::MaxBatchSizeUpdated { .. } => "max_batch_size_updated"@,
                MulticallEvent::AdminTransferred { .. } => "admin_transferred"@,
            }),
    {
        match self {
            MulticallEvent::CallResult { .. } => "call_result",
            MulticallEvent::CallFailed { .. } => "call_failed",
            MulticallEvent::BatchExecuted { .. } => "batch_executed",
            MulticallEvent::MaxBatchSizeUpdated { .. } => "max_batch_size_updated",
            MulticallEvent::AdminTransferred { .. } => "admin_transferred",
        }
    }
}

/// What is remembered of a call: where it went and how it ended.
pub open spec fn call_result(call: CallDescriptor, success: bool) -> CallResult {
    CallResult { target: call.target, function: call.function, success }
}

/// What a failed call is recorded with.
pub open spec fn failure_message(call: CallDescriptor) -> Seq<char> {
    if call.instruction_budget is Some {
        "budget_exceeded"@
    } else {
        "invoke_failed"@
    }
}

/// Whether a batch ends with this call.
pub open spec fn stops(call: CallDescriptor, success: bool, fail_fast: bool) -> bool {
    !success && (call.required || fail_fast)
}

/// How many of the first `n` calls are attempted: all up to the first that ends
/// the batch.
pub open spec fn attempted(
    calls: Seq<CallDescriptor>,
    outcomes: Seq<bool>,
    fail_fast: bool,
    n: nat,
) -> nat
    decreases n,
{
    if n == 0 {
        0
    } else {
        let before = attempted(calls, outcomes, fail_fast, (n - 1) as nat);
        if before < n - 1 || (n >= 2 && stops(calls[n - 2], outcomes[n - 2], fail_fast)) {
            before
        } else {
            n
        }
    }
}

/// Whether the last call attempted of a batch ends it before its time.
pub open spec fn ends_early(
    calls: Seq<CallDescriptor>,
    outcomes: Seq<bool>,
    fail_fast: bool,
) -> bool {
    let n = attempted(calls, outcomes, fail_fast, calls.len());
    stops(calls[n - 1], outcomes[n - 1], fail_fast)
}

/// The successes among the first `n` calls.
pub open spec fn successes(calls: Seq<CallDescriptor>, outcomes: Seq<bool>, n: nat) -> Seq<
    CallSuccess,
>
    decreases n,
{
    if n == 0 {
        seq![]
    } else if outcomes[n - 1] {
        successes(calls, outcomes, (n - 1) as nat).push(
            CallSuccess { index: (n - 1) as u32, result: call_result(calls[n - 1], true) },
        )
    } else {
        successes(calls, outcomes, (n - 1) as nat)
    }
}

/// The failures among the first `n` calls, as (index, message) pairs.
pub open spec fn failures(calls: Seq<CallDescriptor>, outcomes: Seq<bool>, n: nat) -> Seq<
    (u32, Seq<char>),
>
    decreases n,
{
    if n == 0 {
        seq![]
    } else if outcomes[n - 1] {
        failures(calls, outcomes, (n - 1) as nat)
    } else {
        failures(calls, outcomes, (n - 1) as nat).push(
            ((n - 1) as u32, failure_message(calls[n - 1])),
        )
    }
}

/// How many of the first `n` calls failed while a budget was set.
pub open spec fn budget_failures(calls: Seq<CallDescriptor>, outcomes: Seq<bool>, n: nat) -> nat
    decreases n,
{
    if n == 0 {
        0
    } else {
        budget_failures(calls, outcomes, (n - 1) as nat) + if !outcomes[n - 1] && calls[n
            - 1].instruction_budget is Some {
            1nat
        } else {
            0
        }
    }
}

/// The counts over the first `n` calls.
pub open spec fn summary(
    calls: Seq<CallDescriptor>,
    outcomes: Seq<bool>,
    n: nat,
) -> BatchSummary {
    BatchSummary {
        total: n as u32,
        succeeded: successes(calls, outcomes, n).len() as u32,
        failed: failures(calls, outcomes, n).len() as u32,
        budget_exceeded_count: budget_failures(calls, outcomes, n) as u32,
    }
}

/// The stored results once the first `n` calls of a batch are stored too.
pub open spec fn stored(
    before: Map<(u64, u32), CallResult>,
    batch_id: u64,
    calls: Seq<CallDescriptor>,
    outcomes: Seq<bool>,
    n: nat,
) -> Map<(u64, u32), CallResult>
    decreases n,
{
    if n == 0 {
        before
    } else {
        stored(before, batch_id, calls, outcomes, (n - 1) as nat).insert(
            (batch_id, (n - 1) as u32),
            call_result(calls[n - 1], outcomes[n - 1]),
        )
    }
}

/// What the first `n` calls of a batch publish.
pub open spec fn published(
    caller: Address,
    calls: Seq<CallDescriptor>,
    outcomes: Seq<bool>,
    n: nat,
) -> Seq<MulticallEvent> {
    Seq::new(
        n,
        |i: int|
            MulticallEvent::CallResult {
                caller,
                target: calls[i].target,
                function: calls[i].function,
                success: outcomes[i],
                index: i as u32,
            },
    )
}

/// A batch under way: `next` calls have been made, with these results.
pub struct BatchRun {
    pub caller: Address,
    pub calls: Vec<CallDescriptor>,
    pub batch_id: u64,
    pub simulate: bool,
    pub store_results: bool,
    pub fail_fast: bool,
    pub next: u32,
    pub result: BatchCallResult,
    /// How many of these calls failed while a budget was set
    pub budget_exceeded: u32,
}

impl BatchRun {
    /// Every call made so far has one result.
    pub open spec fn wf(self) -> bool {
        &&& self.next <= self.calls@.len() <= u32::MAX
        &&& self.result.successes@.len() + self.result.failures@.len() == self.next
        &&& self.budget_exceeded <= self.next
    }

    /// The counts so far, as a batch that ends here publishes them.
    pub open spec fn summary(self) -> BatchSummary {
        BatchSummary {
            total: self.next,
            succeeded: self.result.successes@.len() as u32,
            failed: self.result.failures@.len() as u32,
            budget_exceeded_count: self.budget_exceeded,
        }
    }

    /// The call to be made next, or none once all have been made.
    pub fn next_call(&self) -> (r: Option<&CallDescriptor>)
        ensures
            match r {
                Some(call) => self.next < self.calls@.len() && *call == self.calls@[self.next as int],
                None => self.next >= self.calls@.len(),
            },
    {
        if (self.next as usize) < self.calls.len() {
            Some(&self.calls[self.next as usize])
        } else {
            None
        }
    }

    /// The settings of the batch, which no step changes.
    pub open spec fn same_batch(self, other: Self) -> bool {
        &&& self.caller == other.caller
        &&& self.calls == other.calls
        &&& self.batch_id == other.batch_id
        &&& self.simulate == other.simulate
        &&& self.store_results == other.store_results
        &&& self.fail_fast == other.fail_fast
    }
}

/// What follows the outcome of a call.
#[derive(Clone, Copy, Debug, PartialEq, Eq, Structural)]
pub enum BatchStep {
    /// There is another call to make.
    Continue,
    /// The batch has run to its end.
    Completed,
    /// The batch ends early with the results so far.
    Stopped,
    /// A required call failed.
    Aborted,
}

/// The state of the multicall contract. `events` is what it has published.
pub struct RouterMulticall {
    pub admin: Option<Address>,
    pub max_batch_size: Option<u32>,
    pub total_batches: Option<u64>,
    /// Reentrancy guard
    pub executing: bool,
    /// (batch_id, call_index) -> result
    pub batch_results: KeyedStore<(u64, u32), CallResult>,
    pub events: Vec<MulticallEvent>,
}

/// Whether the outcome of the call that is next in `run` turns `before` and `run` into
/// `after` and `run_after`, and `step` follows.
pub open spec fn is_recorded(
    before: RouterMulticall,
    run: BatchRun,
    success: bool,
    after: RouterMulticall,
    run_after: BatchRun,
    step: BatchStep,
) -> bool {
    let call = run.calls@[run.next as int];
    let index = run.next;
    let event = MulticallEvent::CallResult {
        caller: run.caller,
        target: call.target,
        function: call.function,
        success,
        index,
    };
    &&& step == (if !success && call.required {
        BatchStep::Aborted
    } else if !success && run.fail_fast {
        BatchStep::Stopped
    } else if index + 1 == run.calls@.len() {
        BatchStep::Completed
    } else {
        BatchStep::Continue
    })
    &&& run_after.same_batch(run)
    &&& run_after.next == index + 1
    &&& run_after.result.successes@ == if success {
        run.result.successes@.push(
            CallSuccess { index, result: call_result(call, true) },
        )
    } else {
        run.result.successes@
    }
    &&& failure_views(run_after.result.failures@) == if success {
        failure_views(run.result.failures@)
    } else {
        failure_views(run.result.failures@).push((index, failure_message(call)))
    }
    &&& run_after.budget_exceeded == run.budget_exceeded + if !success
        && call.instruction_budget is Some {
        1int
    } else {
        0
    }
    &&& after.same_settings(before)
    &&& after.batch_results@ == if run.store_results {
        before.batch_results@.insert(
            (run.batch_id, index),
            call_result(call, success),
        )
    } else {
        before.batch_results@
    }
    &&& after.events@ == if step == BatchStep::Aborted {
        before.events@.push(event).push(
            MulticallEvent::CallFailed {
                index,
                target: call.target,
                function: call.function,
            },
        )
    } else if step == BatchStep::Completed {
        before.events@.push(event).push(
            MulticallEvent::BatchExecuted { summary: run_after.summary() },
        )
    } else {
        before.events@.push(event)
    }
    &&& after.total_batches == if step == BatchStep::Completed && !run.simulate {
        Some((run.batch_id + 1) as u64)
    } else {
        before.total_batches
    }
    &&& after.executing == (before.executing && step == BatchStep::Continue)
}

/// Whether a batch with these outcomes of its calls is answered like this, and turns
/// `before` into `after`.
pub open spec fn is_executed(
    before: RouterMulticall,
    caller: Address,
    calls: Seq<CallDescriptor>,
    simulate: bool,
    store_results: bool,
    fail_fast: bool,
    outcomes: Seq<bool>,
    result: Result<BatchCallResult, MulticallError>,
    after: RouterMulticall,
) -> bool {
    match before.refusal(calls) {
        Some(e) => result == Err::<BatchCallResult, _>(e) && after == before,
        None => {
            let n = attempted(calls, outcomes, fail_fast, calls.len());
            let last = calls[n - 1];
            let aborted = !outcomes[n - 1] && last.required;
            let stopped = ends_early(calls, outcomes, fail_fast);
            let events = before.events@ + published(caller, calls, outcomes, n);
            &&& 1 <= n <= calls.len()
            &&& match result {
                Ok(report) => !aborted && report.successes@ == successes(calls, outcomes, n)
                    && failure_views(report.failures@) == failures(calls, outcomes, n),
                Err(e) => aborted && e == MulticallError::RequiredCallFailed,
            }
            &&& after.same_settings(before)
            &&& !after.executing
            &&& after.total_batches == if stopped || simulate {
                before.total_batches
            } else {
                Some((before.batch_count() + 1) as u64)
            }
            &&& after.batch_results@ == if store_results {
                stored(before.batch_results@, before.batch_count(), calls, outcomes, n)
            } else {
                before.batch_results@
            }
            &&& after.events@ == if aborted {
                events.push(
                    MulticallEvent::CallFailed {
                        index: (n - 1) as u32,
                        target: last.target,
                        function: last.function,
                    },
                )
            } else if stopped {
                events
            } else {
                events.push(
                    MulticallEvent::BatchExecuted { summary: summary(calls, outcomes, n) },
                )
            }
        },
    }
}

impl RouterMulticall {
    /// An initialized contract accepts at least one call per batch.
    pub open spec fn wf(self) -> bool {
        self.max_batch_size matches Some(max) ==> max > 0
    }

    pub open spec fn batch_count(self) -> u64 {
        match self.total_batches {
            Some(n) => n,
            None => 0,
        }
    }

    /// Why a batch is refused before any call is made.
    pub open spec fn refusal(self, calls: Seq<CallDescriptor>) -> Option<MulticallError> {
        if self.executing {
            Some(MulticallError::Reentrancy)
        } else if calls.len() == 0 {
            Some(MulticallError::EmptyBatch)
        } else if self.max_batch_size is None {
            Some(MulticallError::NotInitialized)
        } else if calls.len() > self.max_batch_size->0 {
            Some(MulticallError::BatchTooLarge)
        } else {
            None
        }
    }

    /// Nothing that a batch leaves alone differs.
    pub open spec fn same_settings(self, other: Self) -> bool {
        &&& self.admin == other.admin
        &&& self.max_batch_size == other.max_batch_size
    }

    pub fn new() -> (r: Self)
        ensures
            r.wf(),
            r.admin is None,
            r.max_batch_size is None,
            r.total_batches is None,
            !r.executing,
            r.batch_results@ == Map::<(u64, u32), CallResult>::empty(),
            r.events@.len() == 0,
    {
        RouterMulticall {
            admin: None,
            max_batch_size: None,
            total_batches: None,
            executing: false,
            batch_results: KeyedStore::new(),
            events: Vec::new(),
        }
    }

    /// Sets the admin and the largest number of calls per batch.
    ///
    /// # Errors
    /// * [`MulticallError::AlreadyInitialized`] if there is an admin already.
    /// * [`MulticallError::InvalidConfig`] if `max_batch_size` is zero.
    pub fn initialize(&mut self, admin: Address, max_batch_size: u32) -> (r: Result<
        (),
        MulticallError,
    >)
        ensures
            r == (if old(self).admin is Some {
                Err(MulticallError::AlreadyInitialized)
            } else if max_batch_size == 0 {
                Err(MulticallError::InvalidConfig)
            } else {
                Ok(())
            }),
            r is Err ==> *final(self) == *old(self),
            r is Ok ==> {
                &&& final(self).admin == Some(admin)
                &&& final(self).max_batch_size == Some(max_batch_size)
                &&& final(self).total_batches == Some(0u64)
                &&& final(self).executing == old(self).executing
                &&& final(self).batch_results == old(self).batch_results
                &&& final(self).events == old(self).events
            },
            old(self).wf() ==> final(self).wf(),
    {
        if self.admin.is_some() {
            return Err(MulticallError::AlreadyInitialized);
        }
        if max_batch_size == 0 {
            return Err(MulticallError::InvalidConfig);
        }
        self.admin = Some(admin);
        self.max_batch_size = Some(max_batch_size);
        self.total_batches = Some(0);
        Ok(())
    }

    /// Takes the reentrancy guard for a batch, or says why the batch is refused.
    ///
    /// # Errors
    /// * [`MulticallError::Reentrancy`] if a batch is under way.
    /// * [`MulticallError::EmptyBatch`] if there are no calls.
    /// * [`MulticallError::NotInitialized`] if the contract is not initialized.
    /// * [`MulticallError::BatchTooLarge`] if there are too many calls.
    pub fn begin_batch(
        &mut self,
        caller: Address,
        calls: Vec<CallDescriptor>,
        simulate: bool,
        store_results: bool,
        fail_fast: bool,
    ) -> (r: Result<BatchRun, MulticallError>)
        ensures
            match r {
                Err(e) => old(self).refusal(calls@) == Some(e) && *final(self) == *old(self),
                Ok(run) => {
                    &&& old(self).refusal(calls@) is None
                    &&& run.caller == caller
                    &&& run.calls == calls
                    &&& run.batch_id == old(self).batch_count()
                    &&& run.simulate == simulate
                    &&& run.store_results == store_results
                    &&& run.fail_fast == fail_fast
                    &&& run.next == 0
                    &&& run.result.successes@.len() == 0
                    &&& run.result.failures@.len() == 0
                    &&& run.budget_exceeded == 0
                    &&& run.wf()
                    &&& final(self).executing
                    &&& final(self).same_settings(*old(self))
                    &&& final(self).total_batches == old(self).total_batches
                    &&& final(self).batch_results == old(self).batch_results
                    &&& final(self).events == old(self).events
                },
            },
    {
        if self.executing {
            return Err(MulticallError::Reentrancy);
        }
        if calls.len() == 0 {
            return Err(MulticallError::EmptyBatch);
        }
        let max: u32 = match self.max_batch_size {
            Some(max) => max,
            None => {
                return Err(MulticallError::NotInitialized);
            },
        };
        if calls.len() > max as usize {
            return Err(MulticallError::BatchTooLarge);
        }
        self.executing = true;
        Ok(
            BatchRun {
                caller,
                calls,
                batch_id: self.total_batches(),
                simulate,
                store_results,
                fail_fast,
                next: 0,
                result: BatchCallResult::new(),
                budget_exceeded: 0,
            },
        )
    }

    /// Takes in the outcome of the call that is next, and says what follows.
    ///
    /// The guard is released as soon as there is no further call to make.
    pub fn record_outcome(&mut self, run: &mut BatchRun, success: bool) -> (r: BatchStep)
        requires
            old(run).wf(),
            old(run).next < old(run).calls@.len(),
            old(run).next + 1 == old(run).calls@.len() && !old(run).simulate && !stops(
                old(run).calls@[old(run).next as int],
                success,
                old(run).fail_fast,
            ) ==> old(run).batch_id < u64::MAX,
        ensures
            final(run).wf(),
            is_recorded(*old(self), *old(run), success, *final(self), *final(run), r),
    {
        let index: u32 = run.next;
        let target: Address = run.calls[index as usize].target.clone();
        let function: Symbol = run.calls[index as usize].function.clone();
        let required: bool = run.calls[index as usize].required;
        let budgeted: bool = run.calls[index as usize].instruction_budget.is_some();
        let result = CallResult { target: target.clone(), function: function.clone(), success };
        if run.store_results {
            self.batch_results.insert((run.batch_id, index), result.clone());
        }
        proof {
            assert(run.result.failures@.len() == failure_views(run.result.failures@).len());
        }
        if success {
            run.result.record_success(index, result);
        } else if budgeted {
            run.result.record_failure(index, "budget_exceeded");
            run.budget_exceeded = run.budget_exceeded + 1;
        } else {
            run.result.record_failure(index, "invoke_failed");
        }
        self.events.push(
            MulticallEvent::CallResult {
                caller: run.caller.clone(),
                target: target.clone(),
                function: function.clone(),
                success,
                index,
            },
        );
        run.next = index + 1;
        proof {
            assert(run.result.failures@.len() == failure_views(run.result.failures@).len());
        }
        if !success && required {
            self.events.push(MulticallEvent::CallFailed { index, target, function });
            self.executing = false;
            return BatchStep::Aborted;
        }
        if !success && run.fail_fast {
            self.executing = false;
            return BatchStep::Stopped;
        }
        if (run.next as usize) < run.calls.len() {
            return BatchStep::Continue;
        }
        if !run.simulate {
            self.total_batches = Some(run.batch_id + 1);
        }
        self.events.push(
            MulticallEvent::BatchExecuted {
                summary: BatchSummary {
                    total: run.next,
                    succeeded: run.result.successes.len() as u32,
                    failed: run.result.failures.len() as u32,
                    budget_exceeded_count: run.budget_exceeded,
                },
            },
        );
        self.executing = false;
        BatchStep::Completed
    }

    /// Runs a batch, where `outcomes[i]` says whether the `i`-th call succeeds.
    ///
    /// The caller can be any address. The batch counter goes up when the batch
    /// runs to its end, unless `simulate` is set; a batch that does so publishes a
    /// summary. With `store_results` the result
    /// of every attempted call is kept under (batch id, call index).
    ///
    /// # Errors
    /// * Those of [`RouterMulticall::begin_batch`].
    /// * [`MulticallError::RequiredCallFailed`] if a required call fails.
    pub fn execute_batch(
        &mut self,
        caller: Address,
        calls: Vec<CallDescriptor>,
        simulate: bool,
        store_results: bool,
        fail_fast: bool,
        outcomes: &Vec<bool>,
    ) -> (r: Result<BatchCallResult, MulticallError>)
        requires
            outcomes@.len() >= calls@.len(),
            old(self).refusal(calls@) is None && !simulate && !ends_early(
                calls@,
                outcomes@,
                fail_fast,
            ) ==> old(self).batch_count() < u64::MAX,
        ensures
            is_executed(
                *old(self),
                caller,
                calls@,
                simulate,
                store_results,
                fail_fast,
                outcomes@,
                r,
                *final(self),
            ),
            old(self).executing ==> r == Err::<BatchCallResult, _>(MulticallError::Reentrancy)
                && *final(self) == *old(self),
            !old(self).executing ==> !final(self).executing,
    {
        let mut run: BatchRun = match self.begin_batch(
            caller,
            calls,
            simulate,
            store_results,
            fail_fast,
        ) {
            Ok(run) => run,
            Err(e) => {
                return Err(e);
            },
        };
        let ghost batch = run;
        proof {
            assert(failure_views(run.result.failures@) =~= failures(calls@, outcomes@, 0));
            assert(self.events@ =~= old(self).events@ + published(caller, calls@, outcomes@, 0));
        }
        loop
            invariant
                batch.caller == caller,
                batch.calls == calls,
                batch.batch_id == old(self).batch_count(),
                !simulate && !ends_early(calls@, outcomes@, fail_fast) ==> batch.batch_id
                    < u64::MAX,
                batch.simulate == simulate,
                batch.store_results == store_results,
                batch.fail_fast == fail_fast,
                outcomes@.len() >= calls@.len(),
                calls@.len() <= u32::MAX,
                old(self).refusal(calls@) is None,
                run.same_batch(batch),
                run.wf(),
                run.next < calls@.len(),
                run.budget_exceeded == budget_failures(calls@, outcomes@, run.next as nat),
                run.next == 0 || !stops(
                    calls@[run.next - 1],
                    outcomes@[run.next - 1],
                    fail_fast,
                ),
                attempted(calls@, outcomes@, fail_fast, run.next as nat) == run.next,
                run.result.successes@ == successes(calls@, outcomes@, run.next as nat),
                failure_views(run.result.failures@) == failures(
                    calls@,
                    outcomes@,
                    run.next as nat,
                ),
                self.same_settings(*old(self)),
                self.executing,
                self.total_batches == old(self).total_batches,
                self.batch_results@ == if store_results {
                    stored(
                        old(self).batch_results@,
                        old(self).batch_count(),
                        calls@,
                        outcomes@,
                        run.next as nat,
                    )
                } else {
                    old(self).batch_results@
                },
                self.events@ == old(self).events@ + published(
                    caller,
                    calls@,
                    outcomes@,
                    run.next as nat,
                ),
            decreases calls@.len() - run.next,
        {
            let ghost i = run.next as nat;
            let ghost events = self.events@;
            let success: bool = outcomes[run.next as usize];
            proof {
                assert(attempted(calls@, outcomes@, fail_fast, i + 1) == i + 1);
                if i + 1 == calls@.len() {
                    lemma_attempted_stops(calls@, outcomes@, fail_fast, i + 1, calls@.len());
                }
            }
            let step: BatchStep = self.record_outcome(&mut run, success);
            proof {
                assert(attempted(calls@, outcomes@, fail_fast, i + 1) == i + 1);
                if step != BatchStep::Continue {
                    lemma_attempted_stops(calls@, outcomes@, fail_fast, i + 1, calls@.len());
                }
                assert(events.push(
                    MulticallEvent::CallResult {
                        caller,
                        target: calls@[i as int].target,
                        function: calls@[i as int].function,
                        success,
                        index: i as u32,
                    },
                ) =~= old(self).events@ + published(caller, calls@, outcomes@, i + 1));
            }
            match step {
                BatchStep::Continue => {},
                BatchStep::Aborted => {
                    return Err(MulticallError::RequiredCallFailed);
                },
                BatchStep::Stopped => {
                    return Ok(run.result);
                },
                BatchStep::Completed => {
                    return Ok(run.result);
                },
            }
        }
    }

    /// Changes the largest number of calls per batch.
    ///
    /// # Errors
    /// * [`MulticallError::NotInitialized`] if the contract is not initialized.
    /// * [`MulticallError::Unauthorized`] if the caller is not the admin.
    /// * [`MulticallError::InvalidConfig`] if `max_batch_size` is zero.
    pub fn set_max_batch_size(&mut self, caller: &Address, max_batch_size: u32) -> (r: Result<
        (),
        MulticallError,
    >)
        ensures
            r == (match admin_check(
                old(self).admin,
                *caller,
                MulticallError::NotInitialized,
                MulticallError::Unauthorized,
            ) {
                Err(e) => Err(e),
                Ok(()) => if max_batch_size == 0 {
                    Err(MulticallError::InvalidConfig)
                } else {
                    Ok(())
                },
            }),
            r is Err ==> *final(self) == *old(self),
            r is Ok ==> {
                &&& final(self).admin == old(self).admin
                &&& final(self).max_batch_size == Some(max_batch_size)
                &&& final(self).total_batches == old(self).total_batches
                &&& final(self).executing == old(self).executing
                &&& final(self).batch_results == old(self).batch_results
                &&& final(self).events@ == old(self).events@.push(
                    MulticallEvent::MaxBatchSizeUpdated {
                        old_size: match old(self).max_batch_size {
                            Some(max) => max,
                            None => 0,
                        },
                        new_size: max_batch_size,
                    },
                )
            },
            old(self).wf() ==> final(self).wf(),
    {
        match self.require_admin(caller) {
            Err(e) => {
                return Err(e);
            },
            Ok(()) => {},
        }
        if max_batch_size == 0 {
            return Err(MulticallError::InvalidConfig);
        }
        let old_size: u32 = match self.max_batch_size {
            Some(max) => max,
            None => 0,
        };
        self.max_batch_size = Some(max_batch_size);
        self.events.push(
            MulticallEvent::MaxBatchSizeUpdated { old_size, new_size: max_batch_size },
        );
        Ok(())
    }

    /// How many batches have run to their end.
    pub fn total_batches(&self) -> (r: u64)
        ensures
            r == self.batch_count(),
    {
        match self.total_batches {
            Some(n) => n,
            None => 0,
        }
    }

    /// The largest number of calls per batch.
    ///
    /// # Errors
    /// * [`MulticallError::NotInitialized`] if the contract is not initialized.
    pub fn max_batch_size(&self) -> (r: Result<u32, MulticallError>)
        ensures
            r == (match self.max_batch_size {
                Some(max) => Ok(max),
                None => Err(MulticallError::NotInitialized),
            }),
    {
        match self.max_batch_size {
            Some(max) => Ok(max),
            None => Err(MulticallError::NotInitialized),
        }
    }

    /// The admin address.
    ///
    /// # Errors
    /// * [`MulticallError::NotInitialized`] if the contract is not initialized.
    pub fn admin(&self) -> (r: Result<Address, MulticallError>)
        ensures
            r == (match self.admin {
                Some(admin) => Ok(admin),
                None => Err(MulticallError::NotInitialized),
            }),
    {
        match &self.admin {
            Some(admin) => Ok(admin.clone()),
            None => Err(MulticallError::NotInitialized),
        }
    }

    /// Hands the admin role to `new_admin`.
    ///
    /// # Errors
    /// * [`MulticallError::NotInitialized`] if the contract is not initialized.
    /// * [`MulticallError::Unauthorized`] if `current` is not the admin.
    pub fn transfer_admin(&mut self, current: Address, new_admin: Address) -> (r: Result<
        (),
        MulticallError,
    >)
        ensures
            r == admin_check(
                old(self).admin,
                current,
                MulticallError::NotInitialized,
                MulticallError::Unauthorized,
            ),
            r is Err ==> *final(self) == *old(self),
            r is Ok ==> {
                &&& final(self).admin == Some(new_admin)
                &&& final(self).max_batch_size == old(self).max_batch_size
                &&& final(self).total_batches == old(self).total_batches
                &&& final(self).executing == old(self).executing
                &&& final(self).batch_results == old(self).batch_results
                &&& final(self).events@ == old(self).events@.push(
                    MulticallEvent::AdminTransferred { old_admin: current, new_admin },
                )
            },
            old(self).wf() ==> final(self).wf(),
    {
        match self.require_admin(&current) {
            Err(e) => {
                return Err(e);
            },
            Ok(()) => {},
        }
        self.admin = Some(new_admin.clone());
        self.events.push(MulticallEvent::AdminTransferred { old_admin: current, new_admin });
        Ok(())
    }

    fn require_admin(&self, caller: &Address) -> (r: Result<(), MulticallError>)
        ensures
            r == admin_check(
                self.admin,
                *caller,
                MulticallError::NotInitialized,
                MulticallError::Unauthorized,
            ),
    {
        require_admin(
            &self.admin,
            caller,
            MulticallError::NotInitialized,
            MulticallError::Unauthorized,
        )
    }
}

/// Once a call ends the batch, those after it are not attempted.
proof fn lemma_attempted_stops(
    calls: Seq<CallDescriptor>,
    outcomes: Seq<bool>,
    fail_fast: bool,
    m: nat,
    n: nat,
)
    requires
        1 <= m <= n,
        attempted(calls, outcomes, fail_fast, m) == m,
        m == n || stops(calls[m - 1], outcomes[m - 1], fail_fast),
    ensures
        attempted(calls, outcomes, fail_fast, n) == m,
    decreases n - m,
{
    if m < n {
        lemma_attempted_stops(calls, outcomes, fail_fast, m, (n - 1) as nat);
    }
}

/// A batch goes exactly as far as it should: no call before the last attempted
/// one ends it, and calls are left out only behind one that does.
pub proof fn attempted_up_to_first_stop(
    calls: Seq<CallDescriptor>,
    outcomes: Seq<bool>,
    fail_fast: bool,
    n: nat,
)
    ensures
        attempted(calls, outcomes, fail_fast, n) <= n,
        n > 0 ==> attempted(calls, outcomes, fail_fast, n) > 0,
        forall|i: int|
            0 <= i < attempted(calls, outcomes, fail_fast, n) - 1 ==> !stops(
                #[trigger] calls[i],
                outcomes[i],
                fail_fast,
            ),
        attempted(calls, outcomes, fail_fast, n) < n ==> stops(
            calls[attempted(calls, outcomes, fail_fast, n) - 1],
            outcomes[attempted(calls, outcomes, fail_fast, n) - 1],
            fail_fast,
        ),
    decreases n,
{
    if n > 0 {
        attempted_up_to_first_stop(calls, outcomes, fail_fast, (n - 1) as nat);
    }
}

/// Every attempted call is recorded once, as a success or as a failure.
pub proof fn every_attempt_is_recorded(
    calls: Seq<CallDescriptor>,
    outcomes: Seq<bool>,
    n: nat,
)
    requires
        n <= u32::MAX,
    ensures
        successes(calls, outcomes, n).len() + failures(calls, outcomes, n).len() == n,
        forall|i: int|
            0 <= i < n && #[trigger] outcomes[i] ==> successes(calls, outcomes, n).contains(
                CallSuccess { index: i as u32, result: call_result(calls[i], true) },
            ),
        forall|i: int|
            0 <= i < n && !#[trigger] outcomes[i] ==> failures(calls, outcomes, n).contains(
                (i as u32, failure_message(calls[i])),
            ),
    decreases n,
{
    if n > 0 {
        let m = (n - 1) as nat;
        every_attempt_is_recorded(calls, outcomes, m);
        assert forall|i: int| 0 <= i < n && #[trigger] outcomes[i] implies successes(
            calls,
            outcomes,
            n,
        ).contains(CallSuccess { index: i as u32, result: call_result(calls[i], true) }) by {
            let entry = CallSuccess { index: i as u32, result: call_result(calls[i], true) };
            let all = successes(calls, outcomes, n);
            if i == m {
                assert(all.last() == entry);
            } else {
                let before = successes(calls, outcomes, m);
                let k = choose|k: int| 0 <= k < before.len() && before[k] == entry;
                assert(all[k] == entry);
            }
        }
        assert forall|i: int| 0 <= i < n && !#[trigger] outcomes[i] implies failures(
            calls,
            outcomes,
            n,
        ).contains((i as u32, failure_message(calls[i]))) by {
            let entry = (i as u32, failure_message(calls[i]));
            let all = failures(calls, outcomes, n);
            if i == m {
                assert(all.last() == entry);
            } else {
                let before = failures(calls, outcomes, m);
                let k = choose|k: int| 0 <= k < before.len() && before[k] == entry;
                assert(all[k] == entry);
            }
        }
    }
}

/// The counts of a batch add up: every call succeeded or failed, and only failed
/// calls count against a budget.
pub proof fn summary_adds_up(calls: Seq<CallDescriptor>, outcomes: Seq<bool>, n: nat)
    requires
        n <= u32::MAX,
    ensures
        summary(calls, outcomes, n).total == n,
        summary(calls, outcomes, n).succeeded + summary(calls, outcomes, n).failed == n,
        summary(calls, outcomes, n).budget_exceeded_count <= summary(calls, outcomes, n).failed,
{
    every_attempt_is_recorded(calls, outcomes, n);
    lemma_budget_failures_fail(calls, outcomes, n);
}

proof fn lemma_budget_failures_fail(calls: Seq<CallDescriptor>, outcomes: Seq<bool>, n: nat)
    ensures
        budget_failures(calls, outcomes, n) <= failures(calls, outcomes, n).len(),
    decreases n,
{
    if n > 0 {
        lemma_budget_failures_fail(calls, outcomes, (n - 1) as nat);
    }
}

/// A batch is refused for reentrancy exactly while another is under way, whatever it
/// holds.
pub proof fn guard_refuses_every_batch(state: RouterMulticall, calls: Seq<CallDescriptor>)
    ensures
        state.executing <==> state.refusal(calls) == Some(MulticallError::Reentrancy),
{
}

/// A batch that is begun while another is under way is refused for reentrancy and changes
/// nothing; any other is not under way any more once it has returned, with a result or with
/// an error, so that no batch after it is refused for reentrancy because of it.
pub proof fn no_batch_locks_out_the_next(
    before: RouterMulticall,
    caller: Address,
    calls: Seq<CallDescriptor>,
    simulate: bool,
    store_results: bool,
    fail_fast: bool,
    outcomes: Seq<bool>,
    result: Result<BatchCallResult, MulticallError>,
    after: RouterMulticall,
    next: Seq<CallDescriptor>,
)
    requires
        is_executed(
            before,
            caller,
            calls,
            simulate,
            store_results,
            fail_fast,
            outcomes,
            result,
            after,
        ),
    ensures
        before.executing ==> result == Err::<BatchCallResult, _>(MulticallError::Reentrancy)
            && after == before,
        !before.executing ==> !after.executing && after.refusal(next) != Some(
            MulticallError::Reentrancy,
        ),
{
}

/// Whether `states` and `runs` are those that a batch goes through as the outcomes of its
/// calls come in one after the other, with `steps` following them, and every outcome but
/// the last leaves a call to be made.
pub open spec fn is_batch_run(
    states: Seq<RouterMulticall>,
    runs: Seq<BatchRun>,
    outcomes: Seq<bool>,
    steps: Seq<BatchStep>,
) -> bool {
    &&& states.len() == steps.len() + 1
    &&& runs.len() == steps.len() + 1
    &&& outcomes.len() == steps.len()
    &&& forall|i: int|
        0 <= i < steps.len() ==> is_recorded(
            states[i],
            runs[i],
            outcomes[i],
            states[i + 1],
            runs[i + 1],
            #[trigger] steps[i],
        )
    &&& forall|i: int| 0 <= i < steps.len() - 1 ==> #[trigger] steps[i] == BatchStep::Continue
}

/// A batch holds the guard from its beginning to its end, so that every batch begun in
/// between is refused for reentrancy, and releases it however it ends, so that none begun
/// later is. It ends at the latest with its last call.
pub proof fn batch_holds_the_guard(
    states: Seq<RouterMulticall>,
    runs: Seq<BatchRun>,
    outcomes: Seq<bool>,
    steps: Seq<BatchStep>,
    other: Seq<CallDescriptor>,
)
    requires
        is_batch_run(states, runs, outcomes, steps),
        states[0].executing,
        runs[0].next < runs[0].calls@.len(),
        steps.len() > 0,
    ensures
        forall|i: int|
            0 <= i < steps.len() ==> (#[trigger] states[i]).refusal(other) == Some(
                MulticallError::Reentrancy,
            ),
        steps.last() == BatchStep::Continue ==> states.last().refusal(other) == Some(
            MulticallError::Reentrancy,
        ),
        steps.last() != BatchStep::Continue ==> states.last().refusal(other) != Some(
            MulticallError::Reentrancy,
        ),
        runs[0].next + steps.len() <= runs[0].calls@.len(),
        runs[0].next + steps.len() == runs[0].calls@.len() ==> steps.last() != BatchStep::Continue,
{
    lemma_guard_held(states, runs, outcomes, steps, steps.len() - 1);
    assert(is_recorded(
        states[steps.len() - 1],
        runs[steps.len() - 1],
        outcomes[steps.len() - 1],
        states[steps.len() as int],
        runs[steps.len() as int],
        steps[steps.len() - 1],
    ));
    assert forall|i: int| 0 <= i < steps.len() implies (#[trigger] states[i]).refusal(other)
        == Some(MulticallError::Reentrancy) by {
        lemma_guard_held(states, runs, outcomes, steps, i);
    }
}

/// After the first outcomes of a batch the guard is held, and calls are left to be made.
proof fn lemma_guard_held(
    states: Seq<RouterMulticall>,
    runs: Seq<BatchRun>,
    outcomes: Seq<bool>,
    steps: Seq<BatchStep>,
    n: int,
)
    requires
        is_batch_run(states, runs, outcomes, steps),
        states[0].executing,
        runs[0].next < runs[0].calls@.len(),
        0 <= n < steps.len(),
    ensures
        states[n].executing,
        runs[n].calls == runs[0].calls,
        runs[n].next == runs[0].next + n,
        runs[n].next < runs[n].calls@.len(),
    decreases n,
{
    if n > 0 {
        lemma_guard_held(states, runs, outcomes, steps, n - 1);
        assert(is_recorded(
            states[n - 1],
            runs[n - 1],
            outcomes[n - 1],
            states[n],
            runs[n],
            steps[n - 1],
        ));
        assert(steps[n - 1] == BatchStep::Continue);
    }
}

/// The stored result of an attempted call reads back under its batch and index,
/// and nothing else that was stored changes.
pub proof fn stored_results_read_back(
    before: Map<(u64, u32), CallResult>,
    batch_id: u64,
    calls: Seq<CallDescriptor>,
    outcomes: Seq<bool>,
    n: nat,
)
    requires
        n <= u32::MAX,
    ensures
        forall|i: u32|
            i < n ==> #[trigger] stored(before, batch_id, calls, outcomes, n).contains_key(
                (batch_id, i),
            ),
        forall|i: u32|
            i < n ==> #[trigger] stored(before, batch_id, calls, outcomes, n)[(batch_id, i)]
                == call_result(calls[i as int], outcomes[i as int]),
        forall|key: (u64, u32)|
            #![trigger stored(before, batch_id, calls, outcomes, n).contains_key(key)]
            key.0 != batch_id || key.1 >= n ==> {
                let after = stored(before, batch_id, calls, outcomes, n);
                &&& after.contains_key(key) == before.contains_key(key)
                &&& before.contains_key(key) ==> after[key] == before[key]
            },
    decreases n,
{
    if n > 0 {
        let m = (n - 1) as nat;
        stored_results_read_back(before, batch_id, calls, outcomes, m);
        let earlier = stored(before, batch_id, calls, outcomes, m);
        let after = stored(before, batch_id, calls, outcomes, n);
        assert forall|i: u32| i < n implies #[trigger] after.contains_key((batch_id, i)) by {
            assert(i < m ==> earlier.contains_key((batch_id, i)));
        }
        assert forall|i: u32| i < n implies #[trigger] after[(batch_id, i)] == call_result(
            calls[i as int],
            outcomes[i as int],
        ) by {
            if i < m {
                assert(earlier[(batch_id, i)] == call_result(
                    calls[i as int],
                    outcomes[i as int],
                ));
            }
        }
        assert forall|key: (u64, u32)| key.0 != batch_id || key.1 >= n implies (
        #[trigger] after.contains_key(key)) == before.contains_key(key) && (before.contains_key(
            key,
        ) ==> after[key] == before[key]) by {
            assert(earlier.contains_key(key) == before.contains_key(key));
        }
    }
}

} // verus!
