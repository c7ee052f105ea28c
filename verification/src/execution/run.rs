//! Execution of a request: the calls to make, and what to do with their outcomes.

use super::contract::{backoff, MAX_RETRIES};
use super::types::{
    CallOutcome, ExecutionError, ExecutionEvent, ExecutionRecord, ExecutionRequest,
    ExecutionResult, RouterExecution,
};
use crate::common::{Address, Symbol};
use vstd::prelude::*;

verus! {

/// A request under way: one more call of its function is to be made.
pub struct Run {
    pub target: Address,
    pub function: Symbol,
    /// Whether the next call is the simulation
    pub simulating: bool,
    /// Whether simulation was asked for
    pub simulated: bool,
    /// Attempts made so far
    pub attempts: u32,
    /// How many attempts that fail with a network error are made again
    pub retries: u32,
}

impl Run {
    /// Whether this outcome is that of an attempt that went through.
    pub open spec fn is_success(self, outcome: CallOutcome) -> bool {
        !self.simulating && outcome == CallOutcome::Succeeded
    }

    /// Whether this outcome is that of an attempt that is made again: it failed with a
    /// network error, and there are retries left.
    pub open spec fn is_retried(self, outcome: CallOutcome) -> bool {
        !self.simulating && outcome.is_transient() && self.attempts < self.retries
    }

    /// Whether this outcome ends the request with an error.
    pub open spec fn is_failure(self, outcome: CallOutcome) -> bool {
        outcome != CallOutcome::Succeeded && !self.is_retried(outcome)
    }

    /// Whether the pipeline counts this outcome as an execution, and whether as an error.
    pub fn counts(&self, outcome: CallOutcome) -> (r: (bool, bool))
        ensures
            r == (self.is_success(outcome), self.is_failure(outcome)),
    {
        let succeeded: bool = outcome == CallOutcome::Succeeded;
        let retried: bool = !self.simulating && outcome.transient() && self.attempts < self.retries;
        (!self.simulating && succeeded, !succeeded && !retried)
    }
}

/// What is to be done after a call.
pub enum Step {
    /// Call again.
    Again(Run),
    /// Answer the request.
    Done(Result<ExecutionResult, ExecutionError>),
}

/// The place of the first attempt that is not made again: the first that did not fail
/// with a network error, or else the last of all.
pub open spec fn last_attempt(outcomes: Seq<CallOutcome>) -> int
    decreases outcomes.len(),
{
    if outcomes.len() <= 1 || !outcomes[0].is_transient() {
        0
    } else {
        last_attempt(outcomes.drop_first()) + 1
    }
}

/// The outcomes of the attempts among those of all calls: a simulation comes first, if there
/// is one.
pub open spec fn attempts_of(request: ExecutionRequest, outcomes: Seq<CallOutcome>) -> Seq<
    CallOutcome,
> {
    if request.simulate_first {
        outcomes.drop_first()
    } else {
        outcomes
    }
}

/// Whether a simulation was asked for and failed.
pub open spec fn simulation_failed(request: ExecutionRequest, outcomes: Seq<CallOutcome>) -> bool {
    request.simulate_first && outcomes[0] != CallOutcome::Succeeded
}

/// Whether the request goes through in the end.
pub open spec fn goes_through(request: ExecutionRequest, outcomes: Seq<CallOutcome>) -> bool {
    let tried = attempts_of(request, outcomes);
    !simulation_failed(request, outcomes) && tried[last_attempt(tried)] == CallOutcome::Succeeded
}

impl RouterExecution {
    /// How many attempts of a request are made again if they fail with a network error.
    pub open spec fn retries_for(self, request: ExecutionRequest) -> u32 {
        if request.max_retries < self.max_retries {
            request.max_retries
        } else {
            self.max_retries
        }
    }

    /// What is published of the first `n` failed attempts that are made again.
    pub open spec fn retry_events(self, target: Address, function: Symbol, n: nat) -> Seq<
        ExecutionEvent,
    >
        decreases n,
    {
        if n == 0 {
            seq![]
        } else {
            self.retry_events(target, function, (n - 1) as nat).push(
                ExecutionEvent::Retried {
                    target,
                    function,
                    attempts: n as u32,
                    delay_ms: backoff(
                        self.backoff_base_ms,
                        self.backoff_multiplier,
                        (n - 1) as nat,
                    ) as u64,
                },
            )
        }
    }

    /// Starts a request.
    ///
    /// # Errors
    /// * [`ExecutionError::NotInitialized`] if there is no admin.
    pub fn begin(&self, request: &ExecutionRequest) -> (r: Result<Run, ExecutionError>)
        ensures
            r == (if self.admin is None {
                Err(ExecutionError::NotInitialized)
            } else {
                Ok(
                    Run {
                        target: request.target,
                        function: request.function,
                        simulating: request.simulate_first,
                        simulated: request.simulate_first,
                        attempts: 0,
                        retries: self.retries_for(*request),
                    },
                )
            }),
    {
        if self.admin.is_none() {
            return Err(ExecutionError::NotInitialized);
        }
        let retries: u32 = if request.max_retries < self.max_retries {
            request.max_retries
        } else {
            self.max_retries
        };
        Ok(
            Run {
                target: request.target.clone(),
                function: request.function.clone(),
                simulating: request.simulate_first,
                simulated: request.simulate_first,
                attempts: 0,
                retries,
            },
        )
    }

    /// Whether `after` is `self` with a failure counted and published.
    pub open spec fn is_failed(
        self,
        target: Address,
        function: Symbol,
        error: ExecutionError,
        attempts: u32,
        after: RouterExecution,
    ) -> bool {
        &&& after == (RouterExecution {
            total_errors: (self.total_errors + 1) as u64,
            events: after.events,
            ..self
        })
        &&& after.events@ == self.events@.push(
            ExecutionEvent::Failed { target, function, code: error.number(), attempts },
        ).push(ExecutionEvent::Executed { target, function, success: false, attempts })
    }

    fn log_error(
        &mut self,
        target: &Address,
        function: &Symbol,
        error: ExecutionError,
        attempts: u32,
    )
        requires
            old(self).total_errors < u64::MAX,
        ensures
            old(self).is_failed(*target, *function, error, attempts, *final(self)),
    {
        self.total_errors = self.total_errors + 1;
        self.events.push(
            ExecutionEvent::Failed {
                target: target.clone(),
                function: function.clone(),
                code: error.code(),
                attempts,
            },
        );
        self.events.push(
            ExecutionEvent::Executed {
                target: target.clone(),
                function: function.clone(),
                success: false,
                attempts,
            },
        );
    }

    fn append_history(
        &mut self,
        target: &Address,
        function: &Symbol,
        success: bool,
        fee_paid: i128,
        now: u64,
    )
        ensures
            *final(self) == (RouterExecution { history: final(self).history, ..*old(self) }),
            final(self).history@ == old(self).history@.push(
                ExecutionRecord {
                    timestamp: now,
                    target: *target,
                    function: *function,
                    success,
                    fee_paid,
                },
            ),
    {
        self.history.push(
            ExecutionRecord {
                timestamp: now,
                target: target.clone(),
                function: function.clone(),
                success,
                fee_paid,
            },
        );
    }

    /// Takes the outcome of the call that a run has waited for.
    ///
    /// A failed simulation ends the request with [`ExecutionError::SimulationFailed`]. An
    /// attempt that fails with a network error is made again while there are retries left;
    /// any other failure, and a network error without retries left, ends the request with
    /// [`ExecutionError::ContractRejected`].
    pub fn advance(&mut self, run: Run, outcome: CallOutcome, now: u64) -> (r: Step)
        requires
            run.attempts <= run.retries <= MAX_RETRIES,
            run.is_success(outcome) ==> old(self).total_executions < u64::MAX,
            run.is_failure(outcome) ==> old(self).total_errors < u64::MAX,
        ensures
            run.simulating && outcome == CallOutcome::Succeeded ==> r == Step::Again(
                (Run { simulating: false, ..run }),
            ) && *final(self) == *old(self),
            run.simulating && outcome != CallOutcome::Succeeded ==> r == Step::Done(
                Err(ExecutionError::SimulationFailed),
            ) && old(self).is_failed(
                run.target,
                run.function,
                ExecutionError::SimulationFailed,
                0,
                *final(self),
            ),
            run.is_success(outcome) ==> {
                let attempts = (run.attempts + 1) as u32;
                &&& r == Step::Done(
                    Ok(
                        ExecutionResult {
                            target: run.target,
                            function: run.function,
                            success: true,
                            attempts,
                            simulated: run.simulated,
                        },
                    ),
                )
                &&& *final(self) == (RouterExecution {
                    total_executions: (old(self).total_executions + 1) as u64,
                    history: final(self).history,
                    events: final(self).events,
                    ..*old(self)
                })
                &&& final(self).history@ == old(self).history@.push(
                    ExecutionRecord {
                        timestamp: now,
                        target: run.target,
                        function: run.function,
                        success: true,
                        fee_paid: 0,
                    },
                )
                &&& final(self).events@ == old(self).events@.push(
                    ExecutionEvent::Executed {
                        target: run.target,
                        function: run.function,
                        success: true,
                        attempts,
                    },
                )
            },
            run.is_retried(outcome) ==> {
                let attempts = (run.attempts + 1) as u32;
                &&& r == Step::Again(Run { attempts, ..run })
                &&& *final(self) == (RouterExecution { events: final(self).events, ..*old(self) })
                &&& final(self).events@ == old(self).events@.push(
                    ExecutionEvent::Retried {
                        target: run.target,
                        function: run.function,
                        attempts,
                        delay_ms: backoff(
                            old(self).backoff_base_ms,
                            old(self).backoff_multiplier,
                            run.attempts as nat,
                        ) as u64,
                    },
                )
            },
            !run.simulating && run.is_failure(outcome) ==> {
                &&& r == Step::Done(Err(ExecutionError::ContractRejected))
                &&& old(self).is_failed(
                    run.target,
                    run.function,
                    ExecutionError::ContractRejected,
                    (run.attempts + 1) as u32,
                    RouterExecution { history: old(self).history, ..*final(self) },
                )
                &&& final(self).history@ == old(self).history@.push(
                    ExecutionRecord {
                        timestamp: now,
                        target: run.target,
                        function: run.function,
                        success: false,
                        fee_paid: 0,
                    },
                )
            },
            old(self).wf() ==> final(self).wf(),
    {
        if run.simulating {
            if outcome == CallOutcome::Succeeded {
                return Step::Again(Run { simulating: false, ..run });
            }
            self.log_error(&run.target, &run.function, ExecutionError::SimulationFailed, 0);
            return Step::Done(Err(ExecutionError::SimulationFailed));
        }
        let attempts: u32 = run.attempts + 1;
        if outcome == CallOutcome::Succeeded {
            self.total_executions = self.total_executions + 1;
            self.append_history(&run.target, &run.function, true, 0, now);
            self.events.push(
                ExecutionEvent::Executed {
                    target: run.target.clone(),
                    function: run.function.clone(),
                    success: true,
                    attempts,
                },
            );
            return Step::Done(
                Ok(
                    ExecutionResult {
                        target: run.target,
                        function: run.function,
                        success: true,
                        attempts,
                        simulated: run.simulated,
                    },
                ),
            );
        }
        if outcome.transient() && attempts <= run.retries {
            let delay_ms: u64 = Self::compute_backoff_ms(
                self.backoff_base_ms,
                self.backoff_multiplier,
                attempts - 1,
            );
            self.events.push(
                ExecutionEvent::Retried {
                    target: run.target.clone(),
                    function: run.function.clone(),
                    attempts,
                    delay_ms,
                },
            );
            return Step::Again(Run { attempts, ..run });
        }
        self.log_error(&run.target, &run.function, ExecutionError::ContractRejected, attempts);
        self.append_history(&run.target, &run.function, false, 0, now);
        Step::Done(Err(ExecutionError::ContractRejected))
    }

    /// Executes a request whose calls have these outcomes: first that of the simulation, if
    /// there is one, then those of the attempts. Outcomes of calls that are not made are
    /// not looked at.
    ///
    /// Every outcome, success or failure, is published as a result; that of a failure
    /// follows its error.
    ///
    /// # Errors
    /// * [`ExecutionError::NotInitialized`] if there is no admin.
    /// * [`ExecutionError::SimulationFailed`] if the simulation failed.
    /// * [`ExecutionError::ContractRejected`] if an attempt failed with anything but a network
    ///   error, or the first attempt and all retries failed.
    pub fn execute(
        &mut self,
        request: &ExecutionRequest,
        outcomes: &Vec<CallOutcome>,
        now: u64,
    ) -> (r: Result<ExecutionResult, ExecutionError>)
        requires
            old(self).wf(),
            outcomes@.len() == old(self).retries_for(*request) + 1 + (if request.simulate_first {
                1int
            } else {
                0
            }),
            old(self).admin is Some ==> if goes_through(*request, outcomes@) {
                old(self).total_executions < u64::MAX
            } else {
                old(self).total_errors < u64::MAX
            },
        ensures
            final(self).wf(),
            old(self).admin is None ==> r == Err::<ExecutionResult, _>(
                ExecutionError::NotInitialized,
            ) && *final(self) == *old(self),
            old(self).admin is Some && simulation_failed(*request, outcomes@) ==> r == Err::<
                ExecutionResult,
                _,
            >(ExecutionError::SimulationFailed) && old(self).is_failed(
                request.target,
                request.function,
                ExecutionError::SimulationFailed,
                0,
                *final(self),
            ),
            old(self).admin is Some && !simulation_failed(*request, outcomes@) ==> {
                let success = goes_through(*request, outcomes@);
                let retried = last_attempt(attempts_of(*request, outcomes@));
                let attempts = (retried + 1) as u32;
                let events = old(self).events@ + old(self).retry_events(
                    request.target,
                    request.function,
                    retried as nat,
                );
                let executed = ExecutionEvent::Executed {
                    target: request.target,
                    function: request.function,
                    success,
                    attempts,
                };
                &&& r == if success {
                    Ok(
                        ExecutionResult {
                            target: request.target,
                            function: request.function,
                            success: true,
                            attempts,
                            simulated: request.simulate_first,
                        },
                    )
                } else {
                    Err(ExecutionError::ContractRejected)
                }
                &&& *final(self) == (RouterExecution {
                    total_executions: if success {
                        (old(self).total_executions + 1) as u64
                    } else {
                        old(self).total_executions
                    },
                    total_errors: if success {
                        old(self).total_errors
                    } else {
                        (old(self).total_errors + 1) as u64
                    },
                    history: final(self).history,
                    events: final(self).events,
                    ..*old(self)
                })
                &&& final(self).events@ == if success {
                    events.push(executed)
                } else {
                    events.push(
                        ExecutionEvent::Failed {
                            target: request.target,
                            function: request.function,
                            code: ExecutionError::ContractRejected.number(),
                            attempts,
                        },
                    ).push(executed)
                }
                &&& final(self).history@ == old(self).history@.push(
                    ExecutionRecord {
                        timestamp: now,
                        target: request.target,
                        function: request.function,
                        success,
                        fee_paid: 0,
                    },
                )
            },
    {
        let mut run: Run = match self.begin(request) {
            Err(e) => {
                return Err(e);
            },
            Ok(run) => run,
        };
        let mut next: usize = 0;
        if request.simulate_first {
            match self.advance(run, outcomes[0], now) {
                Step::Done(answer) => {
                    return answer;
                },
                Step::Again(more) => {
                    run = more;
                },
            }
            next = 1;
        }
        let ghost from = next as int;
        let ghost tried = attempts_of(*request, outcomes@);
        let ghost retries = old(self).retries_for(*request);
        proof {
            assert(tried.skip(0) =~= tried);
            assert(self.events@ =~= old(self).events@ + old(self).retry_events(
                request.target,
                request.function,
                0,
            ));
        }
        loop
            invariant
                old(self).wf(),
                from == if request.simulate_first {
                    1int
                } else {
                    0
                },
                old(self).admin is Some,
                if goes_through(*request, outcomes@) {
                    old(self).total_executions < u64::MAX
                } else {
                    old(self).total_errors < u64::MAX
                },
                !simulation_failed(*request, outcomes@),
                tried == attempts_of(*request, outcomes@),
                retries == old(self).retries_for(*request),
                outcomes@.len() == retries + 1 + from,
                run == (Run {
                    target: request.target,
                    function: request.function,
                    simulating: false,
                    simulated: request.simulate_first,
                    attempts: run.attempts,
                    retries,
                }),
                run.attempts <= retries,
                next == from + run.attempts,
                last_attempt(tried) == run.attempts + last_attempt(tried.skip(run.attempts as int)),
                *self == (RouterExecution { events: self.events, ..*old(self) }),
                self.events@ == old(self).events@ + old(self).retry_events(
                    request.target,
                    request.function,
                    run.attempts as nat,
                ),
            decreases retries - run.attempts,
        {
            let ghost made = run.attempts;
            let outcome: CallOutcome = outcomes[next];
            proof {
                let rest = tried.skip(made as int);
                assert(outcome == tried[made as int]);
                assert(rest[0] == outcome);
                assert(rest.drop_first() =~= tried.skip(made + 1));
                assert(rest.len() == retries + 1 - made);
            }
            match self.advance(run, outcome, now) {
                Step::Done(answer) => {
                    return answer;
                },
                Step::Again(more) => {
                    run = more;
                },
            }
            next = next + 1;
            proof {
                assert(self.events@ =~= old(self).events@ + old(self).retry_events(
                    request.target,
                    request.function,
                    run.attempts as nat,
                ));
            }
        }
    }
}

} // verus!
