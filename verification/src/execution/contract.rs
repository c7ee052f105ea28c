//! Configuration, fee estimates, simulation and history.

use super::types::{
    ExecutionError, ExecutionEvent, ExecutionRecord, FeeEstimate, RouterExecution, SimulationResult,
};
use crate::common::{admin_check, require_admin, Address, Symbol};
use vstd::prelude::*;

verus! {

/// Scale of fixed-point multipliers (100 = 1.0x).
pub const FIXED_POINT_SCALE: u32 = 100;

/// Smallest backoff multiplier: a constant delay.
pub const MIN_BACKOFF_MULTIPLIER: u32 = 100;

/// The largest number of retries.
pub const MAX_RETRIES: u32 = 5;

/// Minimum transaction fee of the network, in stroops.
pub const BASE_FEE_STROOPS: i128 = 100;

/// The resource fee is the amount divided by this (0.1% of the amount).
pub const FEE_SCALE_DIVISOR: i128 = 1000;

/// The smallest resource fee, in stroops.
pub const MIN_RESOURCE_FEE_STROOPS: i128 = 100;

/// Network utilization, in basis points, from which surge pricing applies.
pub const HIGH_LOAD_THRESHOLD_BPS: u32 = 8000;

/// Fee multiplier under high load (200 = 2x).
pub const SURGE_MULTIPLIER: u32 = 200;

/// Fee multiplier otherwise (100 = 1x).
pub const NORMAL_MULTIPLIER: u32 = 100;

/// The fee for an amount at a network utilization.
pub open spec fn fee_for(amount: i128, load_bps: u32) -> FeeEstimate {
    let scaled = amount as int / 1000;
    let resource_fee = if scaled < MIN_RESOURCE_FEE_STROOPS {
        MIN_RESOURCE_FEE_STROOPS as int
    } else {
        scaled
    };
    let high_load = load_bps >= HIGH_LOAD_THRESHOLD_BPS;
    FeeEstimate {
        base_fee: BASE_FEE_STROOPS,
        resource_fee: resource_fee as i128,
        total_fee: ((BASE_FEE_STROOPS + resource_fee) * if high_load {
            2int
        } else {
            1
        }) as i128,
        surge_multiplier: if high_load {
            SURGE_MULTIPLIER
        } else {
            NORMAL_MULTIPLIER
        },
        high_load,
    }
}

/// The delay before a retry, in milliseconds: the base, multiplied once for each retry
/// before it, and cut off at the largest number each time.
pub open spec fn backoff(base_ms: u64, multiplier: u32, attempt_index: nat) -> int
    decreases attempt_index,
{
    if attempt_index == 0 {
        base_ms as int
    } else {
        let grown = backoff(base_ms, multiplier, (attempt_index - 1) as nat) * multiplier;
        (if grown > u64::MAX {
            u64::MAX as int
        } else {
            grown
        }) / 100
    }
}

impl RouterExecution {
    /// What an admin check answers.
    pub open spec fn admin_fault(self, caller: Address) -> Option<ExecutionError> {
        match admin_check(
            self.admin,
            caller,
            ExecutionError::NotInitialized,
            ExecutionError::Unauthorized,
        ) {
            Ok(()) => None,
            Err(e) => Some(e),
        }
    }

    /// What holds of the pipeline between any two operations: its settings are within
    /// their limits.
    pub open spec fn wf(self) -> bool {
        &&& self.max_retries <= MAX_RETRIES
        &&& self.backoff_multiplier >= MIN_BACKOFF_MULTIPLIER
    }

    pub fn new() -> (r: Self)
        ensures
            r.wf(),
            r.admin is None,
            r.max_retries == 0,
            r.total_executions == 0,
            r.total_errors == 0,
            r.backoff_base_ms == 0,
            r.backoff_multiplier == FIXED_POINT_SCALE,
            r.history@.len() == 0,
            r.events@.len() == 0,
    {
        RouterExecution {
            admin: None,
            max_retries: 0,
            total_executions: 0,
            total_errors: 0,
            backoff_base_ms: 0,
            backoff_multiplier: FIXED_POINT_SCALE,
            history: Vec::new(),
            events: Vec::new(),
        }
    }

    /// Sets the admin and the settings of a new pipeline.
    ///
    /// # Errors
    /// * [`ExecutionError::AlreadyInitialized`] if there is an admin already.
    /// * [`ExecutionError::InvalidConfig`] if `max_retries` exceeds 5 or
    ///   `backoff_multiplier` is below 100.
    pub fn initialize(
        &mut self,
        admin: Address,
        max_retries: u32,
        backoff_base_ms: u64,
        backoff_multiplier: u32,
    ) -> (r: Result<(), ExecutionError>)
        ensures
            r == (if old(self).admin is Some {
                Err(ExecutionError::AlreadyInitialized)
            } else if max_retries > MAX_RETRIES || backoff_multiplier < MIN_BACKOFF_MULTIPLIER {
                Err(ExecutionError::InvalidConfig)
            } else {
                Ok(())
            }),
            r is Err ==> *final(self) == *old(self),
            r is Ok ==> *final(self) == (RouterExecution {
                admin: Some(admin),
                max_retries,
                backoff_base_ms,
                backoff_multiplier,
                total_executions: 0,
                total_errors: 0,
                ..*old(self)
            }),
            old(self).wf() ==> final(self).wf(),
    {
        if self.admin.is_some() {
            return Err(ExecutionError::AlreadyInitialized);
        }
        if max_retries > MAX_RETRIES {
            return Err(ExecutionError::InvalidConfig);
        }
        if backoff_multiplier < MIN_BACKOFF_MULTIPLIER {
            return Err(ExecutionError::InvalidConfig);
        }
        self.admin = Some(admin);
        self.max_retries = max_retries;
        self.backoff_base_ms = backoff_base_ms;
        self.backoff_multiplier = backoff_multiplier;
        self.total_executions = 0;
        self.total_errors = 0;
        Ok(())
    }

    fn require_admin(&self, caller: &Address) -> (r: Result<(), ExecutionError>)
        ensures
            r == (match self.admin_fault(*caller) {
                Some(e) => Err(e),
                None => Ok(()),
            }),
    {
        require_admin(
            &self.admin,
            caller,
            ExecutionError::NotInitialized,
            ExecutionError::Unauthorized,
        )
    }

    /// Changes the backoff settings.
    ///
    /// # Errors
    /// * [`ExecutionError::NotInitialized`] if there is no admin.
    /// * [`ExecutionError::Unauthorized`] if the caller is not the admin.
    /// * [`ExecutionError::InvalidConfig`] if `backoff_multiplier` is below 100.
    pub fn set_backoff_config(
        &mut self,
        caller: &Address,
        backoff_base_ms: u64,
        backoff_multiplier: u32,
    ) -> (r: Result<(), ExecutionError>)
        ensures
            r == (match old(self).admin_fault(*caller) {
                Some(e) => Err(e),
                None => if backoff_multiplier < MIN_BACKOFF_MULTIPLIER {
                    Err(ExecutionError::InvalidConfig)
                } else {
                    Ok(())
                },
            }),
            r is Err ==> *final(self) == *old(self),
            r is Ok ==> *final(self) == (RouterExecution {
                backoff_base_ms,
                backoff_multiplier,
                ..*old(self)
            }),
            old(self).wf() ==> final(self).wf(),
    {
        match self.require_admin(caller) {
            Err(e) => {
                return Err(e);
            },
            Ok(()) => {},
        }
        if backoff_multiplier < MIN_BACKOFF_MULTIPLIER {
            return Err(ExecutionError::InvalidConfig);
        }
        self.backoff_base_ms = backoff_base_ms;
        self.backoff_multiplier = backoff_multiplier;
        Ok(())
    }

    /// The backoff settings: base delay in milliseconds, and multiplier.
    pub fn backoff_config(&self) -> (r: (u64, u32))
        ensures
            r == (self.backoff_base_ms, self.backoff_multiplier),
    {
        (self.backoff_base_ms, self.backoff_multiplier)
    }

    /// The delay before a retry, in milliseconds.
    pub fn compute_backoff_ms(base_ms: u64, multiplier: u32, attempt_index: u32) -> (r: u64)
        ensures
            r == backoff(base_ms, multiplier, attempt_index as nat),
    {
        let mut delay: u64 = base_ms;
        let mut i: u32 = 0;
        while i < attempt_index
            invariant
                i <= attempt_index,
                delay == backoff(base_ms, multiplier, i as nat),
            decreases attempt_index - i,
        {
            proof {
                assert(0 <= delay * multiplier) by (nonlinear_arith)
                    requires
                        delay >= 0,
                        multiplier >= 0,
                ;
            }
            let grown: u64 = match delay.checked_mul(multiplier as u64) {
                Some(product) => product,
                None => u64::MAX,
            };
            delay = grown / 100;
            i = i + 1;
        }
        delay
    }

    /// Estimates the fee of a transaction: a base fee and 0.1% of the amount, doubled from
    /// a network utilization of 80% on. The fee does not depend on what is called.
    ///
    /// # Errors
    /// * [`ExecutionError::NotInitialized`] if there is no admin.
    /// * [`ExecutionError::InvalidAmount`] if the amount is not positive.
    pub fn estimate_fee(&mut self, amount: i128, high_load_threshold: u32) -> (r: Result<
        FeeEstimate,
        ExecutionError,
    >)
        ensures
            r == (if old(self).admin is None {
                Err(ExecutionError::NotInitialized)
            } else if amount <= 0 {
                Err(ExecutionError::InvalidAmount)
            } else {
                Ok(fee_for(amount, high_load_threshold))
            }),
            r is Err ==> *final(self) == *old(self),
            r matches Ok(estimate) ==> *final(self) == (RouterExecution {
                events: final(self).events,
                ..*old(self)
            }) && final(self).events@ == old(self).events@.push(
                ExecutionEvent::FeeEstimated {
                    total_fee: estimate.total_fee,
                    high_load: estimate.high_load,
                },
            ),
            old(self).wf() ==> final(self).wf(),
    {
        if self.admin.is_none() {
            return Err(ExecutionError::NotInitialized);
        }
        if amount <= 0 {
            return Err(ExecutionError::InvalidAmount);
        }
        let base_fee: i128 = BASE_FEE_STROOPS;
        let scaled: i128 = amount / FEE_SCALE_DIVISOR;
        let resource_fee: i128 = if scaled < MIN_RESOURCE_FEE_STROOPS {
            MIN_RESOURCE_FEE_STROOPS
        } else {
            scaled
        };
        let high_load: bool = high_load_threshold >= HIGH_LOAD_THRESHOLD_BPS;
        let surge_multiplier: u32 = if high_load {
            SURGE_MULTIPLIER
        } else {
            NORMAL_MULTIPLIER
        };
        let total_fee: i128 = if high_load {
            (base_fee + resource_fee) * 200 / 100
        } else {
            (base_fee + resource_fee) * 100 / 100
        };
        self.events.push(ExecutionEvent::FeeEstimated { total_fee, high_load });
        Ok(FeeEstimate { base_fee, resource_fee, total_fee, surge_multiplier, high_load })
    }

    /// Reports a simulation: `succeeded` is whether the dry run went through.
    ///
    /// # Errors
    /// * [`ExecutionError::NotInitialized`] if there is no admin.
    pub fn simulate(&mut self, target: Address, function: Symbol, succeeded: bool) -> (r: Result<
        SimulationResult,
        ExecutionError,
    >)
        ensures
            old(self).admin is None ==> r == Err::<SimulationResult, _>(
                ExecutionError::NotInitialized,
            ) && *final(self) == *old(self),
            old(self).admin is Some ==> {
                &&& r matches Ok(result) && result.target == target && result.function == function
                    && result.success == succeeded && result.would_fail == !succeeded
                    && result.message@ == (if succeeded {
                    "simulation succeeded"@
                } else {
                    "simulation failed: transaction would be rejected"@
                })
                &&& *final(self) == (RouterExecution { events: final(self).events, ..*old(self) })
                &&& final(self).events@ == old(self).events@.push(
                    ExecutionEvent::Simulated { target, function, success: succeeded },
                )
            },
            old(self).wf() ==> final(self).wf(),
    {
        if self.admin.is_none() {
            return Err(ExecutionError::NotInitialized);
        }
        let message: String = if succeeded {
            "simulation succeeded".to_owned()
        } else {
            "simulation failed: transaction would be rejected".to_owned()
        };
        self.events.push(
            ExecutionEvent::Simulated {
                target: target.clone(),
                function: function.clone(),
                success: succeeded,
            },
        );
        Ok(
            SimulationResult {
                target,
                function,
                success: succeeded,
                would_fail: !succeeded,
                message,
            },
        )
    }

    /// Hands the pipeline over to a new admin.
    ///
    /// # Errors
    /// * [`ExecutionError::NotInitialized`] if there is no admin.
    /// * [`ExecutionError::Unauthorized`] if `current` is not the admin.
    pub fn transfer_admin(&mut self, current: Address, new_admin: Address) -> (r: Result<
        (),
        ExecutionError,
    >)
        ensures
            r == (match old(self).admin_fault(current) {
                Some(e) => Err(e),
                None => Ok(()),
            }),
            r is Err ==> *final(self) == *old(self),
            r is Ok ==> *final(self) == (RouterExecution {
                admin: Some(new_admin),
                events: final(self).events,
                ..*old(self)
            }) && final(self).events@ == old(self).events@.push(
                ExecutionEvent::AdminTransferred { old_admin: current, new_admin },
            ),
            old(self).wf() ==> final(self).wf(),
    {
        match self.require_admin(&current) {
            Err(e) => {
                return Err(e);
            },
            Ok(()) => {},
        }
        self.admin = Some(new_admin.clone());
        self.events.push(ExecutionEvent::AdminTransferred { old_admin: current, new_admin });
        Ok(())
    }

    /// Sets how often a failed call is made again at most.
    ///
    /// # Errors
    /// * [`ExecutionError::NotInitialized`] if there is no admin.
    /// * [`ExecutionError::Unauthorized`] if the caller is not the admin.
    /// * [`ExecutionError::InvalidConfig`] if `new_max` exceeds 5.
    pub fn set_max_retries(&mut self, caller: &Address, new_max: u32) -> (r: Result<
        (),
        ExecutionError,
    >)
        ensures
            r == (match old(self).admin_fault(*caller) {
                Some(e) => Err(e),
                None => if new_max > MAX_RETRIES {
                    Err(ExecutionError::InvalidConfig)
                } else {
                    Ok(())
                },
            }),
            r is Err ==> *final(self) == *old(self),
            r is Ok ==> *final(self) == (RouterExecution { max_retries: new_max, ..*old(self) }),
            old(self).wf() ==> final(self).wf(),
    {
        match self.require_admin(caller) {
            Err(e) => {
                return Err(e);
            },
            Ok(()) => {},
        }
        if new_max > MAX_RETRIES {
            return Err(ExecutionError::InvalidConfig);
        }
        self.max_retries = new_max;
        Ok(())
    }

    /// Up to `limit` records of the history, newest first.
    ///
    /// # Errors
    /// * [`ExecutionError::NotInitialized`] if there is no admin.
    pub fn get_execution_history(&self, limit: u32) -> (r: Result<
        Vec<ExecutionRecord>,
        ExecutionError,
    >)
        ensures
            self.admin is None ==> r == Err::<Vec<ExecutionRecord>, _>(
                ExecutionError::NotInitialized,
            ),
            self.admin is Some ==> {
                let len = self.history@.len();
                &&& r is Ok
                &&& (r->Ok_0)@ == Seq::new(
                    if limit < len {
                        limit as nat
                    } else {
                        len
                    },
                    |i: int| self.history@[len - 1 - i],
                )
            },
    {
        if self.admin.is_none() {
            return Err(ExecutionError::NotInitialized);
        }
        let mut result: Vec<ExecutionRecord> = Vec::new();
        let mut i: usize = self.history.len();
        let mut collected: u32 = 0;
        while i > 0 && collected < limit
            invariant
                i <= self.history@.len(),
                collected <= limit,
                collected == self.history@.len() - i,
                result@ == Seq::new(
                    collected as nat,
                    |k: int| self.history@[self.history@.len() - 1 - k],
                ),
            decreases i,
        {
            i = i - 1;
            result.push(self.history[i].clone());
            collected = collected + 1;
            proof {
                assert(result@ =~= Seq::new(
                    collected as nat,
                    |k: int| self.history@[self.history@.len() - 1 - k],
                ));
            }
        }
        Ok(result)
    }

    /// The current admin.
    ///
    /// # Errors
    /// * [`ExecutionError::NotInitialized`] if there is none.
    pub fn admin(&self) -> (r: Result<Address, ExecutionError>)
        ensures
            r == (match self.admin {
                Some(admin) => Ok(admin),
                None => Err(ExecutionError::NotInitialized),
            }),
    {
        match &self.admin {
            Some(admin) => Ok(admin.clone()),
            None => Err(ExecutionError::NotInitialized),
        }
    }

    /// The number of executions that succeeded, and of those that failed.
    pub fn stats(&self) -> (r: (u64, u64))
        ensures
            r == (self.total_executions, self.total_errors),
    {
        (self.total_executions, self.total_errors)
    }
}

} // verus!
