//! The state of the execution pipeline.

use crate::common::{
    Address, Symbol, EVENT_ADMIN_TRANSFERRED, EVENT_EXECUTION_ERROR, EVENT_EXECUTION_RESULT,
    EVENT_EXECUTION_RETRY, EVENT_FEE_ESTIMATED, EVENT_SIMULATION_RESULT,
};
use vstd::prelude::*;

verus! {

/// Structured error hierarchy of the execution pipeline:
/// - network errors (1xx): transient connectivity or timeout issues, which are retried;
/// - simulation errors (2xx): failures of the validation before execution, which block it;
/// - contract errors (3xx): rejections by the contract, which are not retried;
/// - configuration and authorization errors (4xx).
#[derive(Clone, Copy, Debug, PartialEq, Eq, Structural)]
pub enum ExecutionError {
    /// RPC node did not respond within the expected window.
    NetworkTimeout,
    /// Network connectivity issue; retry may succeed.
    NetworkUnavailable,
    /// Simulation detected the transaction would fail on-chain.
    SimulationFailed,
    /// Simulation indicated insufficient resources (budget/fees).
    SimulationInsufficientResources,
    /// The target contract rejected the call.
    ContractRejected,
    /// The target contract was not found at the given address.
    ContractNotFound,
    /// The called function does not exist on the target contract.
    ContractFunctionNotFound,
    AlreadyInitialized,
    NotInitialized,
    Unauthorized,
    InvalidConfig,
    InvalidAmount,
}

impl ExecutionError {
    pub open spec fn number(self) -> u32 {
        match self {
            ExecutionError::NetworkTimeout => 101,
            ExecutionError::NetworkUnavailable => 102,
            ExecutionError::SimulationFailed => 201,
            ExecutionError::SimulationInsufficientResources => 202,
            ExecutionError::ContractRejected => 301,
            ExecutionError::ContractNotFound => 302,
            ExecutionError::ContractFunctionNotFound => 303,
            ExecutionError::AlreadyInitialized => 401,
            ExecutionError::NotInitialized => 402,
            ExecutionError::Unauthorized => 403,
            ExecutionError::InvalidConfig => 404,
            ExecutionError::InvalidAmount => 405,
        }
    }

    /// The code of the error, as events carry it.
    pub fn code(self) -> (r: u32)
        ensures
            r == self.number(),
    {
        match self {
            ExecutionError::NetworkTimeout => 101,
            ExecutionError::NetworkUnavailable => 102,
            ExecutionError::SimulationFailed => 201,
            ExecutionError::SimulationInsufficientResources => 202,
            ExecutionError::ContractRejected => 301,
            ExecutionError::ContractNotFound => 302,
            ExecutionError::ContractFunctionNotFound => 303,
            ExecutionError::AlreadyInitialized => 401,
            ExecutionError::NotInitialized => 402,
            ExecutionError::Unauthorized => 403,
            ExecutionError::InvalidConfig => 404,
            ExecutionError::InvalidAmount => 405,
        }
    }
}

/// How a call of a contract ended.
#[derive(Clone, Copy, Debug, PartialEq, Eq, Structural)]
pub enum CallOutcome {
    /// The call went through.
    Succeeded,
    /// The contract answered with the error of this code.
    Failed(u32),
    /// The call came to no answer of the contract.
    Aborted,
}

impl CallOutcome {
    /// Whether the call failed with a network error, so that it is worth making again.
    pub open spec fn is_transient(self) -> bool {
        self == CallOutcome::Failed(ExecutionError::NetworkTimeout.number()) || self
            == CallOutcome::Failed(ExecutionError::NetworkUnavailable.number())
    }

    /// Whether the call failed with a network error, so that it is worth making again.
    pub fn transient(self) -> (r: bool)
        ensures
            r == self.is_transient(),
    {
        match self {
            CallOutcome::Failed(code) => code == ExecutionError::NetworkTimeout.code() || code
                == ExecutionError::NetworkUnavailable.code(),
            _ => false,
        }
    }
}

/// Describes a single transaction to execute.
pub struct ExecutionRequest {
    /// Target contract address.
    pub target: Address,
    /// Function name to invoke.
    pub function: Symbol,
    /// Whether to run simulation before execution.
    pub simulate_first: bool,
    /// Maximum number of retries for transient (network) errors, capped at the pipeline's
    /// own maximum.
    pub max_retries: u32,
}

/// A single entry of the history.
#[derive(Debug, PartialEq)]
pub struct ExecutionRecord {
    pub timestamp: u64,
    pub target: Address,
    pub function: Symbol,
    pub success: bool,
    pub fee_paid: i128,
}

impl Clone for ExecutionRecord {
    fn clone(&self) -> (r: Self)
        ensures
            r == *self,
    {
        ExecutionRecord {
            timestamp: self.timestamp,
            target: self.target.clone(),
            function: self.function.clone(),
            success: self.success,
            fee_paid: self.fee_paid,
        }
    }
}

/// Result of an execution.
#[derive(Debug, PartialEq)]
pub struct ExecutionResult {
    pub target: Address,
    pub function: Symbol,
    pub success: bool,
    /// Number of attempts made (1 = first try succeeded or non-retryable failure).
    pub attempts: u32,
    /// Whether simulation was run before execution.
    pub simulated: bool,
}

/// Result of a pre-execution simulation.
#[derive(Debug, PartialEq)]
pub struct SimulationResult {
    pub target: Address,
    pub function: Symbol,
    /// `true` if the simulated call would succeed on-chain.
    pub success: bool,
    /// `true` if the simulated call would be rejected on-chain.
    pub would_fail: bool,
    /// Human-readable feedback for the caller.
    pub message: String,
}

/// Fee estimate for a transaction.
#[derive(Clone, Copy, Debug, PartialEq)]
pub struct FeeEstimate {
    /// Base network fee in stroops.
    pub base_fee: i128,
    /// Estimated resource fee (CPU + memory) in stroops.
    pub resource_fee: i128,
    /// Total estimated fee (base + resource).
    pub total_fee: i128,
    /// Surge multiplier applied (100 = 1x, 200 = 2x, etc.).
    pub surge_multiplier: u32,
    /// Whether the estimate reflects high-load conditions.
    pub high_load: bool,
}

/// What the pipeline publishes.
#[derive(Debug, PartialEq)]
pub enum ExecutionEvent {
    Executed { target: Address, function: Symbol, success: bool, attempts: u32 },
    Retried { target: Address, function: Symbol, attempts: u32, delay_ms: u64 },
    Failed { target: Address, function: Symbol, code: u32, attempts: u32 },
    FeeEstimated { total_fee: i128, high_load: bool },
    Simulated { target: Address, function: Symbol, success: bool },
    AdminTransferred { old_admin: Address, new_admin: Address },
}

impl ExecutionEvent {
    /// The topic under which the event is published.
    pub fn topic(&self) -> (r: &'static str)
        ensures
            r@ == (match self {
                ExecutionEvent::Executed { .. } => EVENT_EXECUTION_RESULT@,
                ExecutionEvent::Retried { .. } => EVENT_EXECUTION_RETRY@,
                ExecutionEvent::Failed { .. } => EVENT_EXECUTION_ERROR@,
                ExecutionEvent::FeeEstimated { .. } => EVENT_FEE_ESTIMATED@,
                ExecutionEvent::Simulated { .. } => EVENT_SIMULATION_RESULT@,
                ExecutionEvent::AdminTransferred { .. } => EVENT_ADMIN_TRANSFERRED@,
            }),
    {
        match self {
            ExecutionEvent::Executed { .. } => EVENT_EXECUTION_RESULT,
            ExecutionEvent::Retried { .. } => EVENT_EXECUTION_RETRY,
            ExecutionEvent::Failed { .. } => EVENT_EXECUTION_ERROR,
            ExecutionEvent::FeeEstimated { .. } => EVENT_FEE_ESTIMATED,
            ExecutionEvent::Simulated { .. } => EVENT_SIMULATION_RESULT,
            ExecutionEvent::AdminTransferred { .. } => EVENT_ADMIN_TRANSFERRED,
        }
    }
}

/// The state of the pipeline. `events` is what it has published.
pub struct RouterExecution {
    pub admin: Option<Address>,
    /// How often a call that failed with a network error is made again at most
    pub max_retries: u32,
    pub total_executions: u64,
    pub total_errors: u64,
    /// Delay before the first retry, in milliseconds
    pub backoff_base_ms: u64,
    /// What the delay is multiplied by at each further retry, in hundredths
    pub backoff_multiplier: u32,
    /// What was executed, oldest first
    pub history: Vec<ExecutionRecord>,
    pub events: Vec<ExecutionEvent>,
}

} // verus!
