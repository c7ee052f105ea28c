//! The state of the timelock.

use crate::common::{
    Address, EVENT_ADMIN_TRANSFERRED, EVENT_MIN_DELAY_UPDATED, EVENT_OPS_CLEANED,
    EVENT_OP_CANCELLED, EVENT_OP_DESCRIPTION_UPDATED, EVENT_OP_EXECUTED, EVENT_OP_QUEUED,
};
use crate::store::KeyedStore;
use vstd::prelude::*;

verus! {

/// The id of an operation: the bytes of its hash, in hexadecimal.
pub type OpId = String;

#[derive(Debug, PartialEq)]
pub struct Op {
    pub proposer: Address,
    pub description: String,
    pub target: Address,
    /// When the operation can first be executed
    pub eta: u64,
    /// Seconds after `eta` during which the operation may be executed.
    /// After `eta + grace_period_seconds` the operation is considered expired
    /// and can no longer be executed.
    pub grace_period_seconds: u64,
    pub executed: bool,
    pub cancelled: bool,
}

impl Clone for Op {
    fn clone(&self) -> (r: Self)
        ensures
            r == *self,
    {
        Op {
            proposer: self.proposer.clone(),
            description: self.description.clone(),
            target: self.target.clone(),
            eta: self.eta,
            grace_period_seconds: self.grace_period_seconds,
            executed: self.executed,
            cancelled: self.cancelled,
        }
    }
}

/// Human-readable status of a timelock operation.
#[derive(Clone, Copy, Debug, PartialEq, Eq, Structural)]
pub enum OperationStatus {
    /// Queued and waiting for ETA to elapse.
    Queued,
    /// ETA has elapsed, still within grace period, not yet executed.
    Ready,
    /// Successfully executed.
    Executed,
    /// Cancelled before execution.
    Cancelled,
    /// Grace period has elapsed without execution; operation can no longer be executed.
    Expired,
}

#[derive(Clone, Copy, Debug, PartialEq, Eq, Structural)]
pub enum TimelockError {
    AlreadyInitialized,
    NotInitialized,
    Unauthorized,
    NotFound,
    NotReady,
    AlreadyExecuted,
    Cancelled,
    DelayTooShort,
    /// The grace period has elapsed; the operation can no longer be executed.
    Expired,
    /// The maximum number of pending operations has been reached.
    QueueFull,
    /// A dependency references itself or creates a cycle.
    CircularDependency,
    /// A dependency chain exceeds the maximum allowed depth.
    DependencyTooDeep,
}

/// What the timelock publishes.
#[derive(Debug, PartialEq)]
pub enum TimelockEvent {
    OpQueued { op_id: OpId, target: Address, eta: u64, grace_period_seconds: u64 },
    OpExecuted { op_id: OpId, target: Address },
    OpCancelled { op_id: OpId },
    OpDescriptionUpdated { op_id: OpId, description: String },
    OpsCleaned { count: u32 },
    MinDelayUpdated { old_min_delay: u64, new_min_delay: u64 },
    AdminTransferred { old_admin: Address, new_admin: Address },
}

impl TimelockEvent {
    /// The topic under which the event is published.
    pub fn topic(&self) -> (r: &'static str)
        ensures
            r@ == (match self {
                TimelockEvent::OpQueued { .. } => EVENT_OP_QUEUED@,
                TimelockEvent::OpExecuted { .. } => EVENT_OP_EXECUTED@,
                TimelockEvent::OpCancelled { .. } => EVENT_OP_CANCELLED@,
                TimelockEvent::OpDescriptionUpdated { .. } => EVENT_OP_DESCRIPTION_UPDATED@,
                TimelockEvent::OpsCleaned { .. } => EVENT_OPS_CLEANED@,
                TimelockEvent::MinDelayUpdated { .. } => EVENT_MIN_DELAY_UPDATED@,
                TimelockEvent::AdminTransferred { .. } => EVENT_ADMIN_TRANSFERRED@,
            }),
    {
        match self {
            TimelockEvent::OpQueued { .. } => EVENT_OP_QUEUED,
            TimelockEvent::OpExecuted { .. } => EVENT_OP_EXECUTED,
            TimelockEvent::OpCancelled { .. } => EVENT_OP_CANCELLED,
            TimelockEvent::OpDescriptionUpdated { .. } => EVENT_OP_DESCRIPTION_UPDATED,
            TimelockEvent::OpsCleaned { .. } => EVENT_OPS_CLEANED,
            TimelockEvent::MinDelayUpdated { .. } => EVENT_MIN_DELAY_UPDATED,
            TimelockEvent::AdminTransferred { .. } => EVENT_ADMIN_TRANSFERRED,
        }
    }
}

/// The state of the timelock. `events` is what it has published.
pub struct RouterTimelock {
    pub admin: Option<Address>,
    /// The shortest delay of a new operation, in seconds
    pub min_delay: u64,
    /// How many operations may be pending; 0 is without limit
    pub max_pending_ops: u32,
    /// id -> operation
    pub ops: KeyedStore<OpId, Op>,
    /// id -> the operations that it depends on
    pub dependencies: KeyedStore<OpId, Vec<OpId>>,
    /// The operations that are neither executed nor cancelled, in the order of queueing
    pub pending: Vec<OpId>,
    pub events: Vec<TimelockEvent>,
}

} // verus!
