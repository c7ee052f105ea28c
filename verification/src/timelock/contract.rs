//! Queueing, execution and cancellation of operations.

use super::chains::{lemma_fewer_open, lemma_queued_acyclic};
use super::types::{Op, OpId, RouterTimelock, TimelockError, TimelockEvent};
use crate::common::{admin_check, require_admin, Address};
use crate::store::KeyedStore;
use crate::text::{
    lemma_lists_push, lemma_others, lemma_others_distinct, list_contains, lists, others, same_text,
    without_text,
};
use vstd::prelude::*;

verus! {

/// How many steps behind a direct dependency of an operation its chains of dependencies
/// may go. The direct dependency counts too, so that a chain holds at most nine operations.
pub const MAX_DEPENDENCY_DEPTH: u32 = 8;

/// Whether the grace period of an operation is over.
pub open spec fn is_expired(op: Op, now: u64) -> bool {
    now > op.eta + op.grace_period_seconds
}

/// Whether the grace period of an operation is over.
pub fn op_expired(op: &Op, now: u64) -> (r: bool)
    ensures
        r == is_expired(*op, now),
{
    now >= op.eta && now - op.eta > op.grace_period_seconds
}

/// A number as eight bytes, the highest first.
pub open spec fn big_endian(n: u64) -> Seq<u8> {
    seq![
        (n / 0x100_0000_0000_0000 % 256) as u8,
        (n / 0x1_0000_0000_0000 % 256) as u8,
        (n / 0x100_0000_0000 % 256) as u8,
        (n / 0x1_0000_0000 % 256) as u8,
        (n / 0x100_0000 % 256) as u8,
        (n / 0x1_0000 % 256) as u8,
        (n / 0x100 % 256) as u8,
        (n % 256) as u8,
    ]
}

/// What the id of an operation is the hash of: its description and its target as the
/// ledger encodes them, then its ETA.
pub fn op_preimage(description: &Vec<u8>, target: &Vec<u8>, eta: u64) -> (r: Vec<u8>)
    ensures
        r@ == description@ + target@ + big_endian(eta),
{
    let mut bytes: Vec<u8> = Vec::new();
    let mut i: usize = 0;
    while i < description.len()
        invariant
            i <= description@.len(),
            bytes@ == description@.take(i as int),
        decreases description@.len() - i,
    {
        proof {
            assert(description@.take(i + 1) =~= bytes@.push(description@[i as int]));
        }
        bytes.push(description[i]);
        i = i + 1;
    }
    proof {
        assert(description@.take(i as int) =~= description@);
    }
    let mut j: usize = 0;
    while j < target.len()
        invariant
            j <= target@.len(),
            bytes@ == description@ + target@.take(j as int),
        decreases target@.len() - j,
    {
        proof {
            assert(description@ + target@.take(j + 1) =~= bytes@.push(target@[j as int]));
        }
        bytes.push(target[j]);
        j = j + 1;
    }
    proof {
        assert(target@.take(j as int) =~= target@);
    }
    bytes.push((eta / 0x100_0000_0000_0000 % 256) as u8);
    bytes.push((eta / 0x1_0000_0000_0000 % 256) as u8);
    bytes.push((eta / 0x100_0000_0000 % 256) as u8);
    bytes.push((eta / 0x1_0000_0000 % 256) as u8);
    bytes.push((eta / 0x100_0000 % 256) as u8);
    bytes.push((eta / 0x1_0000 % 256) as u8);
    bytes.push((eta / 0x100 % 256) as u8);
    bytes.push((eta % 256) as u8);
    proof {
        assert(bytes@ =~= description@ + target@ + big_endian(eta));
    }
    bytes
}

impl RouterTimelock {
    /// What holds of the timelock between any two operations:
    /// - what is pending is listed once, stored, and neither executed nor cancelled;
    /// - no more is pending than may be;
    /// - no operation waits for itself, directly or through others;
    /// - nothing is pending before there is an admin.
    pub open spec fn wf(self) -> bool {
        &&& self.admin is None ==> self.pending@.len() == 0
        &&& forall|i: int, j: int|
            0 <= i < j < self.pending@.len() ==> (#[trigger] self.pending@[i])@ != (
            #[trigger] self.pending@[j])@
        &&& forall|id: Seq<char>| #[trigger]
            lists(self.pending@, id) ==> self.ops@.contains_key(id) && !self.ops@[id].executed
                && !self.ops@[id].cancelled
        &&& self.max_pending_ops > 0 ==> self.pending@.len() <= self.max_pending_ops
        &&& self.is_acyclic()
    }

    /// What an admin check answers.
    pub open spec fn admin_fault(self, caller: Address) -> Option<TimelockError> {
        match admin_check(
            self.admin,
            caller,
            TimelockError::NotInitialized,
            TimelockError::Unauthorized,
        ) {
            Ok(()) => None,
            Err(e) => Some(e),
        }
    }

    /// Why nothing can be queued with this delay.
    pub open spec fn queue_fault(self, proposer: Address, delay: u64) -> Option<TimelockError> {
        if self.admin_fault(proposer) is Some {
            self.admin_fault(proposer)
        } else if delay < self.min_delay {
            Some(TimelockError::DelayTooShort)
        } else if self.max_pending_ops > 0 && self.pending@.len() >= self.max_pending_ops {
            Some(TimelockError::QueueFull)
        } else {
            None
        }
    }

    /// Why an operation is not pending any more.
    pub open spec fn pending_fault(self, op_id: Seq<char>) -> Option<TimelockError> {
        if !self.ops@.contains_key(op_id) {
            Some(TimelockError::NotFound)
        } else if self.ops@[op_id].cancelled {
            Some(TimelockError::Cancelled)
        } else if self.ops@[op_id].executed {
            Some(TimelockError::AlreadyExecuted)
        } else {
            None
        }
    }

    /// Why an operation cannot be executed.
    pub open spec fn execution_fault(self, op_id: Seq<char>, now: u64) -> Option<TimelockError> {
        if self.pending_fault(op_id) is Some {
            self.pending_fault(op_id)
        } else if now < self.ops@[op_id].eta {
            Some(TimelockError::NotReady)
        } else if is_expired(self.ops@[op_id], now) {
            Some(TimelockError::Expired)
        } else {
            None
        }
    }

    /// The operations that an operation depends on.
    pub open spec fn dependencies_of(self, op_id: Seq<char>) -> Seq<OpId> {
        if self.dependencies@.contains_key(op_id) {
            self.dependencies@[op_id]@
        } else {
            seq![]
        }
    }

    /// Whether an operation was queued, and neither executed nor cancelled since.
    pub open spec fn is_open(self, op_id: Seq<char>) -> bool {
        self.ops@.contains_key(op_id) && !self.ops@[op_id].executed && !self.ops@[op_id].cancelled
    }

    /// Whether `after` is `self` with an operation queued: it is stored with its
    /// dependencies, pending, and published.
    pub open spec fn is_queued(
        self,
        op_id: OpId,
        op: Op,
        deps: Vec<OpId>,
        after: RouterTimelock,
    ) -> bool {
        &&& after == (RouterTimelock {
            ops: after.ops,
            dependencies: after.dependencies,
            pending: after.pending,
            events: after.events,
            ..self
        })
        &&& after.ops@ == self.ops@.insert(op_id@, op)
        &&& after.dependencies@ == self.dependencies@.insert(op_id@, deps)
        &&& after.pending@ == if lists(self.pending@, op_id@) {
            self.pending@
        } else {
            self.pending@.push(op_id)
        }
        &&& after.events@ == self.events@.push(
            TimelockEvent::OpQueued {
                op_id,
                target: op.target,
                eta: op.eta,
                grace_period_seconds: op.grace_period_seconds,
            },
        )
    }

    /// Whether an operation was executed or cancelled.
    pub open spec fn is_finished(self, op_id: Seq<char>) -> bool {
        self.ops@.contains_key(op_id) && (self.ops@[op_id].executed || self.ops@[op_id].cancelled)
    }

    /// Whether an operation, if it is finished, is left as it is.
    pub open spec fn keeps_finished(self, op_id: Seq<char>, after: RouterTimelock) -> bool {
        self.is_finished(op_id) ==> after.ops@.contains_key(op_id) && after.ops@[op_id]
            == self.ops@[op_id]
    }

    /// What is wrong with a dependency, `depth` steps behind a direct one of the operation
    /// `op_id` that is to be queued, or with those behind it.
    pub open spec fn dependency_fault(
        self,
        dep_id: Seq<char>,
        op_id: Seq<char>,
        depth: int,
    ) -> Option<TimelockError>
        decreases MAX_DEPENDENCY_DEPTH + 1 - depth, 0int, 0int,
    {
        if dep_id == op_id {
            Some(TimelockError::CircularDependency)
        } else if depth > MAX_DEPENDENCY_DEPTH {
            Some(TimelockError::DependencyTooDeep)
        } else if !self.is_open(dep_id) {
            None
        } else {
            self.dependencies_fault(self.dependencies_of(dep_id), op_id, depth + 1)
        }
    }

    /// The first fault of some dependencies.
    pub open spec fn dependencies_fault(
        self,
        deps: Seq<OpId>,
        op_id: Seq<char>,
        depth: int,
    ) -> Option<TimelockError>
        decreases MAX_DEPENDENCY_DEPTH + 1 - depth, 1int, deps.len(),
    {
        if deps.len() == 0 {
            None
        } else if self.dependencies_fault(deps.drop_last(), op_id, depth) is Some {
            self.dependencies_fault(deps.drop_last(), op_id, depth)
        } else {
            self.dependency_fault(deps.last()@, op_id, depth)
        }
    }

    pub fn new() -> (r: Self)
        ensures
            r.wf(),
            r.admin is None,
            r.min_delay == 0,
            r.max_pending_ops == 0,
            r.ops@ == Map::<Seq<char>, Op>::empty(),
            r.dependencies@ == Map::<Seq<char>, Vec<OpId>>::empty(),
            r.pending@.len() == 0,
            r.events@.len() == 0,
    {
        let timelock = RouterTimelock {
            admin: None,
            min_delay: 0,
            max_pending_ops: 0,
            ops: KeyedStore::new(),
            dependencies: KeyedStore::new(),
            pending: Vec::new(),
            events: Vec::new(),
        };
        proof {
            assert forall|chain: Seq<Seq<char>>| #[trigger]
                timelock.is_chain(chain) && chain.len() > 1 implies chain.first()
                != chain.last() by {
                assert(timelock.is_link(chain, 0));
            }
        }
        timelock
    }

    /// Sets the admin, the minimum delay in seconds and the number of operations that may
    /// be pending, of a new timelock.
    ///
    /// # Errors
    /// * [`TimelockError::AlreadyInitialized`] if there is an admin already.
    pub fn initialize(&mut self, admin: Address, min_delay: u64, max_pending_ops: u32) -> (r: Result<
        (),
        TimelockError,
    >)
        ensures
            r == (if old(self).admin is Some {
                Err(TimelockError::AlreadyInitialized)
            } else {
                Ok(())
            }),
            r is Err ==> *final(self) == *old(self),
            r is Ok ==> *final(self) == (RouterTimelock {
                admin: Some(admin),
                min_delay,
                max_pending_ops,
                ..*old(self)
            }),
            forall|id: Seq<char>| #[trigger] old(self).keeps_finished(id, *final(self)),
            old(self).wf() ==> final(self).wf(),
    {
        if self.admin.is_some() {
            return Err(TimelockError::AlreadyInitialized);
        }
        self.admin = Some(admin);
        self.min_delay = min_delay;
        self.max_pending_ops = max_pending_ops;
        proof {
            if old(self).wf() {
                lemma_fewer_open(*old(self), *self);
            }
        }
        Ok(())
    }

    fn require_admin(&self, caller: &Address) -> (r: Result<(), TimelockError>)
        ensures
            r == (match self.admin_fault(*caller) {
                Some(e) => Err(e),
                None => Ok(()),
            }),
    {
        require_admin(
            &self.admin,
            caller,
            TimelockError::NotInitialized,
            TimelockError::Unauthorized,
        )
    }

    /// Checks that an operation can be queued with this delay.
    ///
    /// # Errors
    /// * [`TimelockError::NotInitialized`] if there is no admin.
    /// * [`TimelockError::Unauthorized`] if the proposer is not the admin.
    /// * [`TimelockError::DelayTooShort`] if the delay is below the minimum.
    /// * [`TimelockError::QueueFull`] if as many operations are pending as may be.
    pub fn check_queue(&self, proposer: &Address, delay: u64) -> (r: Result<(), TimelockError>)
        ensures
            r == (match self.queue_fault(*proposer, delay) {
                Some(e) => Err(e),
                None => Ok(()),
            }),
    {
        match self.require_admin(proposer) {
            Err(e) => {
                return Err(e);
            },
            Ok(()) => {},
        }
        if delay < self.min_delay {
            return Err(TimelockError::DelayTooShort);
        }
        if self.max_pending_ops > 0 && self.pending.len() >= self.max_pending_ops as usize {
            return Err(TimelockError::QueueFull);
        }
        Ok(())
    }

    /// Checks the chains of dependencies that begin with `dep_id`, which stands `depth`
    /// steps behind a direct dependency of the operation `op_id` that is to be queued. What
    /// is executed or cancelled, and what was never queued, holds nothing up, and ends a
    /// chain.
    ///
    /// # Errors
    /// * [`TimelockError::CircularDependency`] if a chain leads back to `op_id`.
    /// * [`TimelockError::DependencyTooDeep`] if a chain goes more than
    ///   [`MAX_DEPENDENCY_DEPTH`] steps behind a direct dependency.
    pub fn check_dependency_depth(&self, dep_id: &OpId, op_id: &OpId, depth: u32) -> (r: Result<
        (),
        TimelockError,
    >)
        ensures
            r == (match self.dependency_fault(dep_id@, op_id@, depth as int) {
                Some(e) => Err(e),
                None => Ok(()),
            }),
        decreases MAX_DEPENDENCY_DEPTH + 1 - depth, 0int,
    {
        if same_text(dep_id.as_str(), op_id.as_str()) {
            return Err(TimelockError::CircularDependency);
        }
        if depth > MAX_DEPENDENCY_DEPTH {
            return Err(TimelockError::DependencyTooDeep);
        }
        let open: bool = match self.ops.get(dep_id) {
            Some(op) => !op.executed && !op.cancelled,
            None => false,
        };
        if !open {
            return Ok(());
        }
        match self.dependencies.get(dep_id) {
            Some(deps) => self.check_dependencies(deps, op_id, depth + 1),
            None => Ok(()),
        }
    }

    /// Checks the chains of dependencies that begin with any of `deps`.
    fn check_dependencies(&self, deps: &Vec<OpId>, op_id: &OpId, depth: u32) -> (r: Result<
        (),
        TimelockError,
    >)
        ensures
            r == (match self.dependencies_fault(deps@, op_id@, depth as int) {
                Some(e) => Err(e),
                None => Ok(()),
            }),
        decreases MAX_DEPENDENCY_DEPTH + 1 - depth, 1int,
    {
        let mut i: usize = 0;
        while i < deps.len()
            invariant
                i <= deps@.len(),
                self.dependencies_fault(deps@.take(i as int), op_id@, depth as int) is None,
            decreases deps@.len() - i,
        {
            proof {
                assert(deps@.take(i + 1).drop_last() =~= deps@.take(i as int));
            }
            match self.check_dependency_depth(&deps[i], op_id, depth) {
                Err(e) => {
                    proof {
                        self.lemma_first_fault(deps@, i + 1, op_id@, depth as int);
                    }
                    return Err(e);
                },
                Ok(()) => {},
            }
            i = i + 1;
        }
        proof {
            assert(deps@.take(i as int) =~= deps@);
        }
        Ok(())
    }

    /// The first fault stays the first whatever comes after it.
    proof fn lemma_first_fault(self, deps: Seq<OpId>, n: int, op_id: Seq<char>, depth: int)
        requires
            0 <= n <= deps.len(),
            self.dependencies_fault(deps.take(n), op_id, depth) is Some,
        ensures
            self.dependencies_fault(deps, op_id, depth) == self.dependencies_fault(
                deps.take(n),
                op_id,
                depth,
            ),
        decreases deps.len(),
    {
        if n < deps.len() {
            assert(deps.drop_last().take(n) =~= deps.take(n));
            self.lemma_first_fault(deps.drop_last(), n, op_id, depth);
        } else {
            assert(deps.take(n) =~= deps);
        }
    }

    /// Queues an operation under an id, to be executed `delay` seconds from now at the
    /// earliest. [`RouterTimelock::queue_operation`] makes the id: the hash of the
    /// operation's [`op_preimage`].
    ///
    /// # Errors
    /// * As [`RouterTimelock::check_queue`].
    /// * As [`RouterTimelock::check_dependency_depth`], for each of `deps` at depth 0.
    pub fn queue(
        &mut self,
        proposer: Address,
        description: String,
        target: Address,
        delay: u64,
        grace_period_seconds: u64,
        deps: Vec<OpId>,
        now: u64,
        op_id: OpId,
    ) -> (r: Result<OpId, TimelockError>)
        requires
            old(self).queue_fault(proposer, delay) is None ==> now + delay <= u64::MAX,
        ensures
            r == (match old(self).queue_fault(proposer, delay) {
                Some(e) => Err(e),
                None => match old(self).dependencies_fault(deps@, op_id@, 0) {
                    Some(e) => Err(e),
                    None => Ok(op_id),
                },
            }),
            r is Err ==> *final(self) == *old(self),
            r is Ok ==> old(self).is_queued(
                op_id,
                Op {
                    proposer,
                    description,
                    target,
                    eta: (now + delay) as u64,
                    grace_period_seconds,
                    executed: false,
                    cancelled: false,
                },
                deps,
                *final(self),
            ),
            forall|id: Seq<char>|
                id != op_id@ ==> #[trigger] old(self).keeps_finished(id, *final(self)),
            old(self).wf() ==> final(self).wf(),
    {
        match self.check_queue(&proposer, delay) {
            Err(e) => {
                return Err(e);
            },
            Ok(()) => {},
        }
        let eta: u64 = now + delay;
        match self.check_dependencies(&deps, &op_id, 0) {
            Err(e) => {
                return Err(e);
            },
            Ok(()) => {},
        }
        let op = Op {
            proposer,
            description,
            target: target.clone(),
            eta,
            grace_period_seconds,
            executed: false,
            cancelled: false,
        };
        self.ops.insert(op_id.clone(), op);
        self.dependencies.insert(op_id.clone(), deps);
        if !list_contains(&self.pending, op_id.as_str()) {
            self.pending.push(op_id.clone());
        }
        self.events.push(
            TimelockEvent::OpQueued { op_id: op_id.clone(), target, eta, grace_period_seconds },
        );
        proof {
            if old(self).wf() {
                lemma_queued_acyclic(*old(self), deps@, op_id@, *self);
                lemma_queued_wf(*old(self), op_id, *self);
            }
        }
        Ok(op_id)
    }

    /// Cancels an operation that is still pending.
    ///
    /// # Errors
    /// * [`TimelockError::NotInitialized`] if there is no admin.
    /// * [`TimelockError::Unauthorized`] if the caller is not the admin.
    /// * [`TimelockError::NotFound`] if there is no such operation.
    /// * [`TimelockError::Cancelled`] if it is cancelled already.
    /// * [`TimelockError::AlreadyExecuted`] if it is executed already.
    pub fn cancel(&mut self, caller: &Address, op_id: OpId) -> (r: Result<(), TimelockError>)
        ensures
            r == (match old(self).admin_fault(*caller) {
                Some(e) => Err(e),
                None => match old(self).pending_fault(op_id@) {
                    Some(e) => Err(e),
                    None => Ok(()),
                },
            }),
            r is Err ==> *final(self) == *old(self),
            r is Ok ==> {
                &&& *final(self) == (RouterTimelock {
                    ops: final(self).ops,
                    pending: final(self).pending,
                    events: final(self).events,
                    ..*old(self)
                })
                &&& final(self).ops@ == old(self).ops@.insert(
                    op_id@,
                    Op { cancelled: true, ..old(self).ops@[op_id@] },
                )
                &&& final(self).pending@ == others(old(self).pending@, op_id@)
                &&& final(self).events@ == old(self).events@.push(
                    TimelockEvent::OpCancelled { op_id },
                )
            },
            forall|id: Seq<char>| #[trigger] old(self).keeps_finished(id, *final(self)),
            old(self).wf() ==> final(self).wf(),
    {
        match self.require_admin(caller) {
            Err(e) => {
                return Err(e);
            },
            Ok(()) => {},
        }
        let mut op: Op = match self.pending_op(&op_id) {
            Ok(op) => op,
            Err(e) => {
                return Err(e);
            },
        };
        op.cancelled = true;
        self.ops.insert(op_id.clone(), op);
        self.pending = without_text(&self.pending, op_id.as_str());
        self.events.push(TimelockEvent::OpCancelled { op_id });
        proof {
            if old(self).wf() {
                lemma_finished_wf(*old(self), op_id@, *self);
            }
        }
        Ok(())
    }

    /// An operation that is still pending.
    fn pending_op(&self, op_id: &OpId) -> (r: Result<Op, TimelockError>)
        ensures
            r == (match self.pending_fault(op_id@) {
                Some(e) => Err(e),
                None => Ok(self.ops@[op_id@]),
            }),
    {
        match self.ops.get(op_id) {
            None => Err(TimelockError::NotFound),
            Some(op) => {
                if op.cancelled {
                    return Err(TimelockError::Cancelled);
                }
                if op.executed {
                    return Err(TimelockError::AlreadyExecuted);
                }
                Ok(op.clone())
            },
        }
    }

    /// Marks an operation as executed, once its ETA has come and before its grace period
    /// is over.
    ///
    /// # Errors
    /// * [`TimelockError::NotInitialized`] if there is no admin.
    /// * [`TimelockError::Unauthorized`] if the caller is not the admin.
    /// * [`TimelockError::NotFound`] if there is no such operation.
    /// * [`TimelockError::Cancelled`] if it is cancelled.
    /// * [`TimelockError::AlreadyExecuted`] if it is executed already.
    /// * [`TimelockError::NotReady`] before its ETA.
    /// * [`TimelockError::Expired`] after its grace period.
    pub fn execute(&mut self, caller: &Address, op_id: OpId, now: u64) -> (r: Result<
        (),
        TimelockError,
    >)
        ensures
            r == (match old(self).admin_fault(*caller) {
                Some(e) => Err(e),
                None => match old(self).execution_fault(op_id@, now) {
                    Some(e) => Err(e),
                    None => Ok(()),
                },
            }),
            r is Err ==> *final(self) == *old(self),
            r is Ok ==> {
                &&& *final(self) == (RouterTimelock {
                    ops: final(self).ops,
                    pending: final(self).pending,
                    events: final(self).events,
                    ..*old(self)
                })
                &&& final(self).ops@ == old(self).ops@.insert(
                    op_id@,
                    Op { executed: true, ..old(self).ops@[op_id@] },
                )
                &&& final(self).pending@ == others(old(self).pending@, op_id@)
                &&& final(self).events@ == old(self).events@.push(
                    TimelockEvent::OpExecuted { op_id, target: old(self).ops@[op_id@].target },
                )
            },
            forall|id: Seq<char>| #[trigger] old(self).keeps_finished(id, *final(self)),
            old(self).wf() ==> final(self).wf(),
    {
        match self.require_admin(caller) {
            Err(e) => {
                return Err(e);
            },
            Ok(()) => {},
        }
        let mut op: Op = match self.pending_op(&op_id) {
            Ok(op) => op,
            Err(e) => {
                return Err(e);
            },
        };
        if now < op.eta {
            return Err(TimelockError::NotReady);
        }
        if op_expired(&op, now) {
            return Err(TimelockError::Expired);
        }
        let target: Address = op.target.clone();
        op.executed = true;
        self.ops.insert(op_id.clone(), op);
        self.pending = without_text(&self.pending, op_id.as_str());
        self.events.push(TimelockEvent::OpExecuted { op_id, target });
        proof {
            if old(self).wf() {
                lemma_finished_wf(*old(self), op_id@, *self);
            }
        }
        Ok(())
    }

    /// Changes the description of an operation that is neither executed nor cancelled.
    ///
    /// # Errors
    /// * [`TimelockError::NotInitialized`] if there is no admin.
    /// * [`TimelockError::Unauthorized`] if the caller is not the admin.
    /// * [`TimelockError::NotFound`] if there is no such operation.
    /// * [`TimelockError::AlreadyExecuted`] if it is executed.
    /// * [`TimelockError::Cancelled`] if it is cancelled.
    pub fn update_description(
        &mut self,
        caller: &Address,
        op_id: OpId,
        new_description: String,
    ) -> (r: Result<(), TimelockError>)
        ensures
            r == (match old(self).admin_fault(*caller) {
                Some(e) => Err(e),
                None => if !old(self).ops@.contains_key(op_id@) {
                    Err(TimelockError::NotFound)
                } else if old(self).ops@[op_id@].executed {
                    Err(TimelockError::AlreadyExecuted)
                } else if old(self).ops@[op_id@].cancelled {
                    Err(TimelockError::Cancelled)
                } else {
                    Ok(())
                },
            }),
            r is Err ==> *final(self) == *old(self),
            r is Ok ==> {
                &&& *final(self) == (RouterTimelock {
                    ops: final(self).ops,
                    events: final(self).events,
                    ..*old(self)
                })
                &&& final(self).ops@ == old(self).ops@.insert(
                    op_id@,
                    Op { description: new_description, ..old(self).ops@[op_id@] },
                )
                &&& final(self).events@ == old(self).events@.push(
                    TimelockEvent::OpDescriptionUpdated { op_id, description: new_description },
                )
            },
            forall|id: Seq<char>| #[trigger] old(self).keeps_finished(id, *final(self)),
            old(self).wf() ==> final(self).wf(),
    {
        match self.require_admin(caller) {
            Err(e) => {
                return Err(e);
            },
            Ok(()) => {},
        }
        let mut op: Op = match self.ops.get(&op_id) {
            Some(op) => op.clone(),
            None => {
                return Err(TimelockError::NotFound);
            },
        };
        if op.executed {
            return Err(TimelockError::AlreadyExecuted);
        }
        if op.cancelled {
            return Err(TimelockError::Cancelled);
        }
        op.description = new_description.clone();
        self.ops.insert(op_id.clone(), op);
        self.events.push(
            TimelockEvent::OpDescriptionUpdated { op_id, description: new_description },
        );
        proof {
            if old(self).wf() {
                lemma_fewer_open(*old(self), *self);
            }
        }
        Ok(())
    }

    /// Sets the minimum delay of operations that are queued from now on.
    ///
    /// # Errors
    /// * [`TimelockError::NotInitialized`] if there is no admin.
    /// * [`TimelockError::Unauthorized`] if the caller is not the admin.
    pub fn set_min_delay(&mut self, caller: &Address, new_min_delay: u64) -> (r: Result<
        (),
        TimelockError,
    >)
        ensures
            r == (match old(self).admin_fault(*caller) {
                Some(e) => Err(e),
                None => Ok(()),
            }),
            r is Err ==> *final(self) == *old(self),
            r is Ok ==> *final(self) == (RouterTimelock {
                min_delay: new_min_delay,
                events: final(self).events,
                ..*old(self)
            }) && final(self).events@ == old(self).events@.push(
                TimelockEvent::MinDelayUpdated {
                    old_min_delay: old(self).min_delay,
                    new_min_delay,
                },
            ),
            forall|id: Seq<char>| #[trigger] old(self).keeps_finished(id, *final(self)),
            old(self).wf() ==> final(self).wf(),
    {
        match self.require_admin(caller) {
            Err(e) => {
                return Err(e);
            },
            Ok(()) => {},
        }
        let old_min_delay: u64 = self.min_delay;
        self.min_delay = new_min_delay;
        self.events.push(TimelockEvent::MinDelayUpdated { old_min_delay, new_min_delay });
        proof {
            if old(self).wf() {
                lemma_fewer_open(*old(self), *self);
            }
        }
        Ok(())
    }

    /// Hands the timelock over to a new admin.
    ///
    /// # Errors
    /// * [`TimelockError::NotInitialized`] if there is no admin.
    /// * [`TimelockError::Unauthorized`] if `current` is not the admin.
    pub fn transfer_admin(&mut self, current: Address, new_admin: Address) -> (r: Result<
        (),
        TimelockError,
    >)
        ensures
            r == (match old(self).admin_fault(current) {
                Some(e) => Err(e),
                None => Ok(()),
            }),
            r is Err ==> *final(self) == *old(self),
            r is Ok ==> *final(self) == (RouterTimelock {
                admin: Some(new_admin),
                events: final(self).events,
                ..*old(self)
            }) && final(self).events@ == old(self).events@.push(
                TimelockEvent::AdminTransferred { old_admin: current, new_admin },
            ),
            forall|id: Seq<char>| #[trigger] old(self).keeps_finished(id, *final(self)),
            old(self).wf() ==> final(self).wf(),
    {
        match self.require_admin(&current) {
            Err(e) => {
                return Err(e);
            },
            Ok(()) => {},
        }
        self.admin = Some(new_admin.clone());
        self.events.push(TimelockEvent::AdminTransferred { old_admin: current, new_admin });
        proof {
            if old(self).wf() {
                lemma_fewer_open(*old(self), *self);
            }
        }
        Ok(())
    }
}

/// Queueing an operation keeps what holds of the timelock.
proof fn lemma_queued_wf(before: RouterTimelock, op_id: String, after: RouterTimelock)
    requires
        before.wf(),
        before.max_pending_ops > 0 ==> before.pending@.len() < before.max_pending_ops,
        after.admin is Some,
        after.max_pending_ops == before.max_pending_ops,
        after.ops@ == before.ops@.insert(op_id@, after.ops@[op_id@]),
        !after.ops@[op_id@].executed,
        !after.ops@[op_id@].cancelled,
        after.is_acyclic(),
        after.pending@ == if lists(before.pending@, op_id@) {
            before.pending@
        } else {
            before.pending@.push(op_id)
        },
    ensures
        after.wf(),
{
    assert forall|id: Seq<char>| #[trigger] lists(after.pending@, id) implies after.ops@.contains_key(
        id,
    ) && !after.ops@[id].executed && !after.ops@[id].cancelled by {
        lemma_lists_push(before.pending@, op_id, id);
        if id != op_id@ {
            assert(lists(before.pending@, id));
        }
    }
    assert forall|i: int, j: int| 0 <= i < j < after.pending@.len() implies (
    #[trigger] after.pending@[i])@ != (#[trigger] after.pending@[j])@ by {
        if j < before.pending@.len() {
            assert(before.pending@[i]@ != before.pending@[j]@);
        } else {
            assert(!lists(before.pending@, op_id@));
            assert(before.pending@[i]@ != op_id@);
        }
    }
}

/// Taking a finished operation off the queue keeps what holds of the timelock.
proof fn lemma_finished_wf(before: RouterTimelock, op_id: Seq<char>, after: RouterTimelock)
    requires
        before.wf(),
        after.admin == before.admin,
        after.max_pending_ops == before.max_pending_ops,
        after.ops@ == before.ops@.insert(op_id, after.ops@[op_id]),
        after.ops@[op_id].executed || after.ops@[op_id].cancelled,
        after.dependencies@ == before.dependencies@,
        after.pending@ == others(before.pending@, op_id),
    ensures
        after.wf(),
{
    lemma_fewer_open(before, after);
    lemma_others(before.pending@, op_id);
    lemma_others_distinct(before.pending@, op_id);
    assert forall|id: Seq<char>| #[trigger] lists(after.pending@, id) implies after.ops@.contains_key(
        id,
    ) && !after.ops@[id].executed && !after.ops@[id].cancelled by {
        assert(id != op_id);
        assert(lists(before.pending@, id));
    }
}

} // verus!
