//! What is pending, in which state, and what can be swept away.

use super::chains::lemma_fewer_open;
use super::contract::{is_expired, op_expired};
use super::types::{Op, OpId, OperationStatus, RouterTimelock, TimelockError, TimelockEvent};
use crate::common::Address;
use crate::text::{lemma_lists_push, lists};
use vstd::prelude::*;

verus! {

/// The status of an operation.
pub open spec fn status_of(op: Op, now: u64) -> OperationStatus {
    if op.cancelled {
        OperationStatus::Cancelled
    } else if op.executed {
        OperationStatus::Executed
    } else if is_expired(op, now) {
        OperationStatus::Expired
    } else if now >= op.eta {
        OperationStatus::Ready
    } else {
        OperationStatus::Queued
    }
}

/// Whether an operation counts as having a status.
pub open spec fn counts_as(op: Op, status: OperationStatus, now: u64) -> bool {
    match status {
        OperationStatus::Cancelled => op.cancelled,
        OperationStatus::Executed => op.executed,
        _ => status_of(op, now) == status,
    }
}

fn op_counts_as(op: &Op, status: OperationStatus, now: u64) -> (r: bool)
    ensures
        r == counts_as(*op, status, now),
{
    match status {
        OperationStatus::Cancelled => op.cancelled,
        OperationStatus::Executed => op.executed,
        OperationStatus::Expired => !op.executed && !op.cancelled && op_expired(op, now),
        OperationStatus::Ready => !op.executed && !op.cancelled && now >= op.eta && !op_expired(
            op,
            now,
        ),
        OperationStatus::Queued => !op.executed && !op.cancelled && now < op.eta,
    }
}

impl RouterTimelock {
    /// Whether an id on the queue stands for nothing that could still be executed.
    pub open spec fn is_stale(self, id: Seq<char>, now: u64) -> bool {
        !self.ops@.contains_key(id) || is_expired(self.ops@[id], now) || self.ops@[id].executed
            || self.ops@[id].cancelled
    }

    /// How many of the ids are stale.
    pub open spec fn stale_count(self, ids: Seq<OpId>, now: u64) -> nat
        decreases ids.len(),
    {
        if ids.len() == 0 {
            0
        } else {
            self.stale_count(ids.drop_last(), now) + if self.is_stale(ids.last()@, now) {
                1nat
            } else {
                0
            }
        }
    }

    /// The ids without the first `limit` stale ones.
    pub open spec fn swept(self, ids: Seq<OpId>, now: u64, limit: u32) -> Seq<OpId>
        decreases ids.len(),
    {
        if ids.len() == 0 {
            seq![]
        } else if self.is_stale(ids.last()@, now) && self.stale_count(ids.drop_last(), now)
            < limit {
            self.swept(ids.drop_last(), now, limit)
        } else {
            self.swept(ids.drop_last(), now, limit).push(ids.last())
        }
    }

    /// Takes up to `limit` operations off the queue that are expired or finished, and
    /// returns how many. Anybody may do that.
    pub fn cleanup_expired(&mut self, limit: u32, now: u64) -> (r: Result<u32, TimelockError>)
        ensures
            ({
                let stale = old(self).stale_count(old(self).pending@, now);
                r == Ok::<u32, TimelockError>(
                    if stale < limit {
                        stale as u32
                    } else {
                        limit
                    },
                )
            }),
            r == Ok::<u32, TimelockError>(0) ==> *final(self) == *old(self),
            r matches Ok(count) && count > 0 ==> *final(self) == (RouterTimelock {
                pending: final(self).pending,
                events: final(self).events,
                ..*old(self)
            }) && final(self).events@ == old(self).events@.push(
                TimelockEvent::OpsCleaned { count: r->Ok_0 },
            ),
            final(self).pending@ == old(self).swept(old(self).pending@, now, limit),
            forall|id: Seq<char>| #[trigger] old(self).keeps_finished(id, *final(self)),
            old(self).wf() ==> final(self).wf(),
    {
        let mut cleaned_count: u32 = 0;
        let mut kept: Vec<OpId> = Vec::new();
        let mut i: usize = 0;
        while i < self.pending.len()
            invariant
                i <= self.pending@.len(),
                *self == *old(self),
                cleaned_count <= limit,
                ({
                    let stale = self.stale_count(self.pending@.take(i as int), now);
                    cleaned_count == if stale < limit {
                        stale as int
                    } else {
                        limit as int
                    }
                }),
                kept@ == self.swept(self.pending@.take(i as int), now, limit),
            decreases self.pending@.len() - i,
        {
            let ghost before = self.pending@.take(i as int);
            proof {
                assert(self.pending@.take(i + 1).drop_last() =~= before);
            }
            let id: OpId = self.pending[i].clone();
            let stale: bool = match self.ops.get(&id) {
                Some(op) => op_expired(op, now) || op.executed || op.cancelled,
                None => true,
            };
            if cleaned_count < limit && stale {
                cleaned_count = cleaned_count + 1;
            } else {
                kept.push(id);
            }
            i = i + 1;
        }
        proof {
            assert(self.pending@.take(i as int) =~= self.pending@);
            self.lemma_swept(self.pending@, now, limit);
        }
        if cleaned_count > 0 {
            self.pending = kept;
            self.events.push(TimelockEvent::OpsCleaned { count: cleaned_count });
            proof {
                if old(self).wf() {
                    lemma_fewer_open(*old(self), *self);
                }
            }
        }
        Ok(cleaned_count)
    }

    /// Sweeping takes nothing but stale ids, and nothing at all where it counts none.
    proof fn lemma_swept(self, ids: Seq<OpId>, now: u64, limit: u32)
        ensures
            forall|id: Seq<char>| #[trigger] lists(self.swept(ids, now, limit), id) ==> lists(ids, id),
            (forall|i: int, j: int|
                0 <= i < j < ids.len() ==> (#[trigger] ids[i])@ != (#[trigger] ids[j])@) ==> forall|
                i: int,
                j: int,
            |
                0 <= i < j < self.swept(ids, now, limit).len() ==> (
                #[trigger] self.swept(ids, now, limit)[i])@ != (
                #[trigger] self.swept(ids, now, limit)[j])@,
            self.swept(ids, now, limit).len() <= ids.len(),
            self.stale_count(ids, now) == 0 || limit == 0 ==> self.swept(ids, now, limit) == ids,
        decreases ids.len(),
    {
        if ids.len() > 0 {
            let rest = ids.drop_last();
            let last = ids[ids.len() - 1];
            let so_far = self.swept(rest, now, limit);
            let all = self.swept(ids, now, limit);
            self.lemma_swept(rest, now, limit);
            assert(rest.push(last) =~= ids);
            assert forall|id: Seq<char>| #[trigger] lists(all, id) implies lists(ids, id) by {
                lemma_lists_push(rest, last, id);
                lemma_lists_push(so_far, last, id);
                assert(lists(so_far, id) ==> lists(rest, id));
            }
            if forall|i: int, j: int|
                0 <= i < j < ids.len() ==> (#[trigger] ids[i])@ != (#[trigger] ids[j])@ {
                assert forall|i: int, j: int| 0 <= i < j < rest.len() implies (
                #[trigger] rest[i])@ != (#[trigger] rest[j])@ by {
                    assert(ids[i]@ != ids[j]@);
                }
                assert(!lists(rest, last@)) by {
                    if lists(rest, last@) {
                        let k = choose|k: int| 0 <= k < rest.len() && (#[trigger] rest[k])@ == last@;
                        assert(ids[k]@ != ids[ids.len() - 1]@);
                    }
                }
                assert(!lists(so_far, last@));
                assert forall|i: int, j: int| 0 <= i < j < all.len() implies (#[trigger] all[i])@
                    != (#[trigger] all[j])@ by {
                    if j < so_far.len() {
                        assert(so_far[i]@ != so_far[j]@);
                    } else {
                        assert(so_far[i]@ != last@);
                    }
                }
            }
        }
    }

    /// An operation by its id.
    pub fn get_op(&self, op_id: &OpId) -> (r: Option<Op>)
        ensures
            r == (if self.ops@.contains_key(op_id@) {
                Some(self.ops@[op_id@])
            } else {
                None
            }),
    {
        match self.ops.get(op_id) {
            Some(op) => Some(op.clone()),
            None => None,
        }
    }

    /// The status of an operation, or `None` if there is no such operation.
    pub fn get_operation_status(&self, op_id: &OpId, now: u64) -> (r: Option<OperationStatus>)
        ensures
            r == (if self.ops@.contains_key(op_id@) {
                Some(status_of(self.ops@[op_id@], now))
            } else {
                None
            }),
    {
        let op: &Op = match self.ops.get(op_id) {
            Some(op) => op,
            None => {
                return None;
            },
        };
        let status: OperationStatus = if op.cancelled {
            OperationStatus::Cancelled
        } else if op.executed {
            OperationStatus::Executed
        } else if op_expired(op, now) {
            OperationStatus::Expired
        } else if now >= op.eta {
            OperationStatus::Ready
        } else {
            OperationStatus::Queued
        };
        Some(status)
    }

    /// The operations of those of the ids that are not stale.
    pub open spec fn live_ops(self, ids: Seq<OpId>, now: u64) -> Seq<Op>
        decreases ids.len(),
    {
        if ids.len() == 0 {
            seq![]
        } else if self.is_stale(ids.last()@, now) {
            self.live_ops(ids.drop_last(), now)
        } else {
            self.live_ops(ids.drop_last(), now).push(self.ops@[ids.last()@])
        }
    }

    /// The operations that are neither executed, cancelled nor expired, in the order of
    /// queueing.
    pub fn get_pending_operations(&self, now: u64) -> (r: Vec<Op>)
        ensures
            r@ == self.live_ops(self.pending@, now),
    {
        let mut result: Vec<Op> = Vec::new();
        let mut i: usize = 0;
        while i < self.pending.len()
            invariant
                i <= self.pending@.len(),
                result@ == self.live_ops(self.pending@.take(i as int), now),
            decreases self.pending@.len() - i,
        {
            proof {
                assert(self.pending@.take(i + 1).drop_last() =~= self.pending@.take(i as int));
            }
            match self.ops.get(&self.pending[i]) {
                Some(op) => {
                    if !op.executed && !op.cancelled && !op_expired(op, now) {
                        result.push(op.clone());
                    }
                },
                None => {},
            }
            i = i + 1;
        }
        proof {
            assert(self.pending@.take(i as int) =~= self.pending@);
        }
        result
    }

    /// How many of the ids stand for an operation that counts as having a status.
    pub open spec fn status_count(self, ids: Seq<OpId>, status: OperationStatus, now: u64) -> nat
        decreases ids.len(),
    {
        if ids.len() == 0 {
            0
        } else {
            self.status_count(ids.drop_last(), status, now) + if self.ops@.contains_key(
                ids.last()@,
            ) && counts_as(self.ops@[ids.last()@], status, now) {
                1nat
            } else {
                0
            }
        }
    }

    /// How many operations on the queue have a status. Executed and cancelled operations
    /// are not on the queue.
    pub fn get_operation_count_by_status(&self, status: OperationStatus, now: u64) -> (r: u32)
        requires
            self.pending.len() <= u32::MAX,
        ensures
            r == self.status_count(self.pending@, status, now),
    {
        let mut count: u32 = 0;
        let mut i: usize = 0;
        while i < self.pending.len()
            invariant
                i <= self.pending@.len(),
                self.pending.len() <= u32::MAX,
                count <= i,
                count == self.status_count(self.pending@.take(i as int), status, now),
            decreases self.pending@.len() - i,
        {
            proof {
                assert(self.pending@.take(i + 1).drop_last() =~= self.pending@.take(i as int));
            }
            match self.ops.get(&self.pending[i]) {
                Some(op) => {
                    if op_counts_as(op, status, now) {
                        count = count + 1;
                    }
                },
                None => {},
            }
            i = i + 1;
        }
        proof {
            assert(self.pending@.take(i as int) =~= self.pending@);
        }
        count
    }

    /// The minimum delay of a new operation, in seconds.
    pub fn min_delay(&self) -> (r: u64)
        ensures
            r == self.min_delay,
    {
        self.min_delay
    }

    /// The current admin.
    ///
    /// # Errors
    /// * [`TimelockError::NotInitialized`] if there is none.
    pub fn admin(&self) -> (r: Result<Address, TimelockError>)
        ensures
            r == (match self.admin {
                Some(admin) => Ok(admin),
                None => Err(TimelockError::NotInitialized),
            }),
    {
        match &self.admin {
            Some(admin) => Ok(admin.clone()),
            None => Err(TimelockError::NotInitialized),
        }
    }
}

} // verus!
