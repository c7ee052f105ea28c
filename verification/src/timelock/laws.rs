//! What holds of the timelock as a whole.

use super::contract::{big_endian, is_expired};
use super::op_id::{id_of, sha256_of};
use super::queries::{counts_as, status_of};
use super::types::{Op, OpId, OperationStatus, RouterTimelock, TimelockError, TimelockEvent};
use crate::common::Address;
use crate::text::hex_of;
use vstd::prelude::*;

verus! {

/// An operation can be executed exactly while its status is ready: from its ETA to the end
/// of its grace period, both included.
pub proof fn ready_is_what_can_be_executed(timelock: RouterTimelock, op_id: Seq<char>, now: u64)
    requires
        timelock.ops@.contains_key(op_id),
    ensures
        timelock.execution_fault(op_id, now) is None <==> status_of(timelock.ops@[op_id], now)
            == OperationStatus::Ready,
        timelock.execution_fault(op_id, now) is None ==> timelock.ops@[op_id].eta <= now
            <= timelock.ops@[op_id].eta + timelock.ops@[op_id].grace_period_seconds,
{
}

/// What is executed or cancelled can be neither executed nor cancelled again, whatever is
/// done, unless an operation is queued afresh under its id: `states` are those that a
/// timelock goes through, and everything but that leaves what is finished as it is.
pub proof fn finished_stays_finished(
    states: Seq<RouterTimelock>,
    op_id: Seq<char>,
    now: u64,
    n: int,
)
    requires
        0 <= n < states.len(),
        states[0].is_finished(op_id),
        forall|i: int|
            0 <= i < states.len() - 1 ==> (#[trigger] states[i]).keeps_finished(
                op_id,
                states[i + 1],
            ),
    ensures
        states[n].is_finished(op_id),
        states[n].ops@[op_id] == states[0].ops@[op_id],
        states[n].execution_fault(op_id, now) is Some,
        states[n].pending_fault(op_id) is Some,
    decreases n,
{
    if n > 0 {
        finished_stays_finished(states, op_id, now, n - 1);
        assert(states[n - 1].keeps_finished(op_id, states[n]));
    }
}

/// Nothing can be executed before the minimum delay has passed that held when it was
/// queued.
pub proof fn minimum_delay_is_kept(
    before: RouterTimelock,
    proposer: Address,
    delay: u64,
    queued_at: u64,
    after: RouterTimelock,
    op_id: Seq<char>,
    now: u64,
)
    requires
        before.queue_fault(proposer, delay) is None,
        after.ops@.contains_key(op_id),
        after.ops@[op_id].eta == queued_at + delay,
        now < queued_at + before.min_delay,
    ensures
        after.execution_fault(op_id, now) is Some,
{
}

/// As time goes by an operation is first queued, then ready, then expired, and never goes
/// back.
pub proof fn status_moves_forward(op: Op, earlier: u64, later: u64)
    requires
        earlier <= later,
    ensures
        status_of(op, earlier) == OperationStatus::Expired ==> status_of(op, later)
            == OperationStatus::Expired,
        status_of(op, earlier) == OperationStatus::Ready ==> status_of(op, later)
            == OperationStatus::Ready || status_of(op, later) == OperationStatus::Expired,
        status_of(op, earlier) == OperationStatus::Executed ==> status_of(op, later)
            == OperationStatus::Executed,
        status_of(op, earlier) == OperationStatus::Cancelled ==> status_of(op, later)
            == OperationStatus::Cancelled,
{
}

/// An operation that is neither executed nor cancelled can be executed at every time from its
/// ETA to the end of its grace period, both included, and at no other: before, the answer is
/// that it is not ready, and after, that it has expired.
pub proof fn operations_run_through_their_whole_window(
    timelock: RouterTimelock,
    op_id: Seq<char>,
    now: u64,
)
    requires
        timelock.ops@.contains_key(op_id),
        !timelock.ops@[op_id].executed,
        !timelock.ops@[op_id].cancelled,
    ensures
        ({
            let (eta, grace) = (
                timelock.ops@[op_id].eta,
                timelock.ops@[op_id].grace_period_seconds,
            );
            &&& timelock.execution_fault(op_id, now) is None <==> eta <= now <= eta + grace
            &&& timelock.execution_fault(op_id, now) == Some(TimelockError::NotReady) <==> now < eta
            &&& timelock.execution_fault(op_id, now) == Some(TimelockError::Expired) <==> now > eta
                + grace
            &&& timelock.pending_fault(op_id) is None
        }),
{
}

/// What was never queued, is executed or is cancelled is answered so, at every time.
pub proof fn other_operations_never_run(timelock: RouterTimelock, op_id: Seq<char>, now: u64)
    ensures
        !timelock.ops@.contains_key(op_id) ==> timelock.execution_fault(op_id, now) == Some(
            TimelockError::NotFound,
        ) && timelock.pending_fault(op_id) == Some(TimelockError::NotFound),
        timelock.ops@.contains_key(op_id) && timelock.ops@[op_id].cancelled
            ==> timelock.execution_fault(op_id, now) == Some(TimelockError::Cancelled)
            && timelock.pending_fault(op_id) == Some(TimelockError::Cancelled),
        timelock.ops@.contains_key(op_id) && timelock.ops@[op_id].executed
            && !timelock.ops@[op_id].cancelled ==> timelock.execution_fault(op_id, now) == Some(
            TimelockError::AlreadyExecuted,
        ) && timelock.pending_fault(op_id) == Some(TimelockError::AlreadyExecuted),
{
}

/// The status of an operation that is neither executed nor cancelled is queued before its
/// ETA, ready up to the end of its grace period, and expired after it; once it is cancelled
/// or executed, its status says so.
pub proof fn status_tells_the_window(op: Op, now: u64)
    ensures
        op.cancelled <==> status_of(op, now) == OperationStatus::Cancelled,
        op.executed && !op.cancelled <==> status_of(op, now) == OperationStatus::Executed,
        !op.cancelled && !op.executed && now < op.eta <==> status_of(op, now)
            == OperationStatus::Queued,
        !op.cancelled && !op.executed && op.eta <= now <= op.eta + op.grace_period_seconds
            <==> status_of(op, now) == OperationStatus::Ready,
        !op.cancelled && !op.executed && now > op.eta + op.grace_period_seconds <==> status_of(
            op,
            now,
        ) == OperationStatus::Expired,
        is_expired(op, now) <==> now > op.eta + op.grace_period_seconds,
{
}

/// What is queued can be executed from its ETA through its grace period, is listed as
/// pending, and is what was handed in; every other operation stays as it was.
pub proof fn queued_operation_can_be_executed(
    before: RouterTimelock,
    op_id: OpId,
    op: Op,
    deps: Vec<OpId>,
    after: RouterTimelock,
    now: u64,
    other: Seq<char>,
)
    requires
        before.is_queued(op_id, op, deps, after),
        !op.executed,
        !op.cancelled,
    ensures
        after.execution_fault(op_id@, now) is None <==> op.eta <= now <= op.eta
            + op.grace_period_seconds,
        after.ops@[op_id@] == op,
        after.dependencies@[op_id@] == deps,
        exists|i: int| 0 <= i < after.pending@.len() && (#[trigger] after.pending@[i])@ == op_id@,
        other != op_id@ ==> after.execution_fault(other, now) == before.execution_fault(other, now)
            && after.ops@.contains_key(other) == before.ops@.contains_key(other) && (
        before.ops@.contains_key(other) ==> after.ops@[other] == before.ops@[other]),
        after.events@ == before.events@.push(
            TimelockEvent::OpQueued {
                op_id,
                target: op.target,
                eta: op.eta,
                grace_period_seconds: op.grace_period_seconds,
            },
        ),
        after.min_delay == before.min_delay && after.admin == before.admin,
{
    if !crate::text::lists(before.pending@, op_id@) {
        assert(after.pending@[before.pending@.len() as int]@ == op_id@);
    }
}

/// Something can be queued exactly by the admin, with a delay that is no shorter than the
/// minimum, while there is room; otherwise the answer names the first of these that fails.
pub proof fn admin_queues_with_enough_delay(timelock: RouterTimelock, proposer: Address, delay: u64)
    ensures
        ({
            let full = timelock.max_pending_ops > 0 && timelock.pending@.len()
                >= timelock.max_pending_ops;
            &&& timelock.queue_fault(proposer, delay) is None <==> timelock.admin is Some
                && timelock.admin->0@ == proposer@ && timelock.min_delay <= delay && !full
            &&& timelock.admin is None <==> timelock.queue_fault(proposer, delay) == Some(
                TimelockError::NotInitialized,
            )
            &&& timelock.admin is Some && timelock.admin->0@ != proposer@ <==> timelock.queue_fault(
                proposer,
                delay,
            ) == Some(TimelockError::Unauthorized)
            &&& timelock.admin is Some && timelock.admin->0@ == proposer@ && delay
                < timelock.min_delay <==> timelock.queue_fault(proposer, delay) == Some(
                TimelockError::DelayTooShort,
            )
            &&& timelock.admin is Some && timelock.admin->0@ == proposer@ && delay
                >= timelock.min_delay && full <==> timelock.queue_fault(proposer, delay) == Some(
                TimelockError::QueueFull,
            )
        }),
{
}

/// Dividing by a power of 256 is dividing by 256 as often.
proof fn lemma_places(n: int)
    requires
        0 <= n < 0x1_0000_0000_0000_0000,
    ensures
        n / 0x1_0000 == n / 0x100 / 0x100,
        n / 0x100_0000 == n / 0x100 / 0x100 / 0x100,
        n / 0x1_0000_0000 == n / 0x100 / 0x100 / 0x100 / 0x100,
        n / 0x100_0000_0000 == n / 0x100 / 0x100 / 0x100 / 0x100 / 0x100,
        n / 0x1_0000_0000_0000 == n / 0x100 / 0x100 / 0x100 / 0x100 / 0x100 / 0x100,
        n / 0x100_0000_0000_0000 == n / 0x100 / 0x100 / 0x100 / 0x100 / 0x100 / 0x100 / 0x100,
{
    assert(n / 0x1_0000 == n / 0x100 / 0x100);
    assert(n / 0x100_0000 == n / 0x1_0000 / 0x100);
    assert(n / 0x1_0000_0000 == n / 0x100_0000 / 0x100);
    assert(n / 0x100_0000_0000 == n / 0x1_0000_0000 / 0x100);
    assert(n / 0x1_0000_0000_0000 == n / 0x100_0000_0000 / 0x100);
    assert(n / 0x100_0000_0000_0000 == n / 0x1_0000_0000_0000 / 0x100);
}

/// The eight bytes of a number count, from the last one on, one, 256, and so on, times 256
/// each.
pub proof fn big_endian_bytes_make_the_number(n: u64)
    ensures
        big_endian(n).len() == 8,
        ({
            let b = big_endian(n);
            b[7] + 0x100 * (b[6] + 0x100 * (b[5] + 0x100 * (b[4] + 0x100 * (b[3] + 0x100 * (b[2]
                + 0x100 * (b[1] + 0x100 * b[0])))))) == n
        }),
{
    let b = big_endian(n);
    let q1 = n as int / 0x100;
    let q2 = q1 / 0x100;
    let q3 = q2 / 0x100;
    let q4 = q3 / 0x100;
    let q5 = q4 / 0x100;
    let q6 = q5 / 0x100;
    let q7 = q6 / 0x100;
    lemma_places(n as int);
    assert(b[0] == q7 && b[1] + 0x100 * b[0] == q6);
    assert(b[2] + 0x100 * q6 == q5);
    assert(b[3] + 0x100 * q5 == q4);
    assert(b[4] + 0x100 * q4 == q3);
    assert(b[5] + 0x100 * q3 == q2);
    assert(b[6] + 0x100 * q2 == q1);
    assert(b[7] + 0x100 * q1 == n);
}

/// The id of an operation is the hash, as 64 hexadecimal digits in all, of its description, its
/// target and the eight bytes of its ETA, the highest first: another ETA makes other bytes.
pub proof fn ids_are_hashes_of_all_that_is_queued(
    description: Seq<u8>,
    target: Seq<u8>,
    eta: u64,
    b: Seq<u8>,
)
    requires
        b.len() == 8,
        b[7] + 0x100 * (b[6] + 0x100 * (b[5] + 0x100 * (b[4] + 0x100 * (b[3] + 0x100 * (b[2] + 0x100
            * (b[1] + 0x100 * b[0])))))) == eta,
    ensures
        id_of(description, target, eta) == hex_of(sha256_of(description + target + b)),
{
    let c = big_endian(eta);
    let q6 = b[1] + 0x100 * b[0];
    let q5 = b[2] + 0x100 * q6;
    let q4 = b[3] + 0x100 * q5;
    let q3 = b[4] + 0x100 * q4;
    let q2 = b[5] + 0x100 * q3;
    let q1 = b[6] + 0x100 * q2;
    assert(b[7] + 0x100 * q1 == eta);
    lemma_places(eta as int);
    assert(eta as int / 0x100 == q1 && c[7] == b[7]);
    assert(q1 / 0x100 == q2 && c[6] == b[6]);
    assert(q2 / 0x100 == q3 && c[5] == b[5]);
    assert(q3 / 0x100 == q4 && c[4] == b[4]);
    assert(q4 / 0x100 == q5 && c[3] == b[3]);
    assert(q5 / 0x100 == q6 && c[2] == b[2]);
    assert(q6 / 0x100 == b[0] && c[1] == b[1] && c[0] == b[0]);
    assert(c =~= b);
}

/// Operations that count as having a status: one that is cancelled or executed counts as
/// that, and one that is neither by the time.
pub proof fn operations_count_by_their_window(op: Op, now: u64)
    ensures
        counts_as(op, OperationStatus::Cancelled, now) == op.cancelled,
        counts_as(op, OperationStatus::Executed, now) == op.executed,
        counts_as(op, OperationStatus::Queued, now) == (!op.cancelled && !op.executed && now
            < op.eta),
        counts_as(op, OperationStatus::Ready, now) == (!op.cancelled && !op.executed && op.eta <= now
            <= op.eta + op.grace_period_seconds),
        counts_as(op, OperationStatus::Expired, now) == (!op.cancelled && !op.executed && now
            > op.eta + op.grace_period_seconds),
{
}

/// Whether an id stands for an operation that could still be executed, now or later.
pub open spec fn is_live(timelock: RouterTimelock, id: Seq<char>, now: u64) -> bool {
    &&& timelock.ops@.contains_key(id)
    &&& !timelock.ops@[id].executed
    &&& !timelock.ops@[id].cancelled
    &&& now <= timelock.ops@[id].eta + timelock.ops@[id].grace_period_seconds
}

/// The pending operations that are returned are, in order, those that could still be
/// executed, now or later.
pub proof fn pending_operations_are_the_live_ones(
    timelock: RouterTimelock,
    a: Seq<OpId>,
    b: Seq<OpId>,
    one: OpId,
    now: u64,
)
    ensures
        timelock.live_ops(a + b, now) == timelock.live_ops(a, now) + timelock.live_ops(b, now),
        timelock.live_ops(seq![one], now) == if is_live(timelock, one@, now) {
            seq![timelock.ops@[one@]]
        } else {
            Seq::<Op>::empty()
        },
        timelock.live_ops(seq![], now) == Seq::<Op>::empty(),
    decreases b.len(),
{
    let single = seq![one];
    assert(single.drop_last() =~= Seq::<OpId>::empty());
    assert(timelock.live_ops(single.drop_last(), now) =~= Seq::<Op>::empty());
    assert(timelock.live_ops(single, now) =~= if is_live(timelock, one@, now) {
        seq![timelock.ops@[one@]]
    } else {
        Seq::<Op>::empty()
    });
    if b.len() == 0 {
        assert(a + b =~= a);
        assert(timelock.live_ops(a, now) + timelock.live_ops(b, now) =~= timelock.live_ops(a, now));
    } else {
        pending_operations_are_the_live_ones(timelock, a, b.drop_last(), one, now);
        assert((a + b).drop_last() =~= a + b.drop_last());
        assert((a + b).last() == b.last());
        assert(timelock.live_ops(a + b, now) =~= timelock.live_ops(a, now) + timelock.live_ops(
            b,
            now,
        ));
    }
}

/// Counting goes one by one: every id that could not be executed any more counts as stale,
/// and every id whose operation has a status counts for it.
pub proof fn ids_are_counted_one_by_one(
    timelock: RouterTimelock,
    ids: Seq<OpId>,
    one: OpId,
    status: OperationStatus,
    now: u64,
)
    ensures
        timelock.stale_count(seq![], now) == 0,
        timelock.stale_count(ids.push(one), now) == timelock.stale_count(ids, now) + if is_live(
            timelock,
            one@,
            now,
        ) {
            0nat
        } else {
            1
        },
        timelock.status_count(seq![], status, now) == 0,
        timelock.status_count(ids.push(one), status, now) == timelock.status_count(ids, status, now)
            + if timelock.ops@.contains_key(one@) && counts_as(timelock.ops@[one@], status, now) {
            1nat
        } else {
            0
        },
{
    assert(ids.push(one).drop_last() =~= ids);
}

/// Cleaning up takes the first stale ids off the queue, no more than its limit, and nothing
/// else: what could still be executed stays, in order.
pub proof fn cleanup_takes_only_the_stale(
    timelock: RouterTimelock,
    ids: Seq<OpId>,
    one: OpId,
    now: u64,
    limit: u32,
)
    ensures
        timelock.swept(seq![], now, limit) == Seq::<OpId>::empty(),
        timelock.swept(ids.push(one), now, limit) == if !is_live(timelock, one@, now)
            && timelock.stale_count(ids, now) < limit {
            timelock.swept(ids, now, limit)
        } else {
            timelock.swept(ids, now, limit).push(one)
        },
        timelock.swept(ids, now, limit).len() + (if timelock.stale_count(ids, now) < limit {
            timelock.stale_count(ids, now)
        } else {
            limit as nat
        }) == ids.len(),
    decreases ids.len(),
{
    assert(ids.push(one).drop_last() =~= ids);
    if ids.len() > 0 {
        cleanup_takes_only_the_stale(timelock, ids.drop_last(), one, now, limit);
    }
}

/// An operation is finished exactly if it is there and was executed or cancelled; it is kept
/// exactly if it is there, unchanged, afterwards. Nobody but the admin passes, and nobody at all
/// before there is one.
pub proof fn finished_means_executed_or_cancelled(
    timelock: RouterTimelock,
    op_id: Seq<char>,
    after: RouterTimelock,
    caller: Address,
)
    ensures
        timelock.is_finished(op_id) <==> timelock.ops@.contains_key(op_id) && (
        timelock.ops@[op_id].executed || timelock.ops@[op_id].cancelled),
        timelock.is_finished(op_id) ==> (timelock.keeps_finished(op_id, after)
            <==> after.ops@.contains_key(op_id) && after.ops@[op_id] == timelock.ops@[op_id]),
        !timelock.is_finished(op_id) ==> timelock.keeps_finished(op_id, after),
        timelock.admin is None ==> timelock.admin_fault(caller) == Some(
            TimelockError::NotInitialized,
        ),
        timelock.admin is Some && timelock.admin->0@ != caller@ ==> timelock.admin_fault(caller)
            == Some(TimelockError::Unauthorized),
        timelock.admin is Some && timelock.admin->0@ == caller@ ==> timelock.admin_fault(
            caller,
        ) is None,
{
}

} // verus!
