use stellar_router::common::Address;
use stellar_router::timelock::contract::op_preimage;
use stellar_router::timelock::op_id::MAX_HASHED_BYTES;
use stellar_router::timelock::types::{
    Op, OpId, OperationStatus, RouterTimelock, TimelockError, TimelockEvent,
};

/// Default grace period used in most tests: 24 hours.
const GRACE: u64 = 86_400;

/// A timelock, the time of its ledger and the addresses handed out so far.
struct Client {
    timelock: RouterTimelock,
    now: u64,
    addresses: u32,
}

fn text(s: &str) -> String {
    s.to_string()
}

fn setup_with(min_delay: u64, max_pending_ops: u32) -> (Address, Client) {
    let mut client = Client { timelock: RouterTimelock::new(), now: 0, addresses: 0 };
    let admin = client.generate();
    client.timelock.initialize(admin.clone(), min_delay, max_pending_ops).unwrap();
    (admin, client)
}

fn setup() -> (Address, Client) {
    setup_with(3600, 1000)
}

impl Client {
    fn generate(&mut self) -> Address {
        self.addresses += 1;
        format!("address-{}", self.addresses)
    }

    fn last_event(&self) -> &TimelockEvent {
        self.timelock.events.last().unwrap()
    }

    fn try_queue(
        &mut self,
        proposer: &Address,
        description: &String,
        target: &Address,
        delay: &u64,
        grace: &u64,
        deps: &Vec<OpId>,
    ) -> Result<OpId, TimelockError> {
        let now = self.now;
        self.timelock.queue_operation(
            proposer.clone(),
            description.clone(),
            &description.as_bytes().to_vec(),
            target.clone(),
            &target.as_bytes().to_vec(),
            *delay,
            *grace,
            deps.clone(),
            now,
        )
    }

    fn queue(
        &mut self,
        proposer: &Address,
        description: &String,
        target: &Address,
        delay: &u64,
        grace: &u64,
        deps: &Vec<OpId>,
    ) -> OpId {
        self.try_queue(proposer, description, target, delay, grace, deps).unwrap()
    }

    fn cancel(&mut self, caller: &Address, op_id: &OpId) {
        self.timelock.cancel(caller, op_id.clone()).unwrap()
    }

    fn try_execute(&mut self, caller: &Address, op_id: &OpId) -> Result<(), TimelockError> {
        let now = self.now;
        self.timelock.execute(caller, op_id.clone(), now)
    }

    fn execute(&mut self, caller: &Address, op_id: &OpId) {
        self.try_execute(caller, op_id).unwrap()
    }

    fn try_update_description(
        &mut self,
        caller: &Address,
        op_id: &OpId,
        description: &String,
    ) -> Result<(), TimelockError> {
        self.timelock.update_description(caller, op_id.clone(), description.clone())
    }

    fn update_description(&mut self, caller: &Address, op_id: &OpId, description: &String) {
        self.try_update_description(caller, op_id, description).unwrap()
    }

    fn cleanup_expired(&mut self, _caller: &Address, limit: &u32) -> u32 {
        let now = self.now;
        self.timelock.cleanup_expired(*limit, now).unwrap()
    }

    fn get_op(&self, op_id: &OpId) -> Option<Op> {
        self.timelock.get_op(op_id)
    }

    fn get_operation_status(&self, op_id: &OpId) -> Option<OperationStatus> {
        self.timelock.get_operation_status(op_id, self.now)
    }

    fn get_pending_operations(&self) -> Vec<Op> {
        self.timelock.get_pending_operations(self.now)
    }

    fn get_operation_count_by_status(&self, status: &OperationStatus) -> u32 {
        self.timelock.get_operation_count_by_status(*status, self.now)
    }

    fn min_delay(&self) -> u64 {
        self.timelock.min_delay()
    }

    fn try_set_min_delay(&mut self, caller: &Address, delay: &u64) -> Result<(), TimelockError> {
        self.timelock.set_min_delay(caller, *delay)
    }

    fn set_min_delay(&mut self, caller: &Address, delay: &u64) {
        self.try_set_min_delay(caller, delay).unwrap()
    }

    fn admin(&self) -> Address {
        self.timelock.admin().unwrap()
    }

    fn transfer_admin(&mut self, current: &Address, new_admin: &Address) {
        self.timelock.transfer_admin(current.clone(), new_admin.clone()).unwrap()
    }
}

#[test]
fn test_queue_returns_op_id() {
    let (admin, mut client) = setup();
    let target = client.generate();
    let desc = text("upgrade oracle");
    let deps: Vec<OpId> = Vec::new();
    let op_id = client.queue(&admin, &desc, &target, &3600, &GRACE, &deps);
    assert!(!op_id.is_empty());
}

#[test]
fn test_queue_stores_op() {
    let (admin, mut client) = setup();
    let target = client.generate();
    let desc = text("upgrade oracle");
    let deps: Vec<OpId> = Vec::new();

    let op_id = client.queue(&admin, &desc, &target, &3600, &GRACE, &deps);
    let op = client.get_op(&op_id).unwrap();

    assert_eq!(op.target, target);
    assert_eq!(op.grace_period_seconds, GRACE);
    assert!(!op.executed);
    assert!(!op.cancelled);
}

#[test]
fn test_queue_stores_grace_period() {
    let (admin, mut client) = setup();
    let target = client.generate();
    let desc = text("check grace stored");
    let deps: Vec<OpId> = Vec::new();
    let custom_grace: u64 = 7200;

    let op_id = client.queue(&admin, &desc, &target, &3600, &custom_grace, &deps);
    let op = client.get_op(&op_id).unwrap();

    assert_eq!(op.grace_period_seconds, custom_grace);
}

#[test]
fn test_execute_before_eta_fails() {
    let (admin, mut client) = setup();
    let target = client.generate();
    let desc = text("upgrade oracle");
    let deps: Vec<OpId> = Vec::new();

    let op_id = client.queue(&admin, &desc, &target, &3600, &GRACE, &deps);
    let result = client.try_execute(&admin, &op_id);
    assert_eq!(result, Err(TimelockError::NotReady));
}

#[test]
fn test_execute_after_eta_succeeds() {
    let (admin, mut client) = setup();
    let target = client.generate();
    let desc = text("upgrade oracle");
    let deps: Vec<OpId> = Vec::new();

    let op_id = client.queue(&admin, &desc, &target, &3600, &GRACE, &deps);
    client.now += 3601;
    client.execute(&admin, &op_id);

    let op = client.get_op(&op_id).unwrap();
    assert!(op.executed);
}

#[test]
fn test_execute_after_grace_period_fails() {
    let (admin, mut client) = setup();
    let target = client.generate();
    let desc = text("upgrade oracle");
    let deps: Vec<OpId> = Vec::new();
    let grace: u64 = 3600; // 1-hour grace window

    let op_id = client.queue(&admin, &desc, &target, &3600, &grace, &deps);
    // Jump past eta + grace_period_seconds
    client.now += 3600 + grace + 1;
    let result = client.try_execute(&admin, &op_id);
    assert_eq!(result, Err(TimelockError::Expired));
}

#[test]
fn test_execute_at_grace_period_boundary_succeeds() {
    // Execution exactly at eta + grace_period_seconds is still valid (inclusive boundary).
    let (admin, mut client) = setup();
    let target = client.generate();
    let desc = text("boundary test");
    let deps: Vec<OpId> = Vec::new();
    let grace: u64 = 3600;

    let op_id = client.queue(&admin, &desc, &target, &3600, &grace, &deps);
    // Jump to exactly eta + grace_period_seconds
    client.now += 3600 + grace;
    client.execute(&admin, &op_id);

    let op = client.get_op(&op_id).unwrap();
    assert!(op.executed);
}

#[test]
fn test_execute_cancelled_op_fails() {
    let (admin, mut client) = setup();
    let target = client.generate();
    let desc = text("upgrade oracle");
    let deps: Vec<OpId> = Vec::new();

    let op_id = client.queue(&admin, &desc, &target, &3600, &GRACE, &deps);
    client.cancel(&admin, &op_id);
    client.now += 3601;
    let result = client.try_execute(&admin, &op_id);
    assert_eq!(result, Err(TimelockError::Cancelled));
}

#[test]
fn test_execute_twice_fails() {
    let (admin, mut client) = setup();
    let target = client.generate();
    let desc = text("upgrade oracle");
    let deps: Vec<OpId> = Vec::new();

    let op_id = client.queue(&admin, &desc, &target, &3600, &GRACE, &deps);
    client.now += 3601;
    client.execute(&admin, &op_id);
    let result = client.try_execute(&admin, &op_id);
    assert_eq!(result, Err(TimelockError::AlreadyExecuted));
}

#[test]
fn test_cancel_op() {
    let (admin, mut client) = setup();
    let target = client.generate();
    let desc = text("upgrade oracle");
    let deps: Vec<OpId> = Vec::new();

    let op_id = client.queue(&admin, &desc, &target, &3600, &GRACE, &deps);
    client.cancel(&admin, &op_id);

    let op = client.get_op(&op_id).unwrap();
    assert!(op.cancelled);
}

#[test]
fn test_delay_too_short_fails() {
    let (admin, mut client) = setup();
    let target = client.generate();
    let desc = text("upgrade oracle");
    let deps: Vec<OpId> = Vec::new();
    // min_delay is 3600, passing 100 should fail
    let result = client.try_queue(&admin, &desc, &target, &100, &GRACE, &deps);
    assert_eq!(result, Err(TimelockError::DelayTooShort));
}

#[test]
fn test_unauthorized_queue_fails() {
    let (_admin, mut client) = setup();
    let attacker = client.generate();
    let target = client.generate();
    let desc = text("upgrade oracle");
    let deps: Vec<OpId> = Vec::new();
    let result = client.try_queue(&attacker, &desc, &target, &3600, &GRACE, &deps);
    assert_eq!(result, Err(TimelockError::Unauthorized));
}

#[test]
fn test_get_operation_status_queued() {
    let (admin, mut client) = setup();
    let target = client.generate();
    let desc = text("upgrade oracle");
    let deps: Vec<OpId> = Vec::new();
    let op_id = client.queue(&admin, &desc, &target, &3600, &GRACE, &deps);
    assert_eq!(
        client.get_operation_status(&op_id),
        Some(OperationStatus::Queued)
    );
}

#[test]
fn test_get_operation_status_ready() {
    let (admin, mut client) = setup();
    let target = client.generate();
    let desc = text("upgrade oracle");
    let deps: Vec<OpId> = Vec::new();
    let op_id = client.queue(&admin, &desc, &target, &3600, &GRACE, &deps);
    // Past ETA but still within grace period
    client.now += 3601;
    assert_eq!(
        client.get_operation_status(&op_id),
        Some(OperationStatus::Ready)
    );
}

#[test]
fn test_get_operation_status_executed() {
    let (admin, mut client) = setup();
    let target = client.generate();
    let desc = text("upgrade oracle");
    let deps: Vec<OpId> = Vec::new();
    let op_id = client.queue(&admin, &desc, &target, &3600, &GRACE, &deps);
    client.now += 3601;
    client.execute(&admin, &op_id);
    assert_eq!(
        client.get_operation_status(&op_id),
        Some(OperationStatus::Executed)
    );
}

#[test]
fn test_get_operation_status_cancelled() {
    let (admin, mut client) = setup();
    let target = client.generate();
    let desc = text("upgrade oracle");
    let deps: Vec<OpId> = Vec::new();
    let op_id = client.queue(&admin, &desc, &target, &3600, &GRACE, &deps);
    client.cancel(&admin, &op_id);
    assert_eq!(
        client.get_operation_status(&op_id),
        Some(OperationStatus::Cancelled)
    );
}

#[test]
fn test_get_operation_status_expired() {
    let (admin, mut client) = setup();
    let target = client.generate();
    let desc = text("upgrade oracle");
    let deps: Vec<OpId> = Vec::new();
    let grace: u64 = 3600;

    let op_id = client.queue(&admin, &desc, &target, &3600, &grace, &deps);
    // Jump past eta + grace_period_seconds
    client.now += 3600 + grace + 1;
    assert_eq!(
        client.get_operation_status(&op_id),
        Some(OperationStatus::Expired)
    );
}

#[test]
fn test_get_operation_status_nonexistent_returns_none() {
    let (_admin, client) = setup();
    let fake_id = "00".repeat(32);
    assert_eq!(client.get_operation_status(&fake_id), None);
}

#[test]
fn test_update_description_succeeds() {
    let (admin, mut client) = setup();
    let target = client.generate();
    let deps: Vec<OpId> = Vec::new();

    let op_id = client.queue(
        &admin,
        &text("initial desc"),
        &target,
        &3600,
        &GRACE,
        &deps,
    );
    let new_desc = text("corrected desc");
    client.update_description(&admin, &op_id, &new_desc);

    let op = client.get_op(&op_id).unwrap();
    assert_eq!(op.description, new_desc);
}

#[test]
fn test_update_description_on_executed_op_fails() {
    let (admin, mut client) = setup();
    let target = client.generate();
    let deps: Vec<OpId> = Vec::new();

    let op_id = client.queue(
        &admin,
        &text("initial desc"),
        &target,
        &3600,
        &GRACE,
        &deps,
    );
    client.now += 3601;
    client.execute(&admin, &op_id);

    let result =
        client.try_update_description(&admin, &op_id, &text("too late"));
    assert_eq!(result, Err(TimelockError::AlreadyExecuted));
}

#[test]
fn test_update_description_on_cancelled_op_fails() {
    let (admin, mut client) = setup();
    let target = client.generate();
    let deps: Vec<OpId> = Vec::new();

    let op_id = client.queue(
        &admin,
        &text("initial desc"),
        &target,
        &3600,
        &GRACE,
        &deps,
    );
    client.cancel(&admin, &op_id);

    let result =
        client.try_update_description(&admin, &op_id, &text("too late"));
    assert_eq!(result, Err(TimelockError::Cancelled));
}

#[test]
fn test_update_description_nonexistent_op_fails() {
    let (admin, mut client) = setup();
    let fake_id = "00".repeat(32);

    let result =
        client.try_update_description(&admin, &fake_id, &text("ghost op"));
    assert_eq!(result, Err(TimelockError::NotFound));
}

#[test]
fn test_update_description_unauthorized_fails() {
    let (admin, mut client) = setup();
    let attacker = client.generate();
    let target = client.generate();
    let deps: Vec<OpId> = Vec::new();

    let op_id = client.queue(
        &admin,
        &text("initial desc"),
        &target,
        &3600,
        &GRACE,
        &deps,
    );

    let result =
        client.try_update_description(&attacker, &op_id, &text("hacked"));
    assert_eq!(result, Err(TimelockError::Unauthorized));
}

#[test]
fn test_update_description_ready_op_succeeds() {
    // An op that is past its ETA but not yet executed is still pending — update should work.
    let (admin, mut client) = setup();
    let target = client.generate();
    let deps: Vec<OpId> = Vec::new();

    let op_id = client.queue(
        &admin,
        &text("initial desc"),
        &target,
        &3600,
        &GRACE,
        &deps,
    );
    client.now += 3601;

    let new_desc = text("clarified before execution");
    client.update_description(&admin, &op_id, &new_desc);

    let op = client.get_op(&op_id).unwrap();
    assert_eq!(op.description, new_desc);
}

#[test]
fn timelock_test_transfer_admin() {
    let (admin, mut client) = setup();
    let new_admin = client.generate();
    client.transfer_admin(&admin, &new_admin);
    assert_eq!(client.admin(), new_admin);
}

#[test]
fn test_transfer_admin_old_admin_locked_out() {
    let (admin, mut client) = setup();
    let new_admin = client.generate();
    client.transfer_admin(&admin, &new_admin);
    // old admin can no longer call privileged functions
    let target = client.generate();
    let desc = text("locked out test");
    let deps: Vec<OpId> = Vec::new();
    assert_eq!(
        client.try_queue(&admin, &desc, &target, &3600, &GRACE, &deps),
        Err(TimelockError::Unauthorized)
    );
}

#[test]
fn test_set_min_delay_updates_value() {
    let (admin, mut client) = setup();
    client.set_min_delay(&admin, &7200);
    assert_eq!(client.min_delay(), 7200);
}

#[test]
fn test_set_min_delay_unauthorized_fails() {
    let (_admin, mut client) = setup();
    let attacker = client.generate();
    let result = client.try_set_min_delay(&attacker, &7200);
    assert_eq!(result, Err(TimelockError::Unauthorized));
}

#[test]
fn test_set_min_delay_does_not_affect_already_queued_ops() {
    // Operations queued before a min_delay change keep the eta computed
    // from the delay that was in effect at queue time.
    let (admin, mut client) = setup();
    let target = client.generate();
    let desc = text("upgrade oracle");
    let deps: Vec<OpId> = Vec::new();

    let op_id = client.queue(&admin, &desc, &target, &3600, &GRACE, &deps);
    let op_before = client.get_op(&op_id).unwrap();

    // Raise min_delay well above the original queued delay.
    client.set_min_delay(&admin, &100_000);

    let op_after = client.get_op(&op_id).unwrap();
    assert_eq!(op_before.eta, op_after.eta);

    // The op still becomes executable at its original eta, unaffected
    // by the new (higher) min_delay.
    client.now += 3601;
    client.execute(&admin, &op_id);
    assert!(client.get_op(&op_id).unwrap().executed);
}

#[test]
fn test_set_min_delay_applies_to_newly_queued_ops() {
    let (admin, mut client) = setup();
    let target = client.generate();
    let desc = text("upgrade oracle");
    let deps: Vec<OpId> = Vec::new();

    client.set_min_delay(&admin, &7200);

    // A delay below the new min_delay (but above the old one) must fail.
    let result = client.try_queue(&admin, &desc, &target, &3600, &GRACE, &deps);
    assert_eq!(result, Err(TimelockError::DelayTooShort));
}

#[test]
fn test_get_pending_operations_returns_only_pending() {
    let (admin, mut client) = setup();
    let target = client.generate();
    let deps: Vec<OpId> = Vec::new();

    // Initially empty
    assert!(client.get_pending_operations().is_empty());

    // Queue two ops
    let op1 = client.queue(
        &admin,
        &text("op1"),
        &target,
        &3600,
        &GRACE,
        &deps,
    );
    let op2 = client.queue(
        &admin,
        &text("op2"),
        &target,
        &3600,
        &GRACE,
        &deps,
    );

    let pending = client.get_pending_operations();
    assert_eq!(pending.len(), 2);

    // Cancel op1 — should drop to 1 pending
    client.cancel(&admin, &op1);
    assert_eq!(client.get_pending_operations().len(), 1);

    // Execute op2 — should be empty
    client.now += 3601;
    client.execute(&admin, &op2);
    assert_eq!(client.get_pending_operations().len(), 0);
}

#[test]
fn test_get_operation_count_by_status_counts_correctly() {
    let (admin, mut client) = setup();
    let target = client.generate();
    let deps: Vec<OpId> = Vec::new();

    // Queue two ops
    client.queue(
        &admin,
        &text("op1"),
        &target,
        &3600,
        &GRACE,
        &deps,
    );
    client.queue(
        &admin,
        &text("op2"),
        &target,
        &3600,
        &GRACE,
        &deps,
    );

    // Both should be Queued
    assert_eq!(
        client.get_operation_count_by_status(&OperationStatus::Queued),
        2
    );
    assert_eq!(
        client.get_operation_count_by_status(&OperationStatus::Ready),
        0
    );

    // Advance past ETA — both become Ready
    client.now += 3601;
    assert_eq!(
        client.get_operation_count_by_status(&OperationStatus::Queued),
        0
    );
    assert_eq!(
        client.get_operation_count_by_status(&OperationStatus::Ready),
        2
    );
}

#[test]
fn test_get_operation_count_by_status_expired() {
    let (admin, mut client) = setup();
    let target = client.generate();
    let deps: Vec<OpId> = Vec::new();
    let grace: u64 = 3600;

    client.queue(
        &admin,
        &text("expires"),
        &target,
        &3600,
        &grace,
        &deps,
    );

    // Jump past grace period
    client.now += 3600 + grace + 1;
    assert_eq!(
        client.get_operation_count_by_status(&OperationStatus::Expired),
        1
    );
    assert_eq!(
        client.get_operation_count_by_status(&OperationStatus::Ready),
        0
    );
}

#[test]
fn test_pending_ops_index_excludes_expired_from_pending() {
    let (admin, mut client) = setup();
    let target = client.generate();
    let deps: Vec<OpId> = Vec::new();
    let grace: u64 = 3600;

    client.queue(
        &admin,
        &text("expires"),
        &target,
        &3600,
        &grace,
        &deps,
    );

    // Before grace period expires, it's pending
    client.now += 3601;
    assert_eq!(client.get_pending_operations().len(), 1);

    // After grace period, it's no longer pending
    client.now += grace;
    assert_eq!(client.get_pending_operations().len(), 0);
}

#[test]
fn test_queue_fails_when_pending_limit_reached() {
    let (admin, mut client) = setup_with(3600, 2);

    let target = client.generate();
    let deps: Vec<OpId> = Vec::new();

    client.queue(&admin, &text("op1"), &target, &3600, &GRACE, &deps);
    client.queue(&admin, &text("op2"), &target, &3600, &GRACE, &deps);

    // Third queue should fail with QueueFull
    let result = client.try_queue(
        &admin,
        &text("op3"),
        &target,
        &3600,
        &GRACE,
        &deps,
    );
    assert_eq!(result, Err(TimelockError::QueueFull));
}

#[test]
fn test_queue_succeeds_after_cancel_frees_slot() {
    let (admin, mut client) = setup_with(3600, 2);

    let target = client.generate();
    let deps: Vec<OpId> = Vec::new();

    let op1 = client.queue(&admin, &text("op1"), &target, &3600, &GRACE, &deps);
    let _op2 = client.queue(&admin, &text("op2"), &target, &3600, &GRACE, &deps);

    // Cancel op1 to free a slot
    client.cancel(&admin, &op1);

    // Now queue should succeed
    let result = client.try_queue(
        &admin,
        &text("op3"),
        &target,
        &3600,
        &GRACE,
        &deps,
    );
    assert!(result.is_ok());
}

#[test]
fn test_cleanup_expired_removes_expired_ops() {
    let (admin, mut client) = setup();
    let target = client.generate();
    let deps: Vec<OpId> = Vec::new();
    let grace: u64 = 3600;

    // Queue two ops: one that will expire, one that won't
    let _op1 = client.queue(&admin, &text("expires"), &target, &3600, &grace, &deps);
    let _op2 = client.queue(&admin, &text("stays"), &target, &7200, &GRACE, &deps);

    // Jump past the grace period of op1
    let now = client.now;
    client.now = now + 3600 + grace + 1;

    // Cleanup limit of 10 should remove the expired one
    let cleaned = client.cleanup_expired(&admin, &10);
    assert_eq!(cleaned, 1);

    // Verify op1 is no longer in pending ops
    assert_eq!(client.get_pending_operations().len(), 1);
    let pending = client.get_pending_operations();
    assert_eq!(pending[0].target, target);
}

#[test]
fn test_queue_emits_op_queued_event() {
    let (admin, mut client) = setup();
    let target = client.generate();
    let op_id = client.queue(&admin, &text("upgrade oracle"), &target, &3600, &GRACE, &vec![]);

    assert_eq!(client.last_event().topic(), "op_queued");
    assert_eq!(
        *client.last_event(),
        TimelockEvent::OpQueued { op_id, target, eta: 3600, grace_period_seconds: GRACE }
    );
}

#[test]
fn test_execute_emits_op_executed_event() {
    let (admin, mut client) = setup();
    let target = client.generate();
    let op_id = client.queue(&admin, &text("upgrade oracle"), &target, &3600, &GRACE, &vec![]);
    client.now += 3601;
    client.execute(&admin, &op_id);

    assert_eq!(client.last_event().topic(), "op_executed");
    assert_eq!(*client.last_event(), TimelockEvent::OpExecuted { op_id, target });
}

#[test]
fn test_cancel_emits_op_cancelled_event() {
    let (admin, mut client) = setup();
    let target = client.generate();
    let op_id = client.queue(&admin, &text("upgrade oracle"), &target, &3600, &GRACE, &vec![]);
    client.cancel(&admin, &op_id);

    assert_eq!(client.last_event().topic(), "op_cancelled");
    assert_eq!(*client.last_event(), TimelockEvent::OpCancelled { op_id });
}

#[test]
fn test_update_description_emits_event() {
    let (admin, mut client) = setup();
    let target = client.generate();
    let op_id = client.queue(&admin, &text("initial desc"), &target, &3600, &GRACE, &vec![]);
    client.update_description(&admin, &op_id, &text("corrected desc"));

    assert_eq!(client.last_event().topic(), "op_description_updated");
    assert_eq!(
        *client.last_event(),
        TimelockEvent::OpDescriptionUpdated { op_id, description: text("corrected desc") }
    );
}

#[test]
fn timelock_test_transfer_admin_emits_event() {
    let (admin, mut client) = setup();
    let new_admin = client.generate();
    client.transfer_admin(&admin, &new_admin);

    assert_eq!(client.last_event().topic(), "admin_transferred");
    assert_eq!(
        *client.last_event(),
        TimelockEvent::AdminTransferred { old_admin: admin, new_admin }
    );
}

#[test]
fn test_set_min_delay_emits_event() {
    let (admin, mut client) = setup();
    client.set_min_delay(&admin, &7200);

    assert_eq!(client.last_event().topic(), "min_delay_updated");
    assert_eq!(
        *client.last_event(),
        TimelockEvent::MinDelayUpdated { old_min_delay: 3600, new_min_delay: 7200 }
    );
}

#[test]
fn cancelled_operations_leave_the_queue() {
    let (admin, mut client) = setup();
    let target = client.generate();
    let mut ids = Vec::new();
    for i in 0..5 {
        let desc = format!("op_{}", i);
        ids.push(client.queue(&admin, &desc, &target, &3600, &3600, &vec![]));
    }
    for id in &ids[..4] {
        client.cancel(&admin, id);
    }
    assert_eq!(client.get_pending_operations().len(), 1);
    assert_eq!(client.get_operation_count_by_status(&OperationStatus::Cancelled), 0);
    assert_eq!(client.get_operation_count_by_status(&OperationStatus::Queued), 1);
}

#[test]
fn cleanup_takes_no_more_than_its_limit() {
    let (admin, mut client) = setup_with(3600, 100);
    for i in 0..5 {
        let target = format!("target-{}", i);
        client.queue(&admin, &text("op"), &target, &3600, &3600, &vec![]);
    }
    client.now += 3600 + 3600 + 1;

    assert_eq!(client.cleanup_expired(&admin, &2), 2);
    assert_eq!(client.timelock.pending.len(), 3);
    assert_eq!(client.cleanup_expired(&admin, &10), 3);
    assert_eq!(client.timelock.pending.len(), 0);
    let events = client.timelock.events.len();
    assert_eq!(client.cleanup_expired(&admin, &10), 0);
    assert_eq!(client.timelock.events.len(), events);
}

#[test]
fn cleanup_finds_only_what_is_still_on_the_queue() {
    let (admin, mut client) = setup();
    let target = client.generate();
    let op1 = client.queue(&admin, &text("op1"), &target, &3600, &3600, &vec![]);
    let op2 = client.queue(&admin, &text("op2"), &target, &3600, &3600, &vec![]);
    let op3 = client.queue(&admin, &text("op3"), &target, &3600, &3600, &vec![]);
    client.cancel(&admin, &op1);
    client.now += 3601;
    client.execute(&admin, &op2);
    client.now += 3601;

    assert_eq!(client.cleanup_expired(&admin, &10), 1);
    assert_eq!(client.get_pending_operations().len(), 0);
    assert_eq!(client.get_operation_status(&op3), Some(OperationStatus::Expired));
}

#[test]
fn test_cleanup_expired_emits_event() {
    let (admin, mut client) = setup();
    let target = client.generate();
    client.queue(&admin, &text("expires"), &target, &3600, &3600, &vec![]);
    client.now += 3600 + 3600 + 1;

    client.cleanup_expired(&admin, &10);

    assert!(client.timelock.events.iter().any(|e| e.topic() == "ops_cleaned"));
    assert_eq!(*client.last_event(), TimelockEvent::OpsCleaned { count: 1 });
}

#[test]
fn test_cleanup_expired_permissionless() {
    let (admin, mut client) = setup_with(3600, 100);
    let caller = client.generate();
    let target = client.generate();
    client.queue(&admin, &text("expires"), &target, &3600, &3600, &vec![]);
    client.now += 3600 + 3600 + 1;

    assert_eq!(client.cleanup_expired(&caller, &10), 1);
}

#[test]
fn operation_cannot_depend_on_itself() {
    let (admin, mut client) = setup();
    let id = text("00ff");
    assert_eq!(
        client.timelock.queue(
            admin.clone(),
            text("op"),
            text("target"),
            3600,
            GRACE,
            vec![text("aa"), id.clone()],
            0,
            id,
        ),
        Err(TimelockError::CircularDependency)
    );
    assert!(client.timelock.pending.is_empty());
    assert!(client.timelock.ops.get(&text("00ff")).is_none());
}

fn queue_under(
    client: &mut Client,
    admin: &Address,
    id: &str,
    deps: Vec<OpId>,
) -> Result<OpId, TimelockError> {
    client.timelock.queue(
        admin.clone(),
        text("op"),
        text("target"),
        3600,
        GRACE,
        deps,
        0,
        text(id),
    )
}

#[test]
fn chain_of_dependencies_is_limited() {
    let (admin, mut client) = setup();
    queue_under(&mut client, &admin, "op0", vec![]).unwrap();
    for i in 1..10 {
        let deps = vec![format!("op{}", i - 1)];
        assert_eq!(queue_under(&mut client, &admin, &format!("op{}", i), deps), Ok(format!("op{}", i)));
    }
    assert_eq!(
        queue_under(&mut client, &admin, "op10", vec![text("op9")]),
        Err(TimelockError::DependencyTooDeep)
    );
    assert!(client.timelock.ops.get(&text("op10")).is_none());
    assert_eq!(
        client.timelock.check_dependency_depth(&text("op0"), &text("op10"), 8),
        Ok(())
    );
    assert_eq!(
        client.timelock.check_dependency_depth(&text("op0"), &text("op10"), 9),
        Err(TimelockError::DependencyTooDeep)
    );

    client.timelock.cancel(&admin, text("op4")).unwrap();
    assert_eq!(queue_under(&mut client, &admin, "op10", vec![text("op9")]), Ok(text("op10")));
}

#[test]
fn dependencies_make_no_cycle() {
    let (admin, mut client) = setup();
    queue_under(&mut client, &admin, "a", vec![]).unwrap();
    queue_under(&mut client, &admin, "b", vec![text("a")]).unwrap();
    queue_under(&mut client, &admin, "c", vec![text("unknown"), text("b")]).unwrap();
    assert_eq!(
        queue_under(&mut client, &admin, "a", vec![text("c")]),
        Err(TimelockError::CircularDependency)
    );
    assert_eq!(client.timelock.dependencies.get(&text("a")).unwrap().len(), 0);
    assert_eq!(
        client.timelock.check_dependency_depth(&text("c"), &text("a"), 0),
        Err(TimelockError::CircularDependency)
    );

    client.timelock.cancel(&admin, text("b")).unwrap();
    assert_eq!(queue_under(&mut client, &admin, "a", vec![text("c")]), Ok(text("a")));
}

#[test]
fn preimage_ends_with_the_eta() {
    assert_eq!(
        op_preimage(&vec![1, 2], &vec![3], 0x0102_0304_0506_0708),
        vec![1, 2, 3, 1, 2, 3, 4, 5, 6, 7, 8]
    );
}

#[test]
fn uninitialized_timelock_refuses_operations() {
    let mut timelock = RouterTimelock::new();
    assert_eq!(
        timelock.check_queue(&text("anyone"), 10),
        Err(TimelockError::NotInitialized)
    );
    assert_eq!(timelock.admin(), Err(TimelockError::NotInitialized));
    assert_eq!(timelock.initialize(text("a"), 1, 1), Ok(()));
    assert_eq!(
        timelock.initialize(text("a"), 1, 1),
        Err(TimelockError::AlreadyInitialized)
    );
    assert_eq!(
        timelock.cancel(&text("a"), text("ghost")),
        Err(TimelockError::NotFound)
    );
}

#[test]
fn endless_grace_period_never_expires() {
    let (admin, mut client) = setup();
    let target = client.generate();
    let id = client.queue(&admin, &text("op"), &target, &3600, &u64::MAX, &vec![]);
    client.now = u64::MAX;
    assert_eq!(client.get_operation_status(&id), Some(OperationStatus::Ready));
}

#[test]
fn finished_operation_stays_finished_until_queued_afresh() {
    let (admin, mut client) = setup();
    queue_under(&mut client, &admin, "a", vec![]).unwrap();
    client.timelock.cancel(&admin, text("a")).unwrap();
    queue_under(&mut client, &admin, "b", vec![text("a")]).unwrap();
    client.timelock.set_min_delay(&admin, 7200).unwrap();
    client.timelock.execute(&admin, text("b"), 3600).unwrap();
    client.timelock.cleanup_expired(10, 1_000_000);
    assert!(client.timelock.ops.get(&text("a")).unwrap().cancelled);
    assert!(client.timelock.ops.get(&text("b")).unwrap().executed);
    assert_eq!(client.timelock.cancel(&admin, text("b")), Err(TimelockError::AlreadyExecuted));
    assert_eq!(
        client.timelock.execute(&admin, text("a"), 3600),
        Err(TimelockError::Cancelled)
    );

    client.timelock.set_min_delay(&admin, 3600).unwrap();
    queue_under(&mut client, &admin, "a", vec![]).unwrap();
    assert_eq!(client.timelock.execute(&admin, text("a"), 3600), Ok(()));
}

#[test]
fn id_is_the_hash_of_description_target_and_eta() {
    let (admin, mut client) = setup();
    client.now = 5;
    let (upgrade, vault) = (text("upgrade"), text("vault"));
    let id = client.queue(&admin, &upgrade, &vault, &3600, &GRACE, &vec![]);
    assert_eq!(id, "792b860c3fa349a93bf6455e6771c9865ae9e321626895f5a47cf5ff04ed954e");
    let op = client.timelock.ops.get(&id).unwrap();
    assert_eq!((&op.description, &op.target, op.eta), (&upgrade, &vault, 3605));
    assert_eq!(client.timelock.pending, vec![id.clone()]);
    assert_eq!(
        *client.last_event(),
        TimelockEvent::OpQueued {
            op_id: id.clone(),
            target: vault.clone(),
            eta: 3605,
            grace_period_seconds: GRACE,
        }
    );

    assert_eq!(client.queue(&admin, &upgrade, &vault, &3600, &GRACE, &vec![]), id);
    assert_eq!(client.timelock.pending.len(), 1);
    client.now = 6;
    let later = client.queue(&admin, &upgrade, &vault, &3600, &GRACE, &vec![]);
    assert_eq!(later, "7e3644886d2db9387c85b6c79898d27ad1b7a3ce1d1ca036a5d28484be6219d9");
    assert_eq!(client.timelock.pending, vec![id.clone(), later]);
    client.now = 5;
    assert_eq!(
        client.try_queue(&admin, &upgrade, &vault, &3600, &GRACE, &vec![id]),
        Err(TimelockError::CircularDependency)
    );
}

#[test]
fn longest_operation_can_be_hashed() {
    let (admin, mut client) = setup();
    let encoded = vec![0u8; MAX_HASHED_BYTES - 8];
    let id = client.timelock.queue_operation(
        admin,
        text("long"),
        &encoded,
        text("target"),
        &vec![],
        3600,
        GRACE,
        vec![],
        0,
    );
    assert_eq!(id, Ok(text("dd1c77a94a3de2f4ccf3b2377b6c19e2bad9459ec18b3057b96e853e7516ca16")));
}

#[test]
fn nothing_is_hashed_for_what_cannot_be_queued() {
    let (admin, mut client) = setup();
    let encoded = vec![0u8; MAX_HASHED_BYTES + 1];
    let mut queue = |proposer: &Address, delay: u64| {
        client.timelock.queue_operation(
            proposer.clone(),
            text("long"),
            &encoded,
            text("target"),
            &encoded,
            delay,
            GRACE,
            vec![],
            u64::MAX,
        )
    };
    assert_eq!(queue(&text("stranger"), 3600), Err(TimelockError::Unauthorized));
    assert_eq!(queue(&admin, 3599), Err(TimelockError::DelayTooShort));
}
