use stellar_router::common::BatchCallResult;
use stellar_router::multicall::{
    BatchStep, BatchSummary, CallDescriptor, MulticallError, MulticallEvent, RouterMulticall,
};

const MOCK: &str = "CMOCK";

fn admin() -> String {
    "GADMIN".to_string()
}

fn caller() -> String {
    "GCALLER".to_string()
}

fn setup() -> RouterMulticall {
    let mut contract = RouterMulticall::new();
    contract.initialize(admin(), 10).unwrap();
    contract
}

fn call(function: &str, required: bool, instruction_budget: Option<u64>) -> CallDescriptor {
    CallDescriptor {
        target: MOCK.to_string(),
        function: function.to_string(),
        required,
        instruction_budget,
        args: vec![],
    }
}

/// How the mock contract answers: `success` succeeds, everything else fails.
fn outcomes(calls: &[CallDescriptor]) -> Vec<bool> {
    calls.iter().map(|c| c.function == "success").collect()
}

fn execute(
    client: &mut RouterMulticall,
    calls: Vec<CallDescriptor>,
    simulate: bool,
    store_results: bool,
    fail_fast: bool,
) -> Result<BatchCallResult, MulticallError> {
    let outcomes = outcomes(&calls);
    client.execute_batch(caller(), calls, simulate, store_results, fail_fast, &outcomes)
}

fn batch_counts(result: &BatchCallResult) -> (u32, u32, u32) {
    let succeeded = result.successes.len() as u32;
    let failed = result.failures.len() as u32;
    (succeeded + failed, succeeded, failed)
}

fn budget_failure_count(result: &BatchCallResult) -> u32 {
    result.failures.iter().filter(|f| f.message == "budget_exceeded").count() as u32
}

#[test]
fn test_initialize() {
    let client = setup();
    assert_eq!(client.max_batch_size(), Ok(10));
    assert_eq!(client.total_batches(), 0);
}

#[test]
fn test_double_initialize_fails() {
    let mut client = setup();
    let result = client.initialize(admin(), 10);
    assert_eq!(result, Err(MulticallError::AlreadyInitialized));
}

#[test]
fn test_empty_batch_fails() {
    let mut client = setup();
    let result = execute(&mut client, vec![], false, false, false);
    assert_eq!(result, Err(MulticallError::EmptyBatch));
}

#[test]
fn test_batch_too_large_fails() {
    let mut client = setup();
    client.set_max_batch_size(&admin(), 2).unwrap();
    let calls = (0..3).map(|_| call("ping", false, None)).collect();
    let result = execute(&mut client, calls, false, false, false);
    assert_eq!(result, Err(MulticallError::BatchTooLarge));
}

#[test]
fn test_set_max_batch_size() {
    let mut client = setup();
    client.set_max_batch_size(&admin(), 5).unwrap();
    assert_eq!(client.max_batch_size(), Ok(5));
}

#[test]
fn test_set_max_batch_size_emits_event() {
    let mut client = setup();
    client.set_max_batch_size(&admin(), 5).unwrap();
    let last = client.events.last().unwrap();
    assert_eq!(last.topic(), "max_batch_size_updated");
    assert_eq!(*last, MulticallEvent::MaxBatchSizeUpdated { old_size: 10, new_size: 5 });
}

#[test]
fn test_set_max_batch_size_zero_fails() {
    let mut client = setup();
    let result = client.set_max_batch_size(&admin(), 0);
    assert_eq!(result, Err(MulticallError::InvalidConfig));
    assert_eq!(client.max_batch_size(), Ok(10));
}

#[test]
fn test_unauthorized_set_max_fails() {
    let mut client = setup();
    let result = client.set_max_batch_size(&"GATTACKER".to_string(), 5);
    assert_eq!(result, Err(MulticallError::Unauthorized));
}

#[test]
fn test_invalid_config_zero_max_fails() {
    let mut client = RouterMulticall::new();
    let result = client.initialize(admin(), 0);
    assert_eq!(result, Err(MulticallError::InvalidConfig));
}

#[test]
fn test_all_calls_succeed() {
    let mut client = setup();
    let calls = vec![call("success", true, None), call("success", false, None)];
    let summary = execute(&mut client, calls, false, false, false).unwrap();
    let (total, succeeded, failed) = batch_counts(&summary);
    assert_eq!(total, 2);
    assert_eq!(succeeded, 2);
    assert_eq!(failed, 0);
    assert_eq!(budget_failure_count(&summary), 0);
    assert_eq!(client.total_batches(), 1);
}

#[test]
fn test_optional_calls_fail_batch_completes() {
    let mut client = setup();
    let calls = vec![
        call("success", true, None),
        call("fail", false, None),
        call("success", false, None),
    ];
    let summary = execute(&mut client, calls, false, false, false).unwrap();
    let (total, succeeded, failed) = batch_counts(&summary);
    assert_eq!(total, 3);
    assert_eq!(succeeded, 2);
    assert_eq!(failed, 1);
    assert_eq!(client.total_batches(), 1);
}

#[test]
fn test_required_call_fails_aborts_batch() {
    let mut client = setup();
    let calls = vec![
        call("success", false, None),
        call("fail", true, None),
        call("success", false, None),
    ];
    let result = execute(&mut client, calls, false, false, false);
    assert_eq!(result, Err(MulticallError::RequiredCallFailed));
    assert_eq!(client.total_batches(), 0);
}

#[test]
fn test_admin_getter() {
    let client = setup();
    assert_eq!(client.admin(), Ok(admin()));
}

#[test]
fn test_transfer_admin() {
    let mut client = setup();
    client.transfer_admin(admin(), "GNEW".to_string()).unwrap();
    assert_eq!(client.admin(), Ok("GNEW".to_string()));
    let last = client.events.last().unwrap();
    assert_eq!(last.topic(), "admin_transferred");
    assert_eq!(
        *last,
        MulticallEvent::AdminTransferred { old_admin: admin(), new_admin: "GNEW".to_string() }
    );
}

#[test]
fn test_unauthorized_transfer_admin_fails() {
    let mut client = setup();
    let result = client.transfer_admin("GATTACKER".to_string(), "GNEW".to_string());
    assert_eq!(result, Err(MulticallError::Unauthorized));
}

#[test]
fn test_old_admin_locked_out_after_transfer() {
    let mut client = setup();
    let new_admin = "GNEW".to_string();
    client.transfer_admin(admin(), new_admin.clone()).unwrap();

    let result = client.set_max_batch_size(&admin(), 5);
    assert_eq!(result, Err(MulticallError::Unauthorized));

    assert!(client.set_max_batch_size(&new_admin, 5).is_ok());
    assert_eq!(client.max_batch_size(), Ok(5));
}

#[test]
fn test_budget_exceeded_count_increments_on_budgeted_failure() {
    let mut client = setup();
    let calls = vec![
        call("fail", false, Some(500_000)),
        call("fail", false, None),
        call("success", false, Some(500_000)),
    ];
    let summary = execute(&mut client, calls, false, false, false).unwrap();
    let (total, succeeded, failed) = batch_counts(&summary);
    assert_eq!(total, 3);
    assert_eq!(succeeded, 1);
    assert_eq!(failed, 2);
    assert_eq!(budget_failure_count(&summary), 1);
}

#[test]
fn test_simulate_mode_does_not_increment_counter() {
    let mut client = setup();
    let calls = vec![call("success", true, None)];
    let summary = execute(&mut client, calls, true, false, false).unwrap();
    let (total, succeeded, failed) = batch_counts(&summary);
    assert_eq!(total, 1);
    assert_eq!(succeeded, 1);
    assert_eq!(failed, 0);
    assert_eq!(client.total_batches(), 0);
}

#[test]
fn test_simulate_mode_returns_correct_summary() {
    let mut client = setup();
    let calls = vec![call("success", true, None), call("fail", false, None)];
    let summary = execute(&mut client, calls, true, false, false).unwrap();
    let (total, succeeded, failed) = batch_counts(&summary);
    assert_eq!(total, 2);
    assert_eq!(succeeded, 1);
    assert_eq!(failed, 1);
}

#[test]
fn test_optional_panic_increments_failure_count() {
    let mut client = setup();
    let calls = vec![call("success", true, None), call("fail", false, None)];
    let summary = execute(&mut client, calls, false, false, false).unwrap();
    let (total, succeeded, failed) = batch_counts(&summary);
    assert_eq!(total, 2);
    assert_eq!(succeeded, 1);
    assert_eq!(failed, 1);
}

#[test]
fn test_call_result_event_includes_caller_and_index() {
    let mut client = setup();
    let calls = vec![call("success", true, None)];
    execute(&mut client, calls, false, false, false).unwrap();
    let event = client.events.iter().find(|e| e.topic() == "call_result").unwrap();
    match event {
        MulticallEvent::CallResult { caller: event_caller, index, .. } => {
            assert_eq!(*event_caller, caller());
            assert_eq!(*index, 0u32);
        }
        _ => unreachable!(),
    }
}

#[test]
fn test_call_failed_event_emitted_with_index_and_contract() {
    let mut client = setup();
    let calls = vec![call("success", false, None), call("fail", true, None)];
    let result = execute(&mut client, calls, false, false, false);
    assert_eq!(result, Err(MulticallError::RequiredCallFailed));
    let event = client.events.iter().find(|e| e.topic() == "call_failed").unwrap();
    assert_eq!(
        *event,
        MulticallEvent::CallFailed {
            index: 1u32,
            target: MOCK.to_string(),
            function: "fail".to_string(),
        }
    );
}

#[test]
fn test_total_batches_not_incremented_when_required_call_fails() {
    let mut client = setup();
    let result = execute(&mut client, vec![call("fail", true, None)], false, false, false);
    assert_eq!(result, Err(MulticallError::RequiredCallFailed));
    assert_eq!(client.total_batches(), 0);
}

#[test]
fn test_executing_flag_cleared_after_success() {
    let mut client = setup();
    execute(&mut client, vec![call("success", true, None)], false, false, false).unwrap();
    let result = execute(&mut client, vec![call("success", true, None)], false, false, false);
    assert!(result.is_ok());
}

#[test]
fn test_executing_flag_cleared_after_required_failure() {
    let mut client = setup();
    let _ = execute(&mut client, vec![call("fail", true, None)], false, false, false);
    let result = execute(&mut client, vec![call("success", true, None)], false, false, false);
    assert!(result.is_ok());
}

#[test]
fn test_first_optional_fails_second_required_succeeds() {
    let mut client = setup();
    let calls = vec![call("fail", false, None), call("success", true, None)];
    let summary = execute(&mut client, calls, false, false, false).unwrap();
    let (total, succeeded, failed) = batch_counts(&summary);
    assert_eq!(total, 2);
    assert_eq!(succeeded, 1);
    assert_eq!(failed, 1);
    assert_eq!(client.total_batches(), 1);
}

#[test]
fn test_multiple_optional_calls_all_fail() {
    let mut client = setup();
    let calls = (0..3).map(|_| call("fail", false, None)).collect();
    let summary = execute(&mut client, calls, false, false, false).unwrap();
    let (total, succeeded, failed) = batch_counts(&summary);
    assert_eq!(total, 3);
    assert_eq!(succeeded, 0);
    assert_eq!(failed, 3);
    assert_eq!(client.total_batches(), 1);
}

#[test]
fn test_required_fails_after_optional_successes_aborts_batch() {
    let mut client = setup();
    let calls = vec![
        call("success", false, None),
        call("success", false, None),
        call("fail", true, None),
    ];
    let result = execute(&mut client, calls, false, false, false);
    assert_eq!(result, Err(MulticallError::RequiredCallFailed));
    assert_eq!(client.total_batches(), 0);

    let second = execute(&mut client, vec![call("success", true, None)], false, false, false);
    assert!(second.is_ok());
}

#[test]
fn test_all_optional_all_fail_zero_success_count() {
    let mut client = setup();
    let calls = vec![call("fail", false, None), call("fail", false, None)];
    let summary = execute(&mut client, calls, false, false, false).unwrap();
    let (total, succeeded, failed) = batch_counts(&summary);
    assert_eq!(total, 2);
    assert_eq!(succeeded, 0);
    assert_eq!(failed, 2);
    assert_eq!(client.total_batches(), 1);
}

#[test]
fn test_alternating_required_optional_stops_at_first_required_failure() {
    let mut client = setup();
    let calls = vec![
        call("fail", false, None),
        call("success", true, None),
        call("fail", false, None),
        call("fail", true, None),
        call("success", false, None),
    ];
    let result = execute(&mut client, calls, false, false, false);
    assert_eq!(result, Err(MulticallError::RequiredCallFailed));
    assert_eq!(client.total_batches(), 0);

    let call_result_count = client.events.iter().filter(|e| e.topic() == "call_result").count();
    assert_eq!(call_result_count, 4, "only calls 0-3 should have executed");

    let second = execute(&mut client, vec![call("success", true, None)], false, false, false);
    assert!(second.is_ok());
}

#[test]
fn fail_fast_returns_what_there_is() {
    let mut client = setup();
    let calls = vec![
        call("success", false, None),
        call("fail", false, None),
        call("success", false, None),
    ];
    let summary = execute(&mut client, calls, false, false, true).unwrap();
    assert_eq!(batch_counts(&summary), (2, 1, 1));
    assert_eq!(summary.failures[0].index, 1);
    assert_eq!(client.total_batches(), 0);
    assert!(!client.executing);
}

#[test]
fn stored_results_read_back_by_batch_and_index() {
    let mut client = setup();
    let calls = vec![call("success", false, None), call("fail", false, None)];
    execute(&mut client, calls, false, true, false).unwrap();
    execute(&mut client, vec![call("success", false, None)], false, true, false).unwrap();
    assert!(client.batch_results.get(&(0, 0)).unwrap().success);
    assert!(!client.batch_results.get(&(0, 1)).unwrap().success);
    assert_eq!(client.batch_results.get(&(1, 0)).unwrap().function, "success");
    assert!(client.batch_results.get(&(1, 1)).is_none());
}

#[test]
fn reentrant_batch_is_refused() {
    let mut client = setup();
    let calls = vec![call("success", true, None), call("success", true, None)];
    let mut run = client.begin_batch(caller(), calls, false, false, false).unwrap();
    assert_eq!(
        execute(&mut client, vec![call("success", true, None)], false, false, false),
        Err(MulticallError::Reentrancy)
    );
    assert_eq!(run.next_call().unwrap().function, "success");
    assert_eq!(client.record_outcome(&mut run, true), BatchStep::Continue);
    assert!(client.executing);
    assert_eq!(client.record_outcome(&mut run, true), BatchStep::Completed);
    assert!(run.next_call().is_none());
    assert!(!client.executing);
    assert_eq!(client.total_batches(), 1);
}

#[test]
fn guard_is_held_for_the_length_of_a_batch() {
    for (outcome, step) in [(true, BatchStep::Completed), (false, BatchStep::Aborted)] {
        let mut client = setup();
        let calls = vec![call("a", true, None), call("b", true, None), call("c", true, None)];
        let mut run = client.begin_batch(caller(), calls, false, false, false).unwrap();
        for _ in 0..2 {
            assert_eq!(
                execute(&mut client, vec![], false, false, false),
                Err(MulticallError::Reentrancy)
            );
            assert_eq!(client.record_outcome(&mut run, true), BatchStep::Continue);
        }
        assert_eq!(client.record_outcome(&mut run, outcome), step);
        assert!(execute(&mut client, vec![call("success", true, None)], false, false, false).is_ok());
    }
}

#[test]
fn steps_of_a_batch_end_as_the_batch_does() {
    let mut client = setup();
    let mut run = client
        .begin_batch(caller(), vec![call("a", true, None)], false, false, false)
        .unwrap();
    assert_eq!(client.record_outcome(&mut run, false), BatchStep::Aborted);
    let mut run = client
        .begin_batch(caller(), vec![call("a", false, None)], false, false, true)
        .unwrap();
    assert_eq!(client.record_outcome(&mut run, false), BatchStep::Stopped);
    assert_eq!(client.total_batches(), 0);
}

#[test]
fn uninitialized_contract_refuses() {
    let mut client = RouterMulticall::new();
    assert_eq!(client.max_batch_size(), Err(MulticallError::NotInitialized));
    assert_eq!(client.admin(), Err(MulticallError::NotInitialized));
    assert_eq!(
        execute(&mut client, vec![call("success", true, None)], false, false, false),
        Err(MulticallError::NotInitialized)
    );
    assert_eq!(client.set_max_batch_size(&admin(), 1), Err(MulticallError::NotInitialized));
    assert_eq!(
        client.transfer_admin(admin(), "GNEW".to_string()),
        Err(MulticallError::NotInitialized)
    );
}

#[test]
fn completed_batch_publishes_its_summary() {
    let mut client = setup();
    let calls = vec![
        call("success", true, None),
        call("fail", false, None),
        call("fail", false, Some(1_000)),
        call("success", false, Some(1_000)),
    ];
    execute(&mut client, calls, true, false, false).unwrap();
    let last = client.events.last().unwrap();
    assert_eq!(last.topic(), "batch_executed");
    assert_eq!(
        *last,
        MulticallEvent::BatchExecuted {
            summary: BatchSummary {
                total: 4,
                succeeded: 2,
                failed: 2,
                budget_exceeded_count: 1,
            },
        }
    );
}

#[test]
fn batch_that_ends_early_publishes_no_summary() {
    let mut client = setup();
    let stopped = vec![call("fail", false, None), call("success", false, None)];
    execute(&mut client, stopped, false, false, true).unwrap();
    let aborted = vec![call("fail", true, None)];
    assert_eq!(
        execute(&mut client, aborted, false, false, false),
        Err(MulticallError::RequiredCallFailed)
    );
    assert!(client.events.iter().all(|e| e.topic() != "batch_executed"));
}

#[test]
fn batch_counter_at_its_end_still_serves_dry_runs() {
    let mut client = setup();
    client.total_batches = Some(u64::MAX);
    assert!(execute(&mut client, vec![call("success", true, None)], true, false, false).is_ok());
    assert_eq!(client.total_batches(), u64::MAX);
    assert!(!client.executing);
}

#[test]
fn multicall_error_codes() {
    let codes: Vec<u32> = vec![
        MulticallError::AlreadyInitialized.code(),
        MulticallError::NotInitialized.code(),
        MulticallError::Unauthorized.code(),
        MulticallError::BatchTooLarge.code(),
        MulticallError::EmptyBatch.code(),
        MulticallError::RequiredCallFailed.code(),
        MulticallError::InvalidConfig.code(),
        MulticallError::Reentrancy.code(),
    ];
    assert_eq!(codes, vec![1, 2, 3, 4, 5, 6, 7, 8]);
}

#[test]
fn no_batch_locks_out_the_next_one() {
    let mut client = setup();
    let batches = [
        (vec![call("success", true, None)], false),
        (vec![call("failure", true, None)], false),
        (vec![call("failure", false, None), call("success", true, None)], true),
        (vec![], false),
        (vec![call("success", true, Some(1))], false),
    ];
    for (calls, fail_fast) in batches {
        let _ = execute(&mut client, calls, false, true, fail_fast);
        assert!(!client.executing);
        assert_eq!(
            execute(&mut client, vec![call("failure", true, None)], false, false, false),
            Err(MulticallError::RequiredCallFailed)
        );
    }
}
