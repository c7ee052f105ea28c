use stellar_router::common::Address;
use stellar_router::execution::run::Step;
use stellar_router::execution::types::{
    CallOutcome, ExecutionError, ExecutionEvent, ExecutionRequest, RouterExecution,
};

const OK: CallOutcome = CallOutcome::Succeeded;
const TIMEOUT: CallOutcome = CallOutcome::Failed(101);
const UNAVAILABLE: CallOutcome = CallOutcome::Failed(102);
const REJECTED: CallOutcome = CallOutcome::Failed(301);

fn text(s: &str) -> String {
    s.to_string()
}

fn setup() -> (Address, RouterExecution) {
    let admin = text("admin");
    let mut pipeline = RouterExecution::new();
    pipeline.initialize(admin.clone(), 2, 500, 200).unwrap();
    (admin, pipeline)
}

fn request(simulate_first: bool, max_retries: u32) -> ExecutionRequest {
    ExecutionRequest {
        target: text("target"),
        function: text("transfer"),
        simulate_first,
        max_retries,
    }
}

#[test]
fn execution_test_initialize_twice_fails() {
    let (admin, mut pipeline) = setup();
    assert_eq!(
        pipeline.initialize(admin, 1, 0, 100),
        Err(ExecutionError::AlreadyInitialized)
    );
}

#[test]
fn test_initialize_max_retries_too_high_fails() {
    let mut pipeline = RouterExecution::new();
    assert_eq!(
        pipeline.initialize(text("admin"), 6, 0, 100),
        Err(ExecutionError::InvalidConfig)
    );
}

#[test]
fn test_initialize_invalid_multiplier_fails() {
    let mut pipeline = RouterExecution::new();
    assert_eq!(
        pipeline.initialize(text("admin"), 2, 500, 99),
        Err(ExecutionError::InvalidConfig)
    );
}

#[test]
fn test_admin_returns_initialized_admin() {
    let (admin, pipeline) = setup();
    assert_eq!(pipeline.admin(), Ok(admin));
}

#[test]
fn test_fee_estimate_normal_load() {
    let (_, mut pipeline) = setup();
    let estimate = pipeline.estimate_fee(1_000_000, 5000).unwrap();
    assert!(!estimate.high_load);
    assert_eq!(estimate.surge_multiplier, 100);
    assert_eq!(estimate.base_fee, 100);
    assert_eq!(estimate.total_fee, estimate.base_fee + estimate.resource_fee);
}

#[test]
fn test_fee_estimate_high_load() {
    let (_, mut pipeline) = setup();
    let estimate = pipeline.estimate_fee(1_000_000, 8000).unwrap();
    assert!(estimate.high_load);
    assert_eq!(estimate.surge_multiplier, 200);
    assert_eq!(estimate.total_fee, (estimate.base_fee + estimate.resource_fee) * 2);
    assert_eq!(
        *pipeline.events.last().unwrap(),
        ExecutionEvent::FeeEstimated { total_fee: 2200, high_load: true }
    );
}

#[test]
fn test_fee_estimate_invalid_amount() {
    let (_, mut pipeline) = setup();
    assert_eq!(pipeline.estimate_fee(0, 5000), Err(ExecutionError::InvalidAmount));
}

#[test]
fn test_stats_initial() {
    let (_, pipeline) = setup();
    assert_eq!(pipeline.stats(), (0, 0));
}

#[test]
fn test_simulate_nonexistent_contract_fails() {
    let (_, mut pipeline) = setup();
    let result = pipeline.simulate(text("nowhere"), text("transfer"), false).unwrap();
    assert!(!result.success);
    assert!(result.would_fail);
}

#[test]
fn execution_test_transfer_admin() {
    let (admin, mut pipeline) = setup();
    pipeline.transfer_admin(admin, text("new")).unwrap();
    assert_eq!(pipeline.admin(), Ok(text("new")));
}

#[test]
fn test_transfer_admin_unauthorized_fails() {
    let (_, mut pipeline) = setup();
    assert_eq!(
        pipeline.transfer_admin(text("attacker"), text("new")),
        Err(ExecutionError::Unauthorized)
    );
}

#[test]
fn execution_test_transfer_admin_emits_event() {
    let (admin, mut pipeline) = setup();
    pipeline.transfer_admin(admin, text("new")).unwrap();
    assert_eq!(pipeline.events.last().unwrap().topic(), "admin_transferred");
}

#[test]
fn test_set_max_retries() {
    let (admin, mut pipeline) = setup();
    pipeline.set_max_retries(&admin, 3).unwrap();
    assert_eq!(pipeline.max_retries, 3);
}

#[test]
fn test_set_max_retries_too_high_fails() {
    let (admin, mut pipeline) = setup();
    assert_eq!(pipeline.set_max_retries(&admin, 6), Err(ExecutionError::InvalidConfig));
}

#[test]
fn test_set_max_retries_unauthorized_fails() {
    let (_, mut pipeline) = setup();
    assert_eq!(
        pipeline.set_max_retries(&text("attacker"), 2),
        Err(ExecutionError::Unauthorized)
    );
}

#[test]
fn test_get_execution_history_empty() {
    let (_, pipeline) = setup();
    assert_eq!(pipeline.get_execution_history(10).unwrap().len(), 0);
}

#[test]
fn test_simulate_returns_message_on_failure() {
    let (_, mut pipeline) = setup();
    let result = pipeline.simulate(text("nowhere"), text("transfer"), false).unwrap();
    assert_eq!(result.message, "simulation failed: transaction would be rejected");
    let result = pipeline.simulate(text("somewhere"), text("transfer"), true).unwrap();
    assert_eq!(result.message, "simulation succeeded");
    assert_eq!(pipeline.events.last().unwrap().topic(), "simulation_result");
}

#[test]
fn test_backoff_config_stored_on_initialize() {
    let (_, pipeline) = setup();
    assert_eq!(pipeline.backoff_config(), (500, 200));
}

#[test]
fn test_set_backoff_config_updates_values() {
    let (admin, mut pipeline) = setup();
    pipeline.set_backoff_config(&admin, 1000, 150).unwrap();
    assert_eq!(pipeline.backoff_config(), (1000, 150));
}

#[test]
fn test_set_backoff_config_unauthorized_fails() {
    let (_, mut pipeline) = setup();
    assert_eq!(
        pipeline.set_backoff_config(&text("attacker"), 1000, 200),
        Err(ExecutionError::Unauthorized)
    );
}

#[test]
fn test_set_backoff_config_invalid_multiplier_fails() {
    let (admin, mut pipeline) = setup();
    assert_eq!(
        pipeline.set_backoff_config(&admin, 500, 99),
        Err(ExecutionError::InvalidConfig)
    );
}

#[test]
fn test_compute_backoff_ms_no_delay() {
    assert_eq!(RouterExecution::compute_backoff_ms(0, 200, 0), 0);
    assert_eq!(RouterExecution::compute_backoff_ms(0, 200, 3), 0);
}

#[test]
fn test_compute_backoff_ms_doubles_each_attempt() {
    assert_eq!(RouterExecution::compute_backoff_ms(100, 200, 0), 100);
    assert_eq!(RouterExecution::compute_backoff_ms(100, 200, 1), 200);
    assert_eq!(RouterExecution::compute_backoff_ms(100, 200, 2), 400);
    assert_eq!(RouterExecution::compute_backoff_ms(100, 200, 3), 800);
}

#[test]
fn test_compute_backoff_ms_1x_multiplier_stays_constant() {
    assert_eq!(RouterExecution::compute_backoff_ms(250, 100, 0), 250);
    assert_eq!(RouterExecution::compute_backoff_ms(250, 100, 5), 250);
}

#[test]
fn backoff_is_cut_off_at_the_largest_number() {
    assert_eq!(
        RouterExecution::compute_backoff_ms(u64::MAX, 200, 1),
        u64::MAX / 100
    );
}

#[test]
fn second_attempt_can_succeed() {
    let (_, mut pipeline) = setup();
    let result = pipeline.execute(&request(true, 9), &vec![OK, TIMEOUT, OK, OK], 77).unwrap();
    assert!(result.success);
    assert!(result.simulated);
    assert_eq!(result.attempts, 2);
    assert_eq!(pipeline.stats(), (1, 0));
    assert_eq!(
        pipeline.events,
        vec![
            ExecutionEvent::Retried {
                target: text("target"),
                function: text("transfer"),
                attempts: 1,
                delay_ms: 500,
            },
            ExecutionEvent::Executed {
                target: text("target"),
                function: text("transfer"),
                success: true,
                attempts: 2,
            },
        ]
    );
    let history = pipeline.get_execution_history(10).unwrap();
    assert_eq!(history.len(), 1);
    assert_eq!(history[0].timestamp, 77);
    assert!(history[0].success);
}

#[test]
fn failed_simulation_blocks_execution() {
    let (_, mut pipeline) = setup();
    assert_eq!(
        pipeline.execute(&request(true, 0), &vec![TIMEOUT, OK], 1),
        Err(ExecutionError::SimulationFailed)
    );
    assert_eq!(pipeline.stats(), (0, 1));
    assert_eq!(
        pipeline.events[pipeline.events.len() - 2],
        ExecutionEvent::Failed {
            target: text("target"),
            function: text("transfer"),
            code: 201,
            attempts: 0,
        }
    );
    assert_eq!(
        *pipeline.events.last().unwrap(),
        ExecutionEvent::Executed {
            target: text("target"),
            function: text("transfer"),
            success: false,
            attempts: 0,
        }
    );
    assert_eq!(pipeline.get_execution_history(10).unwrap().len(), 0);
}

#[test]
fn request_is_rejected_after_all_retries() {
    let (_, mut pipeline) = setup();
    assert_eq!(
        pipeline.execute(&request(false, 9), &vec![TIMEOUT, UNAVAILABLE, TIMEOUT], 1),
        Err(ExecutionError::ContractRejected)
    );
    assert_eq!(pipeline.stats(), (0, 1));
    assert_eq!(pipeline.events.len(), 4);
    assert_eq!(
        pipeline.events[1],
        ExecutionEvent::Retried {
            target: text("target"),
            function: text("transfer"),
            attempts: 2,
            delay_ms: 1000,
        }
    );
    assert_eq!(
        pipeline.events[2],
        ExecutionEvent::Failed {
            target: text("target"),
            function: text("transfer"),
            code: 301,
            attempts: 3,
        }
    );
    assert_eq!(
        pipeline.events[3],
        ExecutionEvent::Executed {
            target: text("target"),
            function: text("transfer"),
            success: false,
            attempts: 3,
        }
    );
    assert!(!pipeline.get_execution_history(1).unwrap()[0].success);
}

#[test]
fn history_is_returned_newest_first() {
    let (_, mut pipeline) = setup();
    for now in 1..4u64 {
        pipeline.execute(&request(false, 0), &vec![OK], now).unwrap();
    }
    let history = pipeline.get_execution_history(2).unwrap();
    assert_eq!(history.len(), 2);
    assert_eq!(history[0].timestamp, 3);
    assert_eq!(history[1].timestamp, 2);
}

#[test]
fn uninitialized_pipeline_refuses_requests() {
    let mut pipeline = RouterExecution::new();
    assert_eq!(
        pipeline.execute(&request(false, 0), &vec![OK], 1),
        Err(ExecutionError::NotInitialized)
    );
    assert_eq!(pipeline.estimate_fee(1, 1), Err(ExecutionError::NotInitialized));
    assert_eq!(pipeline.get_execution_history(1), Err(ExecutionError::NotInitialized));
    assert_eq!(pipeline.admin(), Err(ExecutionError::NotInitialized));
    assert_eq!(
        pipeline.simulate(text("t"), text("f"), true),
        Err(ExecutionError::NotInitialized)
    );
}

#[test]
fn only_network_errors_are_retried() {
    for outcome in [REJECTED, CallOutcome::Failed(100), CallOutcome::Failed(103), CallOutcome::Aborted] {
        assert!(!outcome.transient());
        let (_, mut pipeline) = setup();
        assert_eq!(
            pipeline.execute(&request(false, 9), &vec![outcome, OK, OK], 1),
            Err(ExecutionError::ContractRejected)
        );
        assert_eq!(pipeline.stats(), (0, 1));
        assert_eq!(
            pipeline.events,
            vec![
                ExecutionEvent::Failed {
                    target: text("target"),
                    function: text("transfer"),
                    code: 301,
                    attempts: 1,
                },
                ExecutionEvent::Executed {
                    target: text("target"),
                    function: text("transfer"),
                    success: false,
                    attempts: 1,
                },
            ]
        );
    }
    assert!(TIMEOUT.transient() && UNAVAILABLE.transient() && !OK.transient());
}

#[test]
fn rejection_after_a_network_error_ends_the_request() {
    let (_, mut pipeline) = setup();
    assert_eq!(
        pipeline.execute(&request(false, 9), &vec![UNAVAILABLE, REJECTED, OK], 1),
        Err(ExecutionError::ContractRejected)
    );
    assert_eq!(pipeline.events.len(), 3);
    assert_eq!(
        pipeline.events[1],
        ExecutionEvent::Failed {
            target: text("target"),
            function: text("transfer"),
            code: 301,
            attempts: 2,
        }
    );
}

#[test]
fn run_says_what_an_outcome_counts_as() {
    let (_, mut pipeline) = setup();
    let run = pipeline.begin(&request(true, 1)).unwrap();
    assert_eq!(run.counts(OK), (false, false));
    assert_eq!(run.counts(TIMEOUT), (false, true));
    let Step::Again(run) = pipeline.advance(run, OK, 1) else { panic!("simulated") };
    assert_eq!(run.counts(OK), (true, false));
    assert_eq!(run.counts(TIMEOUT), (false, false));
    assert_eq!(run.counts(REJECTED), (false, true));
    let Step::Again(run) = pipeline.advance(run, TIMEOUT, 1) else { panic!("retried") };
    assert_eq!(run.counts(TIMEOUT), (false, true));
    assert!(matches!(
        pipeline.advance(run, TIMEOUT, 1),
        Step::Done(Err(ExecutionError::ContractRejected))
    ));
}
