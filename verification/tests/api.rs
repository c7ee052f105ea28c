use stellar_router::api::cors::{build_cors_policy, CorsPolicy};
use stellar_router::api::handlers::{
    check_core_configured, check_simulate_request, get_route, health, list_routes, simulate,
};
use stellar_router::api::rate_limit::{
    client_key, RateLimitConfig, RateLimitReply, RateLimiter, NANOS_PER_SEC, RATE_LIMIT_EXCEEDED,
    TOO_MANY_REQUESTS,
};
use stellar_router::api::rpc::{
    InvocationResult, RpcError, RpcReply, SimulateTransactionResult, SorobanRpcClient,
};
use stellar_router::api::state::{AppState, MAX_WS_CONNECTIONS};
use stellar_router::api::types::{
    default_amount, default_fee_bps, ErrorCode, RouteEntryResponse, SimulateRequest,
    TransactionStatus, TransactionStatusEvent,
};
use stellar_router::api::xdr::{base64_decode, decode_string_vec_xdr};
use stellar_router::json::Json;

/// Valid 56-char Stellar contract ID for use in tests.
const VALID_CONTRACT_ID: &str = "CAAAAAAAAAAAAAAAAAAAAAAAAAAAAAAAAAAAAAAAAAAAAAAAAAAABSC4";

fn limiter(max: u32, window_secs: u64) -> RateLimiter {
    RateLimiter::new(RateLimitConfig::per_seconds(max, window_secs))
}

fn ws_app_state() -> AppState {
    AppState::new(
        "http://localhost:1".to_string(),
        "".to_string(),
        "".to_string(),
        RateLimiter::new(RateLimitConfig::default()),
    )
}

fn make_event(tx_id: &str, status: TransactionStatus) -> TransactionStatusEvent {
    TransactionStatusEvent {
        tx_id: tx_id.to_string(),
        status,
        timestamp: "2026-01-01T00:00:00Z".to_string(),
        message: None,
    }
}

fn simulate_request(target: &str, function: &str, network_load_bps: u32) -> SimulateRequest {
    SimulateRequest {
        target: target.to_string(),
        function: function.to_string(),
        amount: default_amount(),
        fee_bps: default_fee_bps(),
        network_load_bps,
        route_details: None,
    }
}

fn unreachable_rpc<T>() -> Result<RpcReply<T>, RpcError> {
    Err(RpcError::Transport("connection refused".to_string()))
}

#[test]
fn allows_requests_within_limit() {
    let mut rl = limiter(3, 60);
    assert!(rl.check("127.0.0.1"));
    assert!(rl.check("127.0.0.1"));
    assert!(rl.check("127.0.0.1"));
}

#[test]
fn rejects_request_over_limit() {
    let mut rl = limiter(2, 60);
    rl.check("10.0.0.1");
    rl.check("10.0.0.1");
    assert!(!rl.check("10.0.0.1"));
}

#[test]
fn different_keys_are_independent() {
    let mut rl = limiter(1, 60);
    assert!(rl.check("192.168.1.1"));
    assert!(rl.check("192.168.1.2"));
    assert!(!rl.check("192.168.1.1"));
}

#[test]
fn mixed_clients_are_counted_apart() {
    let mut rl = limiter(2, 10);
    for (k, t) in [1u128, 2, 3, 4, 5].into_iter().enumerate() {
        assert_eq!(rl.check_at("a", t), k < 2);
        assert_eq!(rl.remaining_at("a", t), 2u32.saturating_sub(k as u32 + 1));
        rl.check_at("b", t);
        rl.check_at("c", t);
    }
    assert!(!rl.check_at("b", 6));
    assert!(rl.check_at("a", 1 + 10 * NANOS_PER_SEC));
    assert_eq!(rl.remaining_at("a", 1 + 10 * NANOS_PER_SEC), 1);
}

#[test]
fn window_restarts_when_it_is_over() {
    let mut rl = limiter(2, 10);
    let start = 5 * NANOS_PER_SEC;
    assert!(rl.check_at("k", start));
    assert!(rl.check_at("k", start + 1));
    assert!(!rl.check_at("k", start + 10 * NANOS_PER_SEC - 1));
    assert_eq!(rl.remaining_at("k", start + 10 * NANOS_PER_SEC - 1), 0);
    assert_eq!(rl.remaining_at("k", start + 10 * NANOS_PER_SEC), 2);
    assert!(rl.check_at("k", start + 10 * NANOS_PER_SEC));
    assert_eq!(rl.remaining_at("k", start + 10 * NANOS_PER_SEC), 1);
}

#[test]
fn retry_is_in_whole_seconds_and_at_least_one() {
    let mut rl = limiter(1, 10);
    assert_eq!(rl.retry_after_secs_at("k", 0), 1);
    rl.check_at("k", 0);
    assert_eq!(rl.retry_after_secs_at("k", 0), 10);
    assert_eq!(rl.retry_after_secs_at("k", NANOS_PER_SEC / 2), 9);
    assert_eq!(rl.retry_after_secs_at("k", 10 * NANOS_PER_SEC - 1), 1);
    assert_eq!(rl.retry_after_secs_at("k", 20 * NANOS_PER_SEC), 1);
}

#[test]
fn limiter_by_the_clock_reports_what_is_left() {
    let mut rl = limiter(3, 3600);
    assert_eq!(rl.max_requests(), 3);
    assert_eq!(rl.remaining("k"), 3);
    rl.check("k");
    assert_eq!(rl.remaining("k"), 2);
    let wait = rl.retry_after_secs("k");
    assert!(wait >= 3500 && wait <= 3600);
}

#[test]
fn default_limit_is_hundred_a_minute() {
    let config = RateLimitConfig::default();
    assert_eq!(config.max_requests, 100);
    assert_eq!(config.window_nanos, 60 * NANOS_PER_SEC);
}

#[test]
fn api_key_identifies_the_client() {
    assert_eq!(client_key(Some("key".to_string()), "10.0.0.1".to_string()), "key");
    assert_eq!(client_key(None, "10.0.0.1".to_string()), "10.0.0.1");
}

#[test]
fn test_simulate_rate_limit_headers_and_rejects_after_limit() {
    let mut rl = RateLimiter::new(RateLimitConfig::default());
    for i in 0..100u32 {
        assert_eq!(
            rl.answer("127.0.0.1"),
            RateLimitReply::Allowed { limit: 100, remaining: 99 - i }
        );
    }
    match rl.answer("127.0.0.1") {
        RateLimitReply::Rejected { message, retry_after_secs } => {
            assert!(retry_after_secs >= 1 && retry_after_secs <= 60);
            assert_eq!(
                message,
                format!("Too many requests. Retry after {} second(s).", retry_after_secs)
            );
        }
        RateLimitReply::Allowed { .. } => panic!("over the limit"),
    }
    assert_eq!(TOO_MANY_REQUESTS, 429);
    assert_eq!(RATE_LIMIT_EXCEEDED, "rate_limit_exceeded");
}

#[test]
fn test_health_returns_503_when_rpc_unreachable() {
    assert_eq!(health(false).status_code, 503);
}

#[test]
fn test_health_returns_degraded_body_when_rpc_down() {
    let report = health(false);
    assert_eq!(report.status, "degraded");
    assert_eq!(report.rpc, Some("down"));
    let report = health(true);
    assert_eq!(report.status_code, 200);
    assert_eq!(report.status, "ok");
    assert_eq!(report.rpc, None);
}

#[test]
fn test_simulate_returns_200_with_valid_request() {
    let fees = SorobanRpcClient::simulate(unreachable_rpc(), 1_000_000, 5000);
    assert!(simulate(simulate_request(VALID_CONTRACT_ID, "transfer", 5000), fees).is_ok());
}

#[test]
fn test_simulate_response_has_fee_fields() {
    let fees = SorobanRpcClient::simulate(unreachable_rpc(), default_amount(), 0);
    let parsed = simulate(simulate_request(VALID_CONTRACT_ID, "transfer", 0), fees).unwrap();
    assert!(parsed.estimated_fees.base_fee > 0);
    assert!(parsed.estimated_fees.total_fee >= parsed.estimated_fees.base_fee);
    assert!(parsed.estimated_fees.fee_estimated);
    assert_eq!(parsed.estimated_fees.resource_fee, 1000);
    assert_eq!(parsed.estimated_fees.total_fee, 1100);
    assert_eq!(parsed.simulation.target, VALID_CONTRACT_ID);
    assert_eq!(parsed.simulation.function, "transfer");
    assert_eq!(parsed.message, "Simulation successful");
}

#[test]
fn test_simulate_surge_pricing_at_high_load() {
    let fees = SorobanRpcClient::simulate(unreachable_rpc(), 1_000_000, 9000);
    let parsed = simulate(simulate_request(VALID_CONTRACT_ID, "transfer", 9000), fees).unwrap();
    assert!(parsed.estimated_fees.high_load);
    assert_eq!(parsed.estimated_fees.surge_multiplier, 200);
    assert_eq!(parsed.estimated_fees.total_fee, 2200);
}

#[test]
fn test_simulate_missing_target_returns_400() {
    let (status, _) = check_simulate_request(&simulate_request("", "transfer", 0)).unwrap_err();
    assert_eq!(status, 400);
}

#[test]
fn test_simulate_missing_function_returns_400() {
    let req = simulate_request(VALID_CONTRACT_ID, "", 0);
    let (status, body) = check_simulate_request(&req).unwrap_err();
    assert_eq!(status, 400);
    assert_eq!(body.error.message, "target and function are required");
    assert_eq!(body.error.field, None);
}

#[test]
fn test_simulate_invalid_contract_id_returns_400() {
    let req = simulate_request("not-a-valid-contract-id", "transfer", 0);
    let (status, body) = check_simulate_request(&req).unwrap_err();
    assert_eq!(status, 400);
    assert!(body.error.message.contains("56-character"));
    assert_eq!(body.error.code.wire_name(), "VALIDATION_ERROR");
    assert_eq!(body.error.field.as_deref(), Some("target"));
}

#[test]
fn test_simulate_contract_id_not_starting_with_c_returns_400() {
    let req = simulate_request(
        "GAAAAAAAAAAAAAAAAAAAAAAAAAAAAAAAAAAAAAAAAAAAAAAAAAAABSC4",
        "transfer",
        0,
    );
    let (status, _) = check_simulate_request(&req).unwrap_err();
    assert_eq!(status, 400);
}

#[test]
fn test_simulate_empty_body_returns_400_or_422() {
    let (status, _) = check_simulate_request(&simulate_request("", "", 0)).unwrap_err();
    assert!(status == 400 || status == 422);
}

#[test]
fn test_get_route_returns_500_when_core_not_configured() {
    let client = SorobanRpcClient::new("http://localhost:1".to_string(), None);
    let error = client.get_route_transaction("oracle").unwrap_err();
    assert_eq!(error, RpcError::NotConfigured);
    let (status, body) = get_route("oracle", Err(error)).unwrap_err();
    assert_eq!(status, 500);
    assert_eq!(body.error.code, ErrorCode::InternalError);
    assert_eq!(body.error.message, "ROUTER_CORE_CONTRACT_ID not configured");
}

#[test]
fn test_get_route_error_response_is_json() {
    let outcome = SorobanRpcClient::get_route(unreachable_rpc());
    let (status, body) = get_route("nonexistent", outcome).unwrap_err();
    assert_eq!(status, 500);
    assert_eq!(body.error.code.wire_name(), "RPC_ERROR");
    assert_eq!(body.error.message, "connection refused");
}

#[test]
fn test_error_response_has_structured_fields() {
    let req = simulate_request("TOOSHORT", "transfer", 0);
    let (status, body) = check_simulate_request(&req).unwrap_err();
    assert_eq!(status, 400);
    assert_eq!(body.error.code.wire_name(), "VALIDATION_ERROR");
    assert!(!body.error.message.is_empty());
    assert_eq!(body.error.field.as_deref(), Some("target"));
}

#[test]
fn test_error_code_serialization() {
    let code = |c: ErrorCode| serde_json::to_string(c.wire_name()).unwrap();
    assert_eq!(code(ErrorCode::ValidationError), "\"VALIDATION_ERROR\"");
    assert_eq!(code(ErrorCode::RpcError), "\"RPC_ERROR\"");
    assert_eq!(code(ErrorCode::NotFound), "\"NOT_FOUND\"");
    assert_eq!(code(ErrorCode::InternalError), "\"INTERNAL_ERROR\"");
    assert_eq!(code(ErrorCode::ContractError), "\"CONTRACT_ERROR\"");
}

#[test]
fn test_transaction_status_serializes_to_uppercase_strings() {
    let status = |s: TransactionStatus| serde_json::to_string(s.wire_name()).unwrap();
    assert_eq!(status(TransactionStatus::Pending), "\"PENDING\"");
    assert_eq!(status(TransactionStatus::Submitted), "\"SUBMITTED\"");
    assert_eq!(status(TransactionStatus::Confirmed), "\"CONFIRMED\"");
    assert_eq!(status(TransactionStatus::Failed), "\"FAILED\"");
}

#[test]
fn test_subscriber_add_and_remove_is_symmetric() {
    let mut state = ws_app_state();
    let tx_id = "tx_reconnect_001".to_string();

    state.add_subscriber(tx_id.clone());
    assert_eq!(*state.tx_subscribers.get(&tx_id).unwrap(), 1);

    state.remove_subscriber(&tx_id);
    assert!(state.tx_subscribers.get(&tx_id).is_none());

    state.add_subscriber(tx_id.clone());
    assert_eq!(*state.tx_subscribers.get(&tx_id).unwrap(), 1);

    state.remove_subscriber(&tx_id);
    assert!(state.tx_subscribers.get(&tx_id).is_none());
}

#[test]
fn test_concurrent_clients_have_independent_subscription_counts() {
    let mut state = ws_app_state();
    let tx_id = "tx_concurrent_001".to_string();

    state.add_subscriber(tx_id.clone());
    state.add_subscriber(tx_id.clone());
    state.add_subscriber(tx_id.clone());
    assert_eq!(*state.tx_subscribers.get(&tx_id).unwrap(), 3);

    state.remove_subscriber(&tx_id);
    assert_eq!(*state.tx_subscribers.get(&tx_id).unwrap(), 2);

    state.remove_subscriber(&tx_id);
    assert_eq!(*state.tx_subscribers.get(&tx_id).unwrap(), 1);

    state.remove_subscriber(&tx_id);
    assert!(state.tx_subscribers.get(&tx_id).is_none());
}

#[test]
fn leavers_are_counted() {
    for m in 0..4usize {
        for k in 0..6usize {
            let mut state = ws_app_state();
            state.add_subscriber("other".to_string());
            for _ in 0..m {
                state.add_subscriber("tx".to_string());
            }
            for _ in 0..k {
                state.remove_subscriber("tx");
            }
            let left = state.tx_subscribers.get("tx").map(|count| *count);
            assert_eq!(left, if k < m { Some(m - k) } else { None });
            assert_eq!(*state.tx_subscribers.get("other").unwrap(), 1);
        }
    }
}

#[test]
fn test_concurrent_clients_different_tx_ids_are_independent() {
    let mut state = ws_app_state();
    let tx_a = "tx_a".to_string();
    let tx_b = "tx_b".to_string();

    state.add_subscriber(tx_a.clone());
    state.add_subscriber(tx_b.clone());
    state.add_subscriber(tx_b.clone());

    assert_eq!(*state.tx_subscribers.get(&tx_a).unwrap(), 1);
    assert_eq!(*state.tx_subscribers.get(&tx_b).unwrap(), 2);

    state.remove_subscriber(&tx_b);
    assert_eq!(*state.tx_subscribers.get(&tx_a).unwrap(), 1);
    assert_eq!(*state.tx_subscribers.get(&tx_b).unwrap(), 1);
}

#[test]
fn test_broadcast_delivered_to_all_subscribed_receivers() {
    let mut state = ws_app_state();
    let mut rx1 = state.tx_status_tx.subscribe();
    let mut rx2 = state.tx_status_tx.subscribe();

    let event = make_event("tx_broadcast_001", TransactionStatus::Pending);
    state.broadcast_status(event.clone());

    let recv1 = rx1.try_recv().expect("rx1 should receive the event");
    let recv2 = rx2.try_recv().expect("rx2 should receive the event");
    assert_eq!(recv1.tx_id, event.tx_id);
    assert_eq!(recv2.tx_id, event.tx_id);
}

#[test]
fn test_late_subscriber_does_not_receive_past_events() {
    let mut state = ws_app_state();
    state.broadcast_status(make_event("tx_past", TransactionStatus::Confirmed));
    let mut rx_late = state.tx_status_tx.subscribe();
    assert!(rx_late.try_recv().is_err());
}

#[test]
fn test_status_transitions_pending_submitted_confirmed() {
    let mut state = ws_app_state();
    let mut rx = state.tx_status_tx.subscribe();
    let tx_id = "tx_lifecycle_001";

    state.broadcast_status(make_event(tx_id, TransactionStatus::Pending));
    state.broadcast_status(make_event(tx_id, TransactionStatus::Submitted));
    state.broadcast_status(make_event(tx_id, TransactionStatus::Confirmed));

    let e1 = rx.try_recv().unwrap();
    let e2 = rx.try_recv().unwrap();
    let e3 = rx.try_recv().unwrap();
    assert_eq!(e1.status, TransactionStatus::Pending);
    assert_eq!(e2.status, TransactionStatus::Submitted);
    assert_eq!(e3.status, TransactionStatus::Confirmed);
    assert_eq!(e1.tx_id, tx_id);
    assert_eq!(e2.tx_id, tx_id);
    assert_eq!(e3.tx_id, tx_id);
}

#[test]
fn test_status_transition_pending_to_failed() {
    let mut state = ws_app_state();
    let mut rx = state.tx_status_tx.subscribe();
    let tx_id = "tx_fail_001";

    state.broadcast_status(make_event(tx_id, TransactionStatus::Pending));
    state.broadcast_status(make_event(tx_id, TransactionStatus::Failed));

    let e1 = rx.try_recv().unwrap();
    let e2 = rx.try_recv().unwrap();
    assert_eq!(e1.status, TransactionStatus::Pending);
    assert_eq!(e2.status, TransactionStatus::Failed);
}

#[test]
fn test_independent_tx_id_streams_do_not_interfere() {
    let mut state = ws_app_state();
    let mut rx = state.tx_status_tx.subscribe();

    state.broadcast_status(make_event("tx_aaa", TransactionStatus::Pending));
    state.broadcast_status(make_event("tx_bbb", TransactionStatus::Submitted));
    state.broadcast_status(make_event("tx_aaa", TransactionStatus::Confirmed));

    let e1 = rx.try_recv().unwrap();
    let e2 = rx.try_recv().unwrap();
    let e3 = rx.try_recv().unwrap();
    assert_eq!(e1.tx_id, "tx_aaa");
    assert_eq!(e1.status, TransactionStatus::Pending);
    assert_eq!(e2.tx_id, "tx_bbb");
    assert_eq!(e2.status, TransactionStatus::Submitted);
    assert_eq!(e3.tx_id, "tx_aaa");
    assert_eq!(e3.status, TransactionStatus::Confirmed);
}

#[test]
fn test_broadcast_channel_has_adequate_capacity() {
    let state = ws_app_state();
    let _receivers: Vec<_> = (0..100).map(|_| state.tx_status_tx.subscribe()).collect();
}

#[test]
fn channel_retains_a_thousand_events() {
    let mut state = ws_app_state();
    let mut rx = state.tx_status_tx.subscribe();
    for i in 0..1000 {
        state.broadcast_status(make_event(&format!("tx{}", i), TransactionStatus::Pending));
    }
    assert_eq!(rx.try_recv().unwrap().tx_id, "tx0");
}

#[test]
fn test_channel_remains_usable_after_all_subscribers_disconnect() {
    let mut state = ws_app_state();
    {
        let _rx = state.tx_status_tx.subscribe();
    }
    let mut rx_new = state.tx_status_tx.subscribe();
    state.broadcast_status(make_event("tx_after_reconnect", TransactionStatus::Pending));
    let event = rx_new.try_recv().unwrap();
    assert_eq!(event.tx_id, "tx_after_reconnect");
    assert_eq!(event.status, TransactionStatus::Pending);
}

#[test]
fn connections_are_limited() {
    let mut state = ws_app_state();
    for _ in 0..MAX_WS_CONNECTIONS {
        assert!(state.try_acquire_ws_connection());
    }
    assert!(!state.try_acquire_ws_connection());
    assert_eq!(state.ws_connection_count, 100);
    state.release_ws_connection();
    assert!(state.try_acquire_ws_connection());
}

#[test]
fn simulation_fees_come_from_the_reply() {
    let reply = |fee: &str, error: Option<String>| {
        Ok(RpcReply {
            result: Some(SimulateTransactionResult {
                min_resource_fee: fee.to_string(),
                error,
            }),
            error: None,
        })
    };
    let fees = SorobanRpcClient::simulate(reply("2500", None), 1, 7_999);
    assert_eq!(fees.resource_fee, 2500);
    assert_eq!(fees.total_fee, 2600);
    assert_eq!(fees.surge_multiplier, 100);
    assert!(!fees.high_load && fees.would_succeed && !fees.fee_estimated);

    let fees = SorobanRpcClient::simulate(reply("not a fee", Some("boom".to_string())), 1, 8_000);
    assert_eq!(fees.resource_fee, 1000);
    assert_eq!(fees.total_fee, 2200);
    assert!(fees.high_load && !fees.would_succeed && !fees.fee_estimated);

    assert_eq!(
        SorobanRpcClient::try_simulate(reply("9223372036854775807", None), 1, 0),
        None
    );
    assert_eq!(
        SorobanRpcClient::try_simulate(reply("2500", None), 1, 0).unwrap().total_fee,
        2600
    );
}

#[test]
fn refused_simulation_is_estimated() {
    let refused = Ok(RpcReply { result: None, error: Some("no".to_string()) });
    let fees = SorobanRpcClient::simulate(refused, 5_000_000, 0);
    assert!(fees.fee_estimated && fees.would_succeed);
    assert_eq!(fees.resource_fee, 5000);
    let fees = SorobanRpcClient::heuristic_estimate(-7, 0);
    assert_eq!(fees.resource_fee, 100);
    assert_eq!(fees.total_fee, 200);
}

#[test]
fn failing_simulation_is_reported() {
    let mut fees = SorobanRpcClient::heuristic_estimate(0, 0);
    fees.would_succeed = false;
    let response = simulate(simulate_request(VALID_CONTRACT_ID, "f", 0), fees).unwrap();
    assert!(!response.success);
    assert_eq!(response.message, "Simulation indicates transaction would fail");
}

#[test]
fn transactions_name_what_they_ask() {
    assert_eq!(
        SorobanRpcClient::simulate_transaction("CID", "fn"),
        "AAAAAgAAAAEAAAAACIDfnAAAAAAAAAAA="
    );
    assert_eq!(
        SorobanRpcClient::get_all_routes_transaction("CID"),
        "AAAAAgAAAAEAAAAACIDget_all_routesAAAAAAAAAAAA="
    );
    let client = SorobanRpcClient::new("u".to_string(), Some("CID".to_string()));
    assert_eq!(client.get_route_transaction("oracle"), Ok("get_route:CID:oracle".to_string()));
}

fn text(s: &str) -> Json {
    Json::Text(s.to_string())
}

fn object(members: Vec<(&str, Json)>) -> Json {
    Json::Object(members.into_iter().map(|(k, v)| (k.to_string(), v)).collect())
}

fn item(key: &str, val: Json) -> Json {
    object(vec![("key", object(vec![("sym", text(key))])), ("val", val)])
}

fn route_result(items: Vec<Json>) -> Json {
    object(vec![(
        "results",
        Json::Array(vec![object(vec![("xdr", object(vec![("map", Json::Array(items))]))])]),
    )])
}

#[test]
fn route_is_read_from_its_map() {
    let result = route_result(vec![
        item("address", object(vec![("address", text("CADDR"))])),
        item("name", object(vec![("str", text("oracle"))])),
        item("paused", object(vec![("b", Json::Bool(true))])),
        item("updated_by", object(vec![("address", text("GADMIN"))])),
        item("other", Json::Null),
        item(
            "metadata",
            object(vec![(
                "map",
                Json::Array(vec![
                    item("description", object(vec![("str", text("prices"))])),
                    item("owner", object(vec![("address", text("GOWNER"))])),
                    item(
                        "tags",
                        object(vec![(
                            "vec",
                            Json::Array(vec![
                                object(vec![("str", text("defi"))]),
                                Json::Null,
                                object(vec![("str", text("oracle"))]),
                            ]),
                        )]),
                    ),
                ]),
            )]),
        ),
    ]);
    let entry = SorobanRpcClient::parse_route_entry_from_rpc(&result).unwrap();
    assert_eq!(entry.address, "CADDR");
    assert_eq!(entry.name, "oracle");
    assert!(entry.paused);
    assert_eq!(entry.updated_by, "GADMIN");
    let metadata = entry.metadata.unwrap();
    assert_eq!(metadata.description, "prices");
    assert_eq!(metadata.owner, "GOWNER");
    assert_eq!(metadata.tags, vec!["defi".to_string(), "oracle".to_string()]);
}

#[test]
fn order_of_items_and_later_results_do_not_matter() {
    let address = || item("address", object(vec![("address", text("CADDR"))]));
    let name = || item("name", object(vec![("str", text("oracle"))]));
    let paused = || item("paused", object(vec![("b", Json::Bool(true))]));
    let parse = |v: &Json| SorobanRpcClient::parse_route_entry_from_rpc(v);
    let entry = parse(&route_result(vec![address(), name(), paused()]));
    assert!(entry.is_some());
    assert_eq!(parse(&route_result(vec![paused(), address(), name()])), entry);
    let others = vec![
        item("other", object(vec![("address", text("CX"))])),
        paused(),
        Json::Null,
        name(),
        address(),
        item("other", Json::Null),
    ];
    assert_eq!(parse(&route_result(others)), entry);
    let map = |items: Vec<Json>| object(vec![("xdr", object(vec![("map", Json::Array(items))]))]);
    let two = object(vec![(
        "results",
        Json::Array(vec![
            map(vec![address(), name(), paused()]),
            map(vec![item("address", object(vec![("address", text("CX"))]))]),
        ]),
    )]);
    assert_eq!(parse(&two), entry);
}

#[test]
fn later_items_of_a_map_win() {
    let result = route_result(vec![
        item("address", object(vec![("address", text("CFIRST"))])),
        item("address", object(vec![("address", text("CLAST"))])),
        item("metadata", object(vec![("map", Json::Array(vec![]))])),
        item("metadata", Json::Null),
    ]);
    let entry = SorobanRpcClient::parse_route_entry_from_rpc(&result).unwrap();
    assert_eq!(entry.address, "CLAST");
    assert_eq!(entry.name, "");
    assert!(!entry.paused);
    assert!(entry.metadata.is_some());
}

#[test]
fn result_without_route_is_none() {
    let parse = |v: &Json| SorobanRpcClient::parse_route_entry_from_rpc(v);
    assert_eq!(parse(&Json::Null), None);
    assert_eq!(parse(&object(vec![("error", text("x"))])), None);
    assert_eq!(parse(&object(vec![("results", Json::Array(vec![]))])), None);
    assert_eq!(parse(&object(vec![("results", Json::Array(vec![Json::Null]))])), None);
    assert_eq!(parse(&route_result(vec![])), None);
    assert_eq!(
        parse(&route_result(vec![item("address", object(vec![("address", text(""))]))])),
        None
    );
}

#[test]
fn route_replies_become_responses() {
    let refused = Ok(RpcReply { result: None, error: Some("bad request".to_string()) });
    let error = SorobanRpcClient::get_route(refused).unwrap_err();
    assert_eq!(error.message(), "RPC error: bad request");

    let empty: Result<RpcReply<Json>, RpcError> = Ok(RpcReply { result: None, error: None });
    let outcome = SorobanRpcClient::get_route(empty);
    assert_eq!(outcome, Ok(None));
    let (status, body) = get_route("oracle", outcome).unwrap_err();
    assert_eq!(status, 404);
    assert_eq!(body.error.code, ErrorCode::NotFound);
    assert_eq!(body.error.message, "route 'oracle' not found");

    let entry = RouteEntryResponse {
        address: "C".to_string(),
        name: "oracle".to_string(),
        paused: false,
        updated_by: "G".to_string(),
        metadata: None,
    };
    assert_eq!(get_route("oracle", Ok(Some(entry))).unwrap().address, "C");

    let (status, body) =
        get_route("oracle", Err(RpcError::Contract("boom".to_string()))).unwrap_err();
    assert_eq!(status, 500);
    assert_eq!(body.error.code, ErrorCode::ContractError);
    assert_eq!(body.error.message, "contract error: boom");
}

#[test]
fn decoding_undoes_encoding() {
    const DIGITS: &[u8] = b"ABCDEFGHIJKLMNOPQRSTUVWXYZabcdefghijklmnopqrstuvwxyz0123456789+/";
    let mut bytes: Vec<u8> = Vec::new();
    for n in 0..260usize {
        let mut encoding = String::new();
        for group in bytes.chunks(3) {
            let b = |i: usize| *group.get(i).unwrap_or(&0) as usize;
            let digits = [b(0) / 4, b(0) % 4 * 16 + b(1) / 16, b(1) % 16 * 4 + b(2) / 64, b(2) % 64];
            for d in &digits[..group.len() + 1] {
                encoding.push(DIGITS[*d] as char);
            }
        }
        assert_eq!(base64_decode(&encoding), Some(bytes.clone()));
        while encoding.len() % 4 != 0 {
            encoding.push('=');
        }
        assert_eq!(base64_decode(&encoding), Some(bytes.clone()));
        bytes.push((n * 37 % 256) as u8);
    }
}

#[test]
fn base64_text_decodes() {
    assert_eq!(base64_decode("aGVsbG8="), Some(b"hello".to_vec()));
    assert_eq!(base64_decode("aGVsbG8"), Some(b"hello".to_vec()));
    assert_eq!(base64_decode("aGVsbG8h"), Some(b"hello!".to_vec()));
    assert_eq!(base64_decode("aGVsbA=="), Some(b"hell".to_vec()));
    assert_eq!(base64_decode("+/+/"), Some(vec![0xfb, 0xff, 0xbf]));
    assert_eq!(base64_decode(""), Some(vec![]));
    assert_eq!(base64_decode("===="), Some(vec![]));
    assert_eq!(base64_decode("a"), None);
    assert_eq!(base64_decode("ab*d"), None);
    assert_eq!(base64_decode("a\u{e9}=="), None);
}

#[test]
fn string_list_decodes_from_xdr() {
    // 16, 1, 2, then 14, 6, "oracle" + 2 bytes, 14, 3, "dex" + 1 byte
    let xdr = "AAAAEAAAAAEAAAACAAAADgAAAAZvcmFjbGUAAAAAAA4AAAADZGV4AA==";
    assert_eq!(
        decode_string_vec_xdr(xdr),
        Some(vec!["oracle".to_string(), "dex".to_string()])
    );
    assert_eq!(decode_string_vec_xdr("AAAAEAAAAAEAAAAA"), Some(vec![]));
    assert_eq!(decode_string_vec_xdr("AAAAEAAAAAEAAAAB"), None);
    assert_eq!(decode_string_vec_xdr("not base64"), None);
    // one string of the single byte 0xff, which is no UTF-8
    assert_eq!(decode_string_vec_xdr("AAAAEAAAAAEAAAABAAAADgAAAAH/AAAA"), None);
}

#[test]
fn all_routes_come_from_the_first_value() {
    let reply = |results: Vec<String>, error: Option<String>| {
        Ok(RpcReply { result: Some(InvocationResult { error, results }), error: None })
    };
    let xdr = "AAAAEAAAAAEAAAACAAAADgAAAAZvcmFjbGUAAAAAAA4AAAADZGV4AA==".to_string();
    let outcome = SorobanRpcClient::get_all_routes(reply(vec![xdr], None));
    assert_eq!(outcome, Ok(vec!["oracle".to_string(), "dex".to_string()]));
    assert_eq!(list_routes("CID", outcome), Ok(vec!["oracle".to_string(), "dex".to_string()]));
    assert_eq!(SorobanRpcClient::get_all_routes(reply(vec![], None)), Ok(vec![]));
    assert_eq!(
        SorobanRpcClient::get_all_routes(reply(vec!["?".to_string()], None)),
        Ok(vec![])
    );
    assert_eq!(
        SorobanRpcClient::get_all_routes(reply(vec![], Some("boom".to_string()))),
        Err(RpcError::Contract("boom".to_string()))
    );
    let empty = Ok(RpcReply { result: None, error: None });
    let error = SorobanRpcClient::get_all_routes(empty).unwrap_err();
    assert_eq!(error, RpcError::EmptyResult);
    assert_eq!(list_routes("CID", Err(error)), Err((500, "empty RPC result".to_string())));
    let refused = Ok(RpcReply { result: None, error: Some("no".to_string()) });
    assert_eq!(
        SorobanRpcClient::get_all_routes(refused),
        Err(RpcError::Rpc("no".to_string()))
    );
}

#[test]
fn routes_need_a_contract() {
    let refusal = (503, "ROUTER_CORE_CONTRACT_ID not configured".to_string());
    assert_eq!(check_core_configured(""), Err(refusal.clone()));
    assert_eq!(check_core_configured("CID"), Ok(()));
    assert_eq!(list_routes("", Ok(vec![])), Err(refusal));
}

#[test]
fn cors_policy_follows_the_origins() {
    let origins = |list: &[&str]| list.iter().map(|o| o.to_string()).collect::<Vec<String>>();
    assert_eq!(build_cors_policy(&vec![]), CorsPolicy::Disabled);
    assert_eq!(build_cors_policy(&origins(&["https://a.example", "*"])), CorsPolicy::AnyOrigin);
    assert_eq!(
        build_cors_policy(&origins(&["https://a.example", "bad\norigin", "tab\tok", "\u{7f}"])),
        CorsPolicy::Origins(origins(&["https://a.example", "tab\tok"]))
    );
}
