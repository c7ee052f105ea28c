use stellar_router::json::Json;
use stellar_router::metrics::auth::{
    extract_api_key, strip_prefix, AuthConfig, AuthError, KeyHeaders,
};
use stellar_router::metrics::cli::Args;
use stellar_router::metrics::collector::{
    contains_text, encode_contract_data_key, encode_string_arg, extract_circuit_breaker_state,
    extract_route_paused, extract_u64_from_entry, number_of_entry, Answer, Collector, Query,
    ScrapeStep,
};
use stellar_router::metrics::gauges::RouterMetrics;
use stellar_router::metrics::rpc::{
    build_invoke_xdr, extract_bool_from_sim_result, extract_string_vec_from_sim_result,
    extract_u64_from_sim_result, instance_storage_key_xdr, reply_result, ContractEvent,
    LedgerEntry, MockRpcClient, RpcClient, RpcError, RpcReply, SorobanRpcClient,
};

fn text(s: &str) -> Json {
    Json::Text(s.to_string())
}

fn object(members: Vec<(&str, Json)>) -> Json {
    Json::Object(members.into_iter().map(|(k, v)| (k.to_string(), v)).collect())
}

fn retval(value: Json) -> Json {
    object(vec![("results", Json::Array(vec![object(vec![("retval", value)])]))])
}

fn breaker(is_open: bool, failure_count: u64, opened_at: u64) -> Json {
    object(vec![(
        "some",
        object(vec![
            ("is_open", Json::Bool(is_open)),
            ("failure_count", Json::Unsigned(failure_count)),
            ("opened_at", Json::Unsigned(opened_at)),
        ]),
    )])
}

fn collector(core: &str, middleware: &str, registry: &str, quote: &str, execution: &str) -> Collector {
    let args = Args {
        rpc_url: String::new(),
        network_passphrase: String::new(),
        core_contract_id: core.to_string(),
        middleware_contract_id: middleware.to_string(),
        registry_contract_id: registry.to_string(),
        quote_contract_id: quote.to_string(),
        execution_contract_id: execution.to_string(),
        scrape_interval_secs: 15,
        listen: "0.0.0.0:9090".to_string(),
        rpc_timeout_secs: 10,
    };
    Collector::new(args, RouterMetrics::new())
}

fn headers(authorization: Option<&str>, x_api_key: Option<&str>) -> KeyHeaders {
    KeyHeaders {
        authorization: authorization.map(|s| s.to_string()),
        x_api_key: x_api_key.map(|s| s.to_string()),
    }
}

fn key(id: &str) -> String {
    id.to_string()
}

fn pair(id: &str, route: &str) -> (String, String) {
    (id.to_string(), route.to_string())
}

#[test]
fn test_extract_bearer_token() {
    let key = extract_api_key(&headers(Some("Bearer test-key-123"), None));
    assert_eq!(key, Some("test-key-123".to_string()));
}

#[test]
fn test_extract_api_key_header() {
    let key = extract_api_key(&headers(None, Some("test-key-456")));
    assert_eq!(key, Some("test-key-456".to_string()));
}

#[test]
fn test_extract_api_key_missing() {
    let key = extract_api_key(&headers(None, None));
    assert_eq!(key, None);
}

#[test]
fn test_bearer_token_takes_precedence() {
    let key = extract_api_key(&headers(Some("Bearer bearer-key"), Some("api-key")));
    assert_eq!(key, Some("bearer-key".to_string()));
}

#[test]
fn other_authorization_falls_back_to_the_key_header() {
    assert_eq!(
        extract_api_key(&headers(Some("Basic abc"), Some("api-key"))),
        Some("api-key".to_string())
    );
    assert_eq!(extract_api_key(&headers(Some("bearer abc"), None)), None);
    assert_eq!(strip_prefix("Bearer ", "Bearer "), Some(String::new()));
    assert_eq!(strip_prefix("\u{e9}t\u{e9}", "\u{e9}"), Some("t\u{e9}".to_string()));
    assert_eq!(strip_prefix("Bea", "Bearer "), None);
}

#[test]
fn authentication_needs_a_key_and_the_switch() {
    let config = |enabled: Option<&str>, key: Option<&str>| {
        AuthConfig::from_env(enabled.map(|s| s.to_string()), key.map(|s| s.to_string()))
    };
    assert!(config(Some("true"), Some("k")).enabled);
    assert!(config(Some("TrUe"), Some("k")).enabled);
    assert!(!config(Some("yes"), Some("k")).enabled);
    assert!(!config(Some("true"), None).enabled);
    assert!(!config(None, Some("k")).enabled);
    assert_eq!(config(None, Some("k")).api_key, Some("k".to_string()));
}

#[test]
fn requests_are_let_through_or_refused() {
    let config = AuthConfig { api_key: Some("k".to_string()), enabled: true };
    assert_eq!(config.authorize(&headers(Some("Bearer k"), None)), Ok(()));
    assert_eq!(
        config.authorize(&headers(None, Some("other"))),
        Err(AuthError::InvalidKey)
    );
    assert_eq!(config.authorize(&headers(None, None)), Err(AuthError::MissingKey));
    let keyless = AuthConfig { api_key: None, enabled: true };
    assert_eq!(keyless.authorize(&headers(None, Some("k"))), Err(AuthError::Unauthorized));
    let disabled = AuthConfig { api_key: Some("k".to_string()), enabled: false };
    assert_eq!(disabled.authorize(&headers(None, None)), Ok(()));
    assert_eq!(AuthError::MissingKey.response(), (401, "Missing API key"));
    assert_eq!(AuthError::InvalidKey.response(), (401, "Invalid API key"));
    assert_eq!(AuthError::Unauthorized.response(), (403, "Unauthorized"));
}

#[test]
fn test_scrape_core_updates_metrics() {
    let mut collector = collector("CORE_ID", "", "", "", "");
    let mock = MockRpcClient::new()
        .with_u64("CORE_ID", "total_routed", 42)
        .with_string_vec("CORE_ID", "get_all_routes", vec![]);
    let ok = collector.scrape_all(&mock);
    assert!(ok);
    assert_eq!(collector.metrics.core_total_routed.get(&key("CORE_ID")), Some(&42));
    assert_eq!(collector.metrics.core_paused.get(&key("CORE_ID")), Some(&false));
}

#[test]
fn test_scrape_middleware_updates_metrics() {
    let mut collector = collector("", "MW_ID", "", "", "");
    let mock = MockRpcClient::new()
        .with_u64("MW_ID", "total_calls", 7)
        .with_string_vec("MW_ID", "get_configured_routes", vec![]);
    let ok = collector.scrape_all(&mock);
    assert!(ok);
    assert_eq!(collector.metrics.middleware_total_calls.get(&key("MW_ID")), Some(&7));
}

#[test]
fn test_scrape_registry_updates_metrics() {
    let mut collector = collector("", "", "REG_ID", "", "");
    let mock = MockRpcClient::new().with_string_vec(
        "REG_ID",
        "get_all_names",
        vec!["oracle".to_string(), "vault".to_string()],
    );
    let ok = collector.scrape_all(&mock);
    assert!(ok);
    assert_eq!(collector.metrics.registry_total_names.get(&key("REG_ID")), Some(&2));
}

#[test]
fn test_scrape_failure_returns_false_and_increments_error_counter() {
    let mut collector = collector("CORE_ID", "", "", "", "");
    let mock = MockRpcClient::new();
    let ok = collector.scrape_all(&mock);
    assert!(!ok);
    assert_eq!(collector.metrics.scrape_errors_total.get(&key("CORE_ID")), Some(&1));
    collector.scrape_all(&mock);
    assert_eq!(collector.metrics.scrape_errors_total.get(&key("CORE_ID")), Some(&2));
}

#[test]
fn test_scrape_core_with_routes_and_circuit_breaker() {
    let mut collector = collector("CORE_ID", "MW_ID", "", "", "");
    let mock = MockRpcClient::new()
        .with_u64("CORE_ID", "total_routed", 100)
        .with_string_vec("CORE_ID", "get_all_routes", vec!["oracle".to_string()])
        .with_simulate(
            "CORE_ID",
            "get_route",
            retval(object(vec![("paused", Json::Bool(false))])),
        )
        .with_u64("MW_ID", "total_calls", 50)
        .with_string_vec("MW_ID", "get_configured_routes", vec!["oracle".to_string()])
        .with_simulate("MW_ID", "circuit_breaker_state", retval(breaker(true, 3, 1000)));
    let ok = collector.scrape_all(&mock);
    assert!(ok);
    let metrics = &collector.metrics;
    assert_eq!(metrics.core_total_routed.get(&key("CORE_ID")), Some(&100));
    assert_eq!(metrics.core_route_paused.get(&pair("CORE_ID", "oracle")), Some(&false));
    assert_eq!(metrics.middleware_circuit_open.get(&pair("MW_ID", "oracle")), Some(&true));
    assert_eq!(metrics.middleware_failure_count.get(&pair("MW_ID", "oracle")), Some(&3));
}

#[test]
fn test_scrape_quote_counts_events() {
    let mut collector = collector("", "", "", "QUOTE_ID", "");
    let make_event = |topic: &str| ContractEvent {
        contract_id: "QUOTE_ID".to_string(),
        topic: vec![text(topic)],
        value: object(vec![]),
    };
    let mock = MockRpcClient::new()
        .with_events(
            "QUOTE_ID",
            "quote_generated",
            vec![make_event("quote_generated"), make_event("quote_generated")],
        )
        .with_events("QUOTE_ID", "fee_estimated", vec![make_event("fee_estimated")]);
    let ok = collector.scrape_all(&mock);
    assert!(ok);
    assert_eq!(collector.metrics.quote_total_generated.get(&key("QUOTE_ID")), Some(&2));
    assert_eq!(collector.metrics.quote_total_fee_estimated.get(&key("QUOTE_ID")), Some(&1));
}

#[test]
fn test_scrape_execution_reads_ledger_entries() {
    let mut collector = collector("", "", "", "", "EXEC_ID");
    let entry = |k: &str, xdr: &str| LedgerEntry { key: k.to_string(), xdr: xdr.to_string() };
    let mock = MockRpcClient::new().with_ledger_entries(
        "EXEC_ID:TotalExecutions",
        vec![
            entry("EXEC_ID:TotalExecutions", "42"),
            entry("EXEC_ID:TotalErrors", "5"),
            entry("EXEC_ID:MaxRetries", "3"),
        ],
    );
    let ok = collector.scrape_all(&mock);
    assert!(ok);
    assert_eq!(collector.metrics.execution_total_executions.get(&key("EXEC_ID")), Some(&42));
    assert_eq!(collector.metrics.execution_total_errors.get(&key("EXEC_ID")), Some(&5));
    assert_eq!(collector.metrics.execution_max_retries.get(&key("EXEC_ID")), Some(&3));
}

#[test]
fn one_failed_contract_does_not_stop_the_others() {
    let mut collector = collector("CORE_ID", "", "REG_ID", "", "");
    let mock = MockRpcClient::new()
        .with_u64("CORE_ID", "total_routed", 1)
        .with_string_vec("REG_ID", "get_all_names", vec!["a".to_string()]);
    assert!(!collector.scrape_all(&mock));
    assert_eq!(collector.metrics.core_total_routed.get(&key("CORE_ID")), Some(&1));
    assert_eq!(collector.metrics.scrape_errors_total.get(&key("CORE_ID")), Some(&1));
    assert_eq!(collector.metrics.scrape_errors_total.get(&key("REG_ID")), None);
    assert_eq!(collector.metrics.registry_total_names.get(&key("REG_ID")), Some(&1));
}

#[test]
fn one_missing_route_does_not_fail_the_scrape() {
    let mut collector = collector("CORE_ID", "", "", "", "");
    let mock = MockRpcClient::new()
        .with_u64("CORE_ID", "total_routed", 1)
        .with_string_vec("CORE_ID", "get_all_routes", vec!["a".to_string(), "b".to_string()]);
    assert!(collector.scrape_all(&mock));
    assert_eq!(collector.metrics.core_route_paused.get(&pair("CORE_ID", "a")), None);
}

#[test]
fn cycle_asks_one_thing_after_the_other() {
    let mut collector = collector("CORE_ID", "", "", "QUOTE_ID", "EXEC_ID");
    let mut cycle = collector.begin_cycle();
    assert_eq!(
        cycle.query(),
        Some(Query::U64 { contract_id: key("CORE_ID"), function: "total_routed" })
    );
    assert_eq!(collector.advance_cycle(&mut cycle, Answer::Number(5)), ScrapeStep::Continue);
    assert_eq!(
        cycle.query(),
        Some(Query::Bool { contract_id: key("CORE_ID"), function: "is_paused" })
    );
    assert_eq!(collector.advance_cycle(&mut cycle, Answer::Flag(true)), ScrapeStep::Continue);
    assert_eq!(
        cycle.query(),
        Some(Query::StringVec { contract_id: key("CORE_ID"), function: "get_all_routes" })
    );
    let step = collector.advance_cycle(&mut cycle, Answer::Texts(vec!["oracle".to_string()]));
    assert_eq!(step, ScrapeStep::Continue);
    assert_eq!(
        cycle.query(),
        Some(Query::Simulate {
            contract_id: key("CORE_ID"),
            function: "get_route",
            args: vec!["6f7261636c65".to_string()],
        })
    );
    let paused = object(vec![("paused", Json::Bool(true))]);
    assert_eq!(collector.advance_cycle(&mut cycle, Answer::Value(&paused)), ScrapeStep::Done);
    assert_eq!(
        cycle.query(),
        Some(Query::Events { contract_id: key("QUOTE_ID"), topic: "quote_generated" })
    );
    assert_eq!(collector.advance_cycle(&mut cycle, Answer::EventCount(4)), ScrapeStep::Continue);
    assert_eq!(
        cycle.query(),
        Some(Query::Events { contract_id: key("QUOTE_ID"), topic: "fee_estimated" })
    );
    assert_eq!(collector.advance_cycle(&mut cycle, Answer::Failed), ScrapeStep::Failed);
    assert_eq!(
        cycle.query(),
        Some(Query::LedgerEntries {
            keys: vec![
                "EXEC_ID:TotalExecutions".to_string(),
                "EXEC_ID:TotalErrors".to_string(),
                "EXEC_ID:MaxRetries".to_string(),
            ],
        })
    );
    assert_eq!(collector.advance_cycle(&mut cycle, Answer::Entries(vec![])), ScrapeStep::Done);
    assert_eq!(cycle.query(), None);
    assert!(!collector.finish_cycle(&cycle));
    let metrics = &collector.metrics;
    assert!(!metrics.up);
    assert_eq!(metrics.core_paused.get(&key("CORE_ID")), Some(&true));
    assert_eq!(metrics.core_route_paused.get(&pair("CORE_ID", "oracle")), Some(&true));
    assert_eq!(metrics.quote_total_generated.get(&key("QUOTE_ID")), None);
    assert_eq!(metrics.scrape_errors_total.get(&key("QUOTE_ID")), Some(&1));
    assert_eq!(metrics.execution_max_retries.get(&key("EXEC_ID")), Some(&0));
}

#[test]
fn scrape_asks_whether_the_router_is_paused() {
    let paused = MockRpcClient::new()
        .with_u64("CORE_ID", "total_routed", 1)
        .with_bool("CORE_ID", "is_paused", true)
        .with_string_vec("CORE_ID", "get_all_routes", vec![]);
    let mut collector = collector("CORE_ID", "", "", "", "");
    assert!(collector.scrape_all(&paused));
    assert_eq!(collector.metrics.core_paused.get(&key("CORE_ID")), Some(&true));

    let silent = MockRpcClient::new()
        .with_u64("CORE_ID", "total_routed", 1)
        .with_string_vec("CORE_ID", "get_all_routes", vec![]);
    assert!(collector.scrape_all(&silent));
    assert_eq!(collector.metrics.core_paused.get(&key("CORE_ID")), Some(&false));
}

#[test]
fn missing_key_is_noticed_only_where_one_is_needed() {
    let yes = Some("TRUE".to_string());
    let no = Some("false".to_string());
    let key = Some("secret".to_string());
    assert!(AuthConfig::lacks_key(&yes, &None));
    assert!(!AuthConfig::lacks_key(&yes, &key));
    assert!(!AuthConfig::lacks_key(&no, &None));
    assert!(!AuthConfig::lacks_key(&None, &None));
}

#[test]
fn nothing_configured_is_up() {
    let mut collector = collector("", "", "", "", "");
    let cycle = collector.begin_cycle();
    assert_eq!(cycle.query(), None);
    assert!(collector.finish_cycle(&cycle));
    assert!(collector.metrics.up);
}

#[test]
fn test_extract_route_paused_true() {
    let val = retval(object(vec![("paused", Json::Bool(true))]));
    assert_eq!(extract_route_paused(&val), Some(true));
}

#[test]
fn test_extract_route_paused_false() {
    let val = object(vec![("paused", Json::Bool(false))]);
    assert_eq!(extract_route_paused(&val), Some(false));
    assert_eq!(extract_route_paused(&Json::Null), None);
}

#[test]
fn test_extract_circuit_breaker_open() {
    let val = retval(breaker(true, 5, 1000));
    assert_eq!(extract_circuit_breaker_state(&val), Some((true, 5)));
}

#[test]
fn test_extract_circuit_breaker_none() {
    let val = retval(Json::Null);
    assert_eq!(extract_circuit_breaker_state(&val), Some((false, 0)));
    let val = retval(object(vec![("none", Json::Null), ("is_open", Json::Bool(true))]));
    assert_eq!(extract_circuit_breaker_state(&val), Some((false, 0)));
}

#[test]
fn test_extract_circuit_breaker_closed() {
    let val = retval(breaker(false, 2, 0));
    assert_eq!(extract_circuit_breaker_state(&val), Some((false, 2)));
    let wide = object(vec![("failure_count", Json::Unsigned(0x1_0000_0007))]);
    assert_eq!(extract_circuit_breaker_state(&wide), Some((false, 7)));
}

#[test]
fn test_extract_u64_direct() {
    assert_eq!(extract_u64_from_sim_result(&Json::Unsigned(42)).unwrap(), 42);
}

#[test]
fn test_extract_u64_nested_retval() {
    let v = retval(object(vec![("u64", Json::Unsigned(99))]));
    assert_eq!(extract_u64_from_sim_result(&v).unwrap(), 99);
    assert_eq!(extract_u64_from_sim_result(&retval(Json::Unsigned(8))).unwrap(), 8);
    assert_eq!(extract_u64_from_sim_result(&Json::OtherNumber), Err(RpcError::NoU64));
}

#[test]
fn test_extract_bool_direct() {
    assert!(extract_bool_from_sim_result(&Json::Bool(true)).unwrap());
}

#[test]
fn test_extract_bool_nested() {
    let v = retval(object(vec![("bool", Json::Bool(false))]));
    assert!(!extract_bool_from_sim_result(&v).unwrap());
    assert!(extract_bool_from_sim_result(&retval(Json::Bool(true))).unwrap());
    assert_eq!(extract_bool_from_sim_result(&Json::Null), Err(RpcError::NoBool));
}

#[test]
fn test_extract_string_vec_empty() {
    assert!(extract_string_vec_from_sim_result(&Json::Array(vec![])).is_empty());
    assert!(extract_string_vec_from_sim_result(&Json::Null).is_empty());
}

#[test]
fn test_extract_string_vec_strings() {
    let v = Json::Array(vec![text("oracle"), text("price_feed")]);
    let result = extract_string_vec_from_sim_result(&v);
    assert_eq!(result, vec!["oracle", "price_feed"]);
    let v = retval(Json::Array(vec![
        object(vec![("str", text("a"))]),
        Json::Bool(true),
        text("b"),
    ]));
    assert_eq!(extract_string_vec_from_sim_result(&v), vec!["a", "b"]);
}

#[test]
fn entry_numbers_are_read_from_numbers_and_json() {
    let entry = |k: &str, xdr: &str| LedgerEntry { key: k.to_string(), xdr: xdr.to_string() };
    let entries = vec![
        entry("X:Other", "1"),
        entry("X:Total", "not a number"),
        entry("X:Total", "{\"u64\": 17}"),
        entry("X:Total", "18"),
        entry("X:Plain", " 19 "),
        entry("X:Signed", "+20"),
    ];
    assert_eq!(extract_u64_from_entry(&entries, "Total"), Some(17));
    assert_eq!(extract_u64_from_entry(&entries, "Plain"), Some(19));
    assert_eq!(extract_u64_from_entry(&entries, "Signed"), Some(20));
    assert_eq!(extract_u64_from_entry(&entries, "Missing"), None);
}

#[test]
fn entry_number_prefers_the_plain_number() {
    assert_eq!(number_of_entry("7", (Some(1), Some(2))), Some(7));
    assert_eq!(number_of_entry("x", (Some(1), Some(2))), Some(1));
    assert_eq!(number_of_entry("x", (None, Some(2))), Some(2));
    assert_eq!(number_of_entry("-1", (None, None)), None);
    assert_eq!(number_of_entry("18446744073709551616", (None, None)), None);
}

#[test]
fn names_are_found_inside_keys() {
    assert!(contains_text("EXEC:TotalErrors", "TotalErrors"));
    assert!(contains_text("abc", ""));
    assert!(contains_text("\u{e9}abc", "ab"));
    assert!(!contains_text("abc", "abcd"));
    assert!(!contains_text("abc", "ac"));
}

#[test]
fn arguments_and_keys_are_encoded() {
    assert_eq!(encode_string_arg("oracle"), "6f7261636c65");
    assert_eq!(encode_string_arg("\u{e9}"), "c3a9");
    assert_eq!(encode_string_arg(""), "");
    assert_eq!(encode_contract_data_key("CID", "MaxRetries"), "CID:MaxRetries");
}

#[test]
fn transactions_and_storage_keys_cannot_be_built() {
    let error = build_invoke_xdr("CID", "f", &vec![]).unwrap_err();
    assert!(error.message().starts_with("XDR transaction building is not implemented"));
    let error = instance_storage_key_xdr("CID").unwrap_err();
    assert_eq!(
        error.message(),
        "Direct XDR key construction not implemented. \
         Use the simulation path or integrate stellar-xdr."
    );
}

#[test]
fn replies_are_results_or_errors() {
    let refused: RpcReply<u64> =
        RpcReply { result: Some(1), error: Some((-32600, "invalid".to_string())) };
    let error = reply_result(refused).unwrap_err();
    assert_eq!(error.message(), "RPC error -32600: invalid");
    let empty: RpcReply<u64> = RpcReply { result: None, error: None };
    assert_eq!(reply_result(empty).unwrap_err().message(), "empty RPC result");
    assert_eq!(reply_result(RpcReply { result: Some(3u64), error: None }), Ok(3));
    let extreme: RpcReply<u64> =
        RpcReply { result: None, error: Some((i64::MIN, "x".to_string())) };
    assert_eq!(
        reply_result(extreme).unwrap_err().message(),
        "RPC error -9223372036854775808: x"
    );
}

#[test]
fn client_reads_what_simulations_return() {
    assert_eq!(SorobanRpcClient::call_u64(Ok(Json::Unsigned(4))), Ok(4));
    assert_eq!(SorobanRpcClient::call_bool(Ok(Json::Bool(true))), Ok(true));
    assert_eq!(
        SorobanRpcClient::call_string_vec(Ok(Json::Array(vec![text("a")]))),
        Ok(vec!["a".to_string()])
    );
    let failed = || Err(RpcError::Transport("down".to_string()));
    assert_eq!(SorobanRpcClient::call_u64(failed()).unwrap_err().message(), "down");
    assert!(SorobanRpcClient::call_string_vec(failed()).is_err());
    let reply = Ok(RpcReply { result: Some(None), error: None });
    assert_eq!(SorobanRpcClient::get_ledger_entries(reply), Ok(vec![]));
    let reply = Ok(RpcReply { result: Some(None), error: None });
    assert!(SorobanRpcClient::get_events(reply).unwrap().is_empty());
    let client = SorobanRpcClient::new("http://rpc".to_string(), 10);
    assert_eq!(client.rpc_url, "http://rpc");
}

#[test]
fn event_parameters_list_the_filters() {
    let topics = vec!["quote_generated".to_string()];
    let params = SorobanRpcClient::get_events_params("CID", &topics, 0);
    assert!(params.get("startLedger").is_none());
    let filters = params.get("filters").unwrap().as_array().unwrap();
    assert_eq!(filters.len(), 1);
    assert_eq!(filters[0].get("type").unwrap().as_str(), Some("contract"));
    let ids = filters[0].get("contractIds").unwrap().as_array().unwrap();
    assert_eq!(ids[0].as_str(), Some("CID"));
    let topic = filters[0].get("topics").unwrap().as_array().unwrap();
    assert_eq!(topic[0].as_array().unwrap()[0].as_str(), Some("quote_generated"));
    let params = SorobanRpcClient::get_events_params("CID", &topics, 9);
    assert_eq!(params.get("startLedger").unwrap().as_u64(), Some(9));
}

#[test]
fn mock_answers_what_was_prepared() {
    let mock = MockRpcClient::new().with_bool("C", "is_paused", true);
    assert_eq!(mock.call_bool("C", "is_paused"), Ok(true));
    let error = mock.call_u64("C", "total").unwrap_err();
    assert_eq!(error.message(), "MockRpcClient: no u64 response for C::total");
    let error = mock.get_events("C", &vec!["t".to_string()], 0).err().unwrap();
    assert_eq!(error.message(), "MockRpcClient: no events response for C");
    let error = mock.get_ledger_entries(&vec!["K".to_string()]).unwrap_err();
    assert_eq!(error.message(), "MockRpcClient: no ledger entries response for K");
    assert!(mock.get_ledger_entries(&vec![]).is_err());
    assert!(mock.simulate_invoke("C", "f", &vec![]).is_err());
}

#[test]
fn every_failed_scrape_counts_for_its_contract() {
    let mut collector = collector("SHARED_ID", "SHARED_ID", "REG_ID", "QUOTE_ID", "");
    collector.metrics.scrape_errors_total.insert(key("SHARED_ID"), 5);
    collector.metrics.scrape_errors_total.insert(key("QUOTE_ID"), u64::MAX);
    let mock = MockRpcClient::new().with_string_vec("REG_ID", "get_all_names", vec![]);
    assert!(!collector.scrape_all(&mock));
    assert_eq!(collector.metrics.scrape_errors_total.get(&key("SHARED_ID")), Some(&7));
    assert_eq!(collector.metrics.scrape_errors_total.get(&key("REG_ID")), None);
    assert_eq!(collector.metrics.scrape_errors_total.get(&key("QUOTE_ID")), Some(&u64::MAX));
}
