use stellar_router::common::{
    is_whitespace_only, require_admin, BatchCallResult, BatchResult, BatchSuccess, CallResult,
    CallSuccess, EVENT_ADMIN_TRANSFERRED, EVENT_CIRCUIT_OPENED, EVENT_ROUTE_REGISTERED,
};

#[test]
fn test_empty_string_is_whitespace_only() {
    assert!(is_whitespace_only(""));
}

#[test]
fn test_spaces_are_whitespace_only() {
    assert!(is_whitespace_only("   "));
}

#[test]
fn test_tab_is_whitespace_only() {
    assert!(is_whitespace_only("\t"));
}

#[test]
fn test_newline_is_whitespace_only() {
    assert!(is_whitespace_only("\n"));
}

#[test]
fn test_carriage_return_is_whitespace_only() {
    assert!(is_whitespace_only("\r"));
}

#[test]
fn test_mixed_whitespace_is_whitespace_only() {
    assert!(is_whitespace_only(" \t\n\r\x0b\x0c"));
}

#[test]
fn test_normal_name_is_not_whitespace_only() {
    assert!(!is_whitespace_only("oracle"));
}

#[test]
fn test_name_with_surrounding_spaces_is_not_whitespace_only() {
    assert!(!is_whitespace_only(" oracle "));
}

#[test]
fn unicode_space_is_not_whitespace() {
    assert!(!is_whitespace_only("\u{a0}"));
    assert!(!is_whitespace_only("\x08"));
    assert!(!is_whitespace_only("\x0e"));
}

#[test]
fn event_topics_are_past_tense_names() {
    assert_eq!(EVENT_ADMIN_TRANSFERRED, "admin_transferred");
    assert_eq!(EVENT_ROUTE_REGISTERED, "route_registered");
    assert_eq!(EVENT_CIRCUIT_OPENED, "circuit_opened");
}

#[test]
fn admin_is_required() {
    let admin = Some("GADMIN".to_string());
    assert_eq!(require_admin(&admin, &"GADMIN".to_string(), 1, 2), Ok(()));
    assert_eq!(require_admin(&admin, &"GOTHER".to_string(), 1, 2), Err(2));
    assert_eq!(require_admin(&None, &"GADMIN".to_string(), 1, 2), Err(1));
}

#[test]
fn batch_results_keep_their_order() {
    let mut result = BatchResult::new();
    result.record_success(0);
    result.record_failure(1, "RouteNotFound");
    result.record_success(2);
    assert_eq!(result.successes, vec![BatchSuccess { index: 0 }, BatchSuccess { index: 2 }]);
    assert_eq!(result.failures.len(), 1);
    assert_eq!(result.failures[0].index, 1);
    assert_eq!(result.failures[0].message, "RouteNotFound");
}

#[test]
fn batch_call_results_keep_the_calls() {
    let mut result = BatchCallResult::new();
    let call = CallResult {
        target: "CTARGET".to_string(),
        function: "ping".to_string(),
        success: true,
    };
    result.record_success(4, call.clone());
    result.record_failure(5, "invoke_failed");
    assert_eq!(result.successes, vec![CallSuccess { index: 4, result: call }]);
    assert_eq!(result.failures[0].message, "invoke_failed");
}
