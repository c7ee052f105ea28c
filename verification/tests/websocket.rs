use stellar_router::api::rate_limit::{RateLimitConfig, RateLimiter};
use stellar_router::api::state::{AppState, MAX_SUBSCRIPTIONS_PER_CONNECTION};
use stellar_router::api::types::{SubscribeMessage, TransactionStatus, TransactionStatusEvent};
use stellar_router::api::websocket::{
    reply_message, Connection, WsAction, WsEvent, WsReply, IDLE_TIMEOUT_NANOS, IDLE_TIMEOUT_SECS,
    PING_INTERVAL_SECS,
};
use stellar_router::json::Json;

fn app_state() -> AppState {
    AppState::new(
        "http://localhost:1".to_string(),
        "".to_string(),
        "".to_string(),
        RateLimiter::new(RateLimitConfig::default()),
    )
}

fn message(action: &str, tx_id: &str) -> WsEvent {
    WsEvent::Text(Some(SubscribeMessage {
        action: action.to_string(),
        tx_id: tx_id.to_string(),
    }))
}

fn status(tx_id: &str) -> TransactionStatusEvent {
    TransactionStatusEvent {
        tx_id: tx_id.to_string(),
        status: TransactionStatus::Submitted,
        timestamp: "2026-01-01T00:00:00Z".to_string(),
        message: None,
    }
}

fn count(state: &AppState, tx_id: &str) -> usize {
    state.tx_subscribers.get(tx_id).map(|c| *c).unwrap_or(0)
}

#[test]
fn test_websocket_inactivity_timeout_is_300_seconds() {
    const EXPECTED_TIMEOUT_SECS: u64 = 300;
    assert_eq!(EXPECTED_TIMEOUT_SECS, 5 * 60);
    assert_eq!(IDLE_TIMEOUT_SECS, EXPECTED_TIMEOUT_SECS);
    assert_eq!(IDLE_TIMEOUT_NANOS, 300_000_000_000);
    assert_eq!(PING_INTERVAL_SECS, 30);
}

#[test]
fn subscription_delivers_and_ends() {
    let mut state = app_state();
    let mut connection = Connection::open(&mut state, 0).unwrap();
    assert!(!connection.wants_status());
    assert_eq!(
        connection.step(&mut state, message("subscribe", "tx1"), 1),
        WsAction::Send(WsReply::Subscribed("tx1".to_string()))
    );
    assert!(connection.wants_status());
    assert_eq!(count(&state, "tx1"), 1);
    assert_eq!(
        connection.step(&mut state, WsEvent::Status(status("tx1")), 2),
        WsAction::Send(WsReply::StatusUpdate(status("tx1")))
    );
    assert_eq!(
        connection.step(&mut state, WsEvent::Status(status("tx2")), 3),
        WsAction::Wait
    );
    assert_eq!(connection.step(&mut state, message("unsubscribe", "tx1"), 4), WsAction::Wait);
    assert_eq!(count(&state, "tx1"), 0);
    assert_eq!(
        connection.step(&mut state, WsEvent::Status(status("tx1")), 5),
        WsAction::Wait
    );
}

#[test]
fn closing_leaves_no_trace() {
    let mut state = app_state();
    state.add_subscriber("tx1".to_string());
    let mut connection = Connection::open(&mut state, 0).unwrap();
    for tx in ["tx1", "tx2", "tx3"] {
        connection.step(&mut state, message("subscribe", tx), 0);
    }
    assert_eq!(count(&state, "tx1"), 2);
    assert_eq!(state.ws_connection_count, 1);
    connection.close(&mut state);
    assert_eq!(count(&state, "tx1"), 1);
    assert_eq!(count(&state, "tx2"), 0);
    assert_eq!(count(&state, "tx3"), 0);
    assert_eq!(state.ws_connection_count, 0);
}

#[test]
fn subscriptions_are_limited() {
    let mut state = app_state();
    let mut connection = Connection::open(&mut state, 0).unwrap();
    for i in 0..MAX_SUBSCRIPTIONS_PER_CONNECTION {
        connection.step(&mut state, message("subscribe", &format!("tx{}", i)), 0);
    }
    assert_eq!(
        connection.step(&mut state, message("subscribe", "one more"), 0),
        WsAction::Send(WsReply::SubscriptionLimit)
    );
    assert_eq!(count(&state, "one more"), 0);
}

#[test]
fn silent_connections_are_closed() {
    let mut state = app_state();
    let mut connection = Connection::open(&mut state, 1000).unwrap();
    let last = 1000 + IDLE_TIMEOUT_NANOS;
    assert_eq!(connection.step(&mut state, WsEvent::PingTick, last - 1), WsAction::Ping);
    assert_eq!(connection.step(&mut state, WsEvent::Pong, 2000), WsAction::Wait);
    assert_eq!(connection.step(&mut state, WsEvent::PingTick, last), WsAction::Ping);
    assert_eq!(
        connection.step(&mut state, WsEvent::PingTick, 2000 + IDLE_TIMEOUT_NANOS),
        WsAction::Disconnect
    );
}

#[test]
fn unreadable_text_is_a_sign_of_life_only() {
    let mut state = app_state();
    let mut connection = Connection::open(&mut state, 0).unwrap();
    assert_eq!(connection.step(&mut state, WsEvent::Text(None), 50), WsAction::Wait);
    assert_eq!(connection.last_activity, 50);
    assert_eq!(connection.step(&mut state, message("other", "tx"), 60), WsAction::Wait);
    assert_eq!(connection.step(&mut state, WsEvent::OtherMessage, 70), WsAction::Wait);
    assert_eq!(connection.last_activity, 60);
    assert_eq!(connection.step(&mut state, WsEvent::Lagged, 80), WsAction::Wait);
    assert!(!connection.wants_status());
}

#[test]
fn ends_are_ends() {
    let mut state = app_state();
    let mut connection = Connection::open(&mut state, 0).unwrap();
    assert_eq!(connection.step(&mut state, WsEvent::Closed, 0), WsAction::Disconnect);
    assert_eq!(connection.step(&mut state, WsEvent::NoMoreStatus, 0), WsAction::Disconnect);
}

#[test]
fn too_many_connections_are_turned_away() {
    let mut state = app_state();
    for _ in 0..100 {
        assert!(Connection::open(&mut state, 0).is_some());
    }
    assert!(Connection::open(&mut state, 0).is_none());
}

#[test]
fn replies_become_messages() {
    let limit = reply_message(WsReply::SubscriptionLimit);
    assert_eq!(limit.msg_type, "error");
    assert_eq!(
        limit.data.get("message").unwrap().as_str(),
        Some("subscription limit reached")
    );
    let subscribed = reply_message(WsReply::Subscribed("tx1".to_string()));
    assert_eq!(subscribed.msg_type, "subscribed");
    assert_eq!(subscribed.data.get("tx_id").unwrap().as_str(), Some("tx1"));
    assert_eq!(subscribed.data.get("status").unwrap().as_str(), Some("subscribed"));
    let update = reply_message(WsReply::StatusUpdate(status("tx1")));
    assert_eq!(update.msg_type, "status_update");
    assert_eq!(update.data.get("status").unwrap().as_str(), Some("SUBMITTED"));
    assert_eq!(
        update.data.get("timestamp").unwrap().as_str(),
        Some("2026-01-01T00:00:00Z")
    );
    assert!(update.data.get("message").unwrap().is_null());
    let told = TransactionStatusEvent { message: Some("on its way".to_string()), ..status("t") };
    let update = reply_message(WsReply::StatusUpdate(told));
    assert_eq!(update.data.get("message").unwrap().as_str(), Some("on its way"));
    assert!(matches!(update.data, Json::Object(_)));
}
