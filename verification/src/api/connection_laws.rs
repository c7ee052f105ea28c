//! What holds of connections: how many there are, what they are subscribed to and what they are
//! sent.

use super::state::{sent_events, subscriber_contents, AppState};
use super::types::{TransactionStatus, TransactionStatusEvent, WsMessage};
use super::websocket::{is_message, status_text, text_set, Connection, WsReply};
use crate::json::{member, Json};
use vstd::prelude::*;

verus! {

/// There are at most 100 connections, each with at most 100 subscriptions, no two to the same
/// transaction; and no transaction is listed without a subscriber.
pub proof fn connections_are_limited(state: AppState, connection: Connection, i: int, j: int)
    ensures
        state.wf() ==> state.ws_connection_count <= 100,
        state.wf() ==> forall|key: Seq<char>| #[trigger]
            subscriber_contents(state.tx_subscribers).contains_key(key) ==> subscriber_contents(
                state.tx_subscribers,
            )[key] >= 1,
        connection.wf() ==> connection.subscriptions@.len() <= 100,
        connection.wf() && 0 <= i < j < connection.subscriptions@.len()
            ==> connection.subscriptions@[i]@ != connection.subscriptions@[j]@,
        connection.subscriptions@.len() <= 100 && (forall|k: int, l: int|
            0 <= k < l < connection.subscriptions@.len() ==> (
            #[trigger] connection.subscriptions@[k])@ != (#[trigger] connection.subscriptions@[l])@)
            ==> connection.wf(),
        state.ws_connection_count <= 100 && (forall|key: Seq<char>| #[trigger]
            subscriber_contents(state.tx_subscribers).contains_key(key) ==> subscriber_contents(
                state.tx_subscribers,
            )[key] >= 1) ==> state.wf(),
{
    if state.wf() {
        assert(state.subscribers() == subscriber_contents(state.tx_subscribers));
    }
}

/// A connection is subscribed to what is in its list, and to nothing else.
pub proof fn subscriptions_are_those_listed(connection: Connection, tx_id: Seq<char>)
    ensures
        connection.subscribed().contains(tx_id) <==> exists|i: int|
            0 <= i < connection.subscriptions@.len() && #[trigger] connection.subscriptions@[i]@
                == tx_id,
        text_set(connection.subscriptions@) == connection.subscribed(),
{
}

/// What was sent and who subscribed is what the channel and the table hold; two states have the
/// same setup exactly if they differ in nothing but subscribers and the number of connections.
pub proof fn states_are_told_apart_by_their_setup(a: AppState, b: AppState)
    ensures
        a.sent() == sent_events(a.tx_status_tx),
        a.subscribers() == subscriber_contents(a.tx_subscribers),
        a.same_setup(b) <==> a == (AppState {
            tx_subscribers: a.tx_subscribers,
            ws_connection_count: a.ws_connection_count,
            ..b
        }),
{
}

/// A status is carried as its name in capital letters.
pub proof fn a_status_is_carried_by_name(event: TransactionStatusEvent)
    ensures
        event.status == TransactionStatus::Pending ==> status_text(event) == "PENDING"@,
        event.status == TransactionStatus::Submitted ==> status_text(event) == "SUBMITTED"@,
        event.status == TransactionStatus::Confirmed ==> status_text(event) == "CONFIRMED"@,
        event.status == TransactionStatus::Failed ==> status_text(event) == "FAILED"@,
{
}

/// The members of an object with up to four of them.
proof fn lemma_members(members: Seq<(String, Json)>, key: Seq<char>)
    requires
        1 <= members.len() <= 4,
    ensures
        member(members, key) == if members[0].0@ == key {
            Some(members[0].1)
        } else if members.len() >= 2 && members[1].0@ == key {
            Some(members[1].1)
        } else if members.len() >= 3 && members[2].0@ == key {
            Some(members[2].1)
        } else if members.len() >= 4 && members[3].0@ == key {
            Some(members[3].1)
        } else {
            None
        },
{
    reveal_with_fuel(member, 5);
    assert(members.len() >= 2 ==> members.drop_first()[0] == members[1]);
    assert(members.len() >= 3 ==> members.drop_first().drop_first()[0] == members[2]);
    assert(members.len() >= 4 ==> members.drop_first().drop_first().drop_first()[0] == members[3]);
}

/// Whether a member of an object is this text.
pub open spec fn says(data: Json, key: Seq<char>, text: Seq<char>) -> bool {
    data.field(key) matches Some(Json::Text(value)) && value@ == text
}

/// A message says what its reply does: that a limit was reached, which transaction was subscribed
/// to, or every part of a status event.
pub proof fn messages_carry_their_reply(reply: WsReply, message: WsMessage)
    requires
        is_message(reply, message),
    ensures
        reply == WsReply::SubscriptionLimit ==> message.msg_type@ == "error"@ && says(
            message.data,
            "message"@,
            "subscription limit reached"@,
        ),
        reply matches WsReply::Subscribed(tx_id) ==> {
            &&& message.msg_type@ == "subscribed"@
            &&& says(message.data, "tx_id"@, tx_id@)
            &&& says(message.data, "status"@, "subscribed"@)
        },
        reply matches WsReply::StatusUpdate(event) ==> {
            &&& message.msg_type@ == "status_update"@
            &&& says(message.data, "tx_id"@, event.tx_id@)
            &&& says(message.data, "status"@, status_text(event))
            &&& says(message.data, "timestamp"@, event.timestamp@)
            &&& event.message matches Some(text) ==> says(message.data, "message"@, text@)
            &&& event.message is None ==> message.data.field("message"@) == Some(Json::Null)
        },
{
    reveal_strlit("message");
    reveal_strlit("tx_id");
    reveal_strlit("status");
    reveal_strlit("timestamp");
    assert("message"@.len() == 7 && "tx_id"@.len() == 5 && "status"@.len() == 6
        && "timestamp"@.len() == 9);
    let members = message.data->Object_0@;
    match reply {
        WsReply::SubscriptionLimit => {
            assert(members[0].0@ == "message"@);
            lemma_members(members, "message"@);
        },
        WsReply::Subscribed(_) => {
            assert(members[0].0@ == "tx_id"@ && members[1].0@ == "status"@);
            lemma_members(members, "tx_id"@);
            lemma_members(members, "status"@);
        },
        WsReply::StatusUpdate(_) => {
            lemma_members(members, "tx_id"@);
            lemma_members(members, "status"@);
            lemma_members(members, "timestamp"@);
            lemma_members(members, "message"@);
        },
    }
}

} // verus!
