//! WebSocket connections: what a connection does with each thing that happens to
//! it. Receiving, sending and waiting are up to the transport.

use super::state::{
    with_subscriber, without_subscriber, AppState, MAX_SUBSCRIPTIONS_PER_CONNECTION,
    MAX_WS_CONNECTIONS,
};
use super::types::{SubscribeMessage, TransactionStatus, TransactionStatusEvent, WsMessage};
use crate::json::Json;
use crate::text::same_text;
use vstd::prelude::*;

verus! {

/// Seconds without a sign of life after which a connection is closed.
pub const IDLE_TIMEOUT_SECS: u64 = 300;

/// Seconds between two pings.
pub const PING_INTERVAL_SECS: u64 = 30;

pub const IDLE_TIMEOUT_NANOS: u128 = 300_000_000_000;

/// What a client is told that is turned away.
pub const CONNECTION_LIMIT_REACHED: &'static str = "connection limit reached";

/// What can happen to a connection.
pub enum WsEvent {
    /// A text message, and what it says if it can be read.
    Text(Option<SubscribeMessage>),
    Pong,
    /// Any other message
    OtherMessage,
    /// The client closed the connection, or it failed.
    Closed,
    /// A transaction changed its status.
    Status(TransactionStatusEvent),
    /// Status events were missed.
    Lagged,
    /// There will be no more status events.
    NoMoreStatus,
    /// It is time for a ping.
    PingTick,
}

/// What a connection has to say.
#[derive(Debug, PartialEq)]
pub enum WsReply {
    SubscriptionLimit,
    Subscribed(String),
    StatusUpdate(TransactionStatusEvent),
}

/// What is to be done next on a connection.
#[derive(Debug, PartialEq)]
pub enum WsAction {
    Wait,
    Send(WsReply),
    Ping,
    Disconnect,
}

/// A connection: the transactions it is subscribed to, each listed once, and when it
/// last gave a sign of life.
pub struct Connection {
    pub subscriptions: Vec<String>,
    pub last_activity: u128,
}

/// The texts of a list of strings, as a set.
pub open spec fn text_set(strings: Seq<String>) -> Set<Seq<char>> {
    Set::new(|text: Seq<char>| exists|i: int| 0 <= i < strings.len() && #[trigger] strings[i]@ == text)
}

/// Whether no text is listed twice.
pub open spec fn all_distinct(strings: Seq<String>) -> bool {
    forall|i: int, j: int|
        0 <= i < j < strings.len() ==> (#[trigger] strings[i])@ != (#[trigger] strings[j])@
}

/// The subscriber counts once every transaction in `keys` has one subscriber less.
pub open spec fn without_subscribers(
    counts: Map<Seq<char>, usize>,
    keys: Set<Seq<char>>,
) -> Map<Seq<char>, usize> {
    Map::new(
        |key: Seq<char>| counts.contains_key(key) && !(keys.contains(key) && counts[key] <= 1),
        |key: Seq<char>|
            if keys.contains(key) {
                (counts[key] - 1) as usize
            } else {
                counts[key]
            },
    )
}

impl Connection {
    pub open spec fn wf(self) -> bool {
        &&& all_distinct(self.subscriptions@)
        &&& self.subscriptions@.len() <= MAX_SUBSCRIPTIONS_PER_CONNECTION
    }

    /// The transactions that the connection is subscribed to.
    pub open spec fn subscribed(self) -> Set<Seq<char>> {
        text_set(self.subscriptions@)
    }

    /// Accepts a connection, unless there are too many.
    pub fn open(state: &mut AppState, now: u128) -> (r: Option<Connection>)
        ensures
            r is Some <==> old(state).ws_connection_count < MAX_WS_CONNECTIONS,
            r matches Some(connection) ==> connection.wf() && connection.subscriptions@.len() == 0
                && connection.last_activity == now,
            final(state).ws_connection_count == if r is Some {
                (old(state).ws_connection_count + 1) as usize
            } else {
                old(state).ws_connection_count
            },
            final(state).same_setup(*old(state)),
            final(state).tx_subscribers == old(state).tx_subscribers,
            old(state).wf() ==> final(state).wf(),
    {
        if state.try_acquire_ws_connection() {
            Some(Connection { subscriptions: Vec::new(), last_activity: now })
        } else {
            None
        }
    }

    /// Where a transaction is among the subscriptions.
    fn position(&self, tx_id: &str) -> (r: Option<usize>)
        ensures
            match r {
                Some(i) => i < self.subscriptions@.len() && self.subscriptions@[i as int]@ == tx_id@
                    && self.subscribed().contains(tx_id@),
                None => !self.subscribed().contains(tx_id@),
            },
    {
        let mut i: usize = 0;
        while i < self.subscriptions.len()
            invariant
                i <= self.subscriptions@.len(),
                forall|j: int| 0 <= j < i ==> (#[trigger] self.subscriptions@[j])@ != tx_id@,
            decreases self.subscriptions@.len() - i,
        {
            if same_text(self.subscriptions[i].as_str(), tx_id) {
                proof {
                    assert(self.subscriptions@[i as int]@ == tx_id@);
                }
                return Some(i);
            }
            i = i + 1;
        }
        None
    }

    /// Whether the connection waits for status events: only once it has subscribed to
    /// any does it take one.
    pub fn wants_status(&self) -> (r: bool)
        ensures
            r == (self.subscriptions@.len() > 0),
    {
        self.subscriptions.len() > 0
    }

    /// Adds a transaction to the subscriptions, unless it is there.
    fn insert(&mut self, tx_id: String)
        requires
            old(self).wf(),
            old(self).subscriptions@.len() < MAX_SUBSCRIPTIONS_PER_CONNECTION,
        ensures
            final(self).wf(),
            final(self).subscribed() == old(self).subscribed().insert(tx_id@),
            final(self).last_activity == old(self).last_activity,
    {
        match self.position(tx_id.as_str()) {
            Some(_) => {
                proof {
                    assert(self.subscribed().insert(tx_id@) =~= self.subscribed());
                }
            },
            None => {
                let ghost before = self.subscriptions@;
                proof {
                    assert forall|i: int| 0 <= i < before.len() implies (#[trigger] before[i])@
                        != tx_id@ by {
                        assert(text_set(before).contains(before[i]@));
                    }
                }
                self.subscriptions.push(tx_id);
                proof {
                    let after = self.subscriptions@;
                    assert(after.last()@ == tx_id@);
                    assert forall|text: Seq<char>| text_set(after).contains(text) == text_set(
                        before,
                    ).insert(tx_id@).contains(text) by {
                        if text_set(before).contains(text) {
                            let i = choose|i: int|
                                0 <= i < before.len() && #[trigger] before[i]@ == text;
                            assert(after[i]@ == text);
                        }
                        if text_set(after).contains(text) && text != tx_id@ {
                            let i = choose|i: int|
                                0 <= i < after.len() && #[trigger] after[i]@ == text;
                            assert(before[i]@ == text);
                        }
                    }
                    assert(text_set(after) =~= text_set(before).insert(tx_id@));
                }
            },
        }
    }

    /// Takes a transaction out of the subscriptions.
    fn remove(&mut self, tx_id: &str)
        requires
            old(self).wf(),
        ensures
            final(self).wf(),
            final(self).subscribed() == old(self).subscribed().remove(tx_id@),
            final(self).last_activity == old(self).last_activity,
    {
        let ghost before = self.subscriptions@;
        match self.position(tx_id) {
            Some(i) => {
                self.subscriptions.remove(i);
                proof {
                    let after = self.subscriptions@;
                    assert forall|text: Seq<char>| text_set(after).contains(text) == text_set(
                        before,
                    ).remove(tx_id@).contains(text) by {
                        if text_set(before).contains(text) && text != tx_id@ {
                            let j = choose|j: int|
                                0 <= j < before.len() && #[trigger] before[j]@ == text;
                            let k = if j < i {
                                j
                            } else {
                                j - 1
                            };
                            assert(after[k]@ == text);
                        }
                        if text_set(after).contains(text) {
                            let j = choose|j: int|
                                0 <= j < after.len() && #[trigger] after[j]@ == text;
                            let k = if j < i {
                                j
                            } else {
                                j + 1
                            };
                            assert(after[j] == before[k]);
                            assert(before[k]@ == text);
                            assert(before[i as int]@ != before[k]@);
                        }
                    }
                    assert(text_set(after) =~= text_set(before).remove(tx_id@));
                }
            },
            None => {
                proof {
                    assert(self.subscribed().remove(tx_id@) =~= self.subscribed());
                }
            },
        }
    }

    /// Takes in what happened at `now`, and says what is to be done.
    pub fn step(&mut self, state: &mut AppState, event: WsEvent, now: u128) -> (r: WsAction)
        requires
            old(self).wf(),
        ensures
            final(self).wf(),
            final(state).same_setup(*old(state)),
            final(state).ws_connection_count == old(state).ws_connection_count,
            old(state).wf() ==> final(state).wf(),
            final(self).last_activity == (match event {
                WsEvent::Text(_) => now,
                WsEvent::Pong => now,
                _ => old(self).last_activity,
            }),
            match event {
                WsEvent::Text(Some(message)) if message.action@ == "subscribe"@ => {
                    if old(self).subscriptions@.len() >= MAX_SUBSCRIPTIONS_PER_CONNECTION {
                        &&& r == WsAction::Send(WsReply::SubscriptionLimit)
                        &&& final(self).subscribed() == old(self).subscribed()
                        &&& final(state).subscribers() == old(state).subscribers()
                    } else {
                        &&& r == WsAction::Send(WsReply::Subscribed(message.tx_id))
                        &&& final(self).subscribed() == old(self).subscribed().insert(
                            message.tx_id@,
                        )
                        &&& final(state).subscribers() == with_subscriber(
                            old(state).subscribers(),
                            message.tx_id@,
                        )
                    }
                },
                WsEvent::Text(Some(message)) if message.action@ == "unsubscribe"@ => {
                    &&& r == WsAction::Wait
                    &&& final(self).subscribed() == old(self).subscribed().remove(message.tx_id@)
                    &&& final(state).subscribers() == without_subscriber(
                        old(state).subscribers(),
                        message.tx_id@,
                    )
                },
                other => {
                    &&& final(self).subscriptions == old(self).subscriptions
                    &&& *final(state) == *old(state)
                    &&& r == (match other {
                        WsEvent::Closed => WsAction::Disconnect,
                        WsEvent::NoMoreStatus => WsAction::Disconnect,
                        WsEvent::Status(status) => if old(self).subscribed().contains(
                            status.tx_id@,
                        ) {
                            WsAction::Send(WsReply::StatusUpdate(status))
                        } else {
                            WsAction::Wait
                        },
                        WsEvent::PingTick => if now - old(self).last_activity
                            >= IDLE_TIMEOUT_NANOS {
                            WsAction::Disconnect
                        } else {
                            WsAction::Ping
                        },
                        _ => WsAction::Wait,
                    })
                },
            },
    {
        proof {
            reveal_strlit("subscribe");
            reveal_strlit("unsubscribe");
            assert("subscribe"@.len() != "unsubscribe"@.len());
        }
        match event {
            WsEvent::Text(Some(message)) => {
                self.last_activity = now;
                if same_text(message.action.as_str(), "subscribe") {
                    if self.subscriptions.len() >= MAX_SUBSCRIPTIONS_PER_CONNECTION {
                        return WsAction::Send(WsReply::SubscriptionLimit);
                    }
                    self.insert(message.tx_id.clone());
                    state.add_subscriber(message.tx_id.clone());
                    WsAction::Send(WsReply::Subscribed(message.tx_id))
                } else if same_text(message.action.as_str(), "unsubscribe") {
                    self.remove(message.tx_id.as_str());
                    state.remove_subscriber(message.tx_id.as_str());
                    WsAction::Wait
                } else {
                    WsAction::Wait
                }
            },
            WsEvent::Text(None) => {
                self.last_activity = now;
                WsAction::Wait
            },
            WsEvent::Pong => {
                self.last_activity = now;
                WsAction::Wait
            },
            WsEvent::OtherMessage => WsAction::Wait,
            WsEvent::Closed => WsAction::Disconnect,
            WsEvent::Status(status) => {
                if self.position(status.tx_id.as_str()).is_some() {
                    WsAction::Send(WsReply::StatusUpdate(status))
                } else {
                    WsAction::Wait
                }
            },
            WsEvent::Lagged => WsAction::Wait,
            WsEvent::NoMoreStatus => WsAction::Disconnect,
            WsEvent::PingTick => {
                if now >= self.last_activity && now - self.last_activity >= IDLE_TIMEOUT_NANOS {
                    WsAction::Disconnect
                } else {
                    WsAction::Ping
                }
            },
        }
    }

    /// Ends the connection, however it came to its end: every subscription is taken
    /// back, and the connection given up.
    pub fn close(self, state: &mut AppState)
        requires
            self.wf(),
        ensures
            final(state).subscribers() == without_subscribers(
                old(state).subscribers(),
                self.subscribed(),
            ),
            final(state).ws_connection_count == if old(state).ws_connection_count > 0 {
                (old(state).ws_connection_count - 1) as usize
            } else {
                usize::MAX
            },
            final(state).same_setup(*old(state)),
            old(state).wf() && old(state).ws_connection_count > 0 ==> final(state).wf(),
    {
        let ghost counts = state.subscribers();
        let mut i: usize = 0;
        proof {
            assert(without_subscribers(counts, text_set(self.subscriptions@.take(0))) =~= counts);
        }
        while i < self.subscriptions.len()
            invariant
                i <= self.subscriptions@.len(),
                self.wf(),
                counts == old(state).subscribers(),
                state.subscribers() == without_subscribers(
                    counts,
                    text_set(self.subscriptions@.take(i as int)),
                ),
                state.ws_connection_count == old(state).ws_connection_count,
                state.same_setup(*old(state)),
                old(state).wf() ==> state.wf(),
            decreases self.subscriptions@.len() - i,
        {
            state.remove_subscriber(self.subscriptions[i].as_str());
            proof {
                lemma_one_more(counts, self.subscriptions@, i as int);
            }
            i = i + 1;
        }
        proof {
            assert(self.subscriptions@.take(i as int) =~= self.subscriptions@);
        }
        state.release_ws_connection();
    }
}

/// Taking back the subscribers of a list is taking them back one by one.
proof fn lemma_one_more(counts: Map<Seq<char>, usize>, subscriptions: Seq<String>, i: int)
    requires
        0 <= i < subscriptions.len(),
        all_distinct(subscriptions),
    ensures
        without_subscriber(
            without_subscribers(counts, text_set(subscriptions.take(i))),
            subscriptions[i]@,
        ) == without_subscribers(counts, text_set(subscriptions.take(i + 1))),
{
    let seen = text_set(subscriptions.take(i));
    let next = text_set(subscriptions.take(i + 1));
    let key = subscriptions[i]@;
    assert(!seen.contains(key)) by {
        if seen.contains(key) {
            let j = choose|j: int|
                0 <= j < subscriptions.take(i).len() && #[trigger] subscriptions.take(i)[j]@ == key;
            assert(subscriptions[j]@ == key);
        }
    }
    assert forall|text: Seq<char>| next.contains(text) == (seen.contains(text) || text == key) by {
        if seen.contains(text) {
            let j = choose|j: int|
                0 <= j < subscriptions.take(i).len() && #[trigger] subscriptions.take(i)[j]@
                    == text;
            assert(subscriptions.take(i + 1)[j]@ == text);
        }
        if text == key {
            assert(subscriptions.take(i + 1)[i]@ == text);
        }
        if next.contains(text) && text != key {
            let j = choose|j: int|
                0 <= j < subscriptions.take(i + 1).len() && #[trigger] subscriptions.take(
                    i + 1,
                )[j]@ == text;
            assert(subscriptions.take(i)[j]@ == text);
        }
    }
    assert(without_subscriber(without_subscribers(counts, seen), key) =~= without_subscribers(
        counts,
        next,
    ));
}

/// Whether `data` is an object with just these text members, in this order.
pub open spec fn has_texts(data: Json, members: Seq<(Seq<char>, Seq<char>)>) -> bool {
    &&& data is Object
    &&& data->Object_0@.len() == members.len()
    &&& forall|i: int|
        0 <= i < members.len() ==> (#[trigger] data->Object_0@[i]).0@ == members[i].0
            && data->Object_0@[i].1.text() == Some(members[i].1)
}

/// The status of an event as messages carry it.
pub open spec fn status_text(event: TransactionStatusEvent) -> Seq<char> {
    match event.status {
        TransactionStatus::Pending => "PENDING"@,
        TransactionStatus::Submitted => "SUBMITTED"@,
        TransactionStatus::Confirmed => "CONFIRMED"@,
        TransactionStatus::Failed => "FAILED"@,
    }
}

/// Whether `message` is what a client receives for `reply`.
pub open spec fn is_message(reply: WsReply, message: WsMessage) -> bool {
    match reply {
        WsReply::SubscriptionLimit => message.msg_type@ == "error"@ && has_texts(
            message.data,
            seq![("message"@, "subscription limit reached"@)],
        ),
        WsReply::Subscribed(tx_id) => message.msg_type@ == "subscribed"@ && has_texts(
            message.data,
            seq![("tx_id"@, tx_id@), ("status"@, "subscribed"@)],
        ),
        WsReply::StatusUpdate(event) => {
            &&& message.msg_type@ == "status_update"@
            &&& message.data is Object
            &&& message.data->Object_0@.len() == 4
            &&& message.data->Object_0@[3].0@ == "message"@
            &&& match event.message {
                Some(text) => message.data->Object_0@[3].1.text() == Some(text@),
                None => message.data->Object_0@[3].1 is Null,
            }
            &&& message.data->Object_0@[0].0@ == "tx_id"@
            &&& message.data->Object_0@[0].1.text() == Some(event.tx_id@)
            &&& message.data->Object_0@[1].0@ == "status"@
            &&& message.data->Object_0@[1].1.text() == Some(status_text(event))
            &&& message.data->Object_0@[2].0@ == "timestamp"@
            &&& message.data->Object_0@[2].1.text() == Some(event.timestamp@)
        },
    }
}

/// The message that a client receives for a reply.
pub fn reply_message(reply: WsReply) -> (r: WsMessage)
    ensures
        is_message(reply, r),
{
    let mut members: Vec<(String, Json)> = Vec::new();
    match reply {
        WsReply::SubscriptionLimit => {
            members.push(
                ("message".to_owned(), Json::Text("subscription limit reached".to_owned())),
            );
            WsMessage { msg_type: "error".to_owned(), data: Json::Object(members) }
        },
        WsReply::Subscribed(tx_id) => {
            members.push(("tx_id".to_owned(), Json::Text(tx_id)));
            members.push(("status".to_owned(), Json::Text("subscribed".to_owned())));
            WsMessage { msg_type: "subscribed".to_owned(), data: Json::Object(members) }
        },
        WsReply::StatusUpdate(event) => {
            let status: String = event.status.wire_name().to_owned();
            members.push(("tx_id".to_owned(), Json::Text(event.tx_id)));
            members.push(("status".to_owned(), Json::Text(status)));
            members.push(("timestamp".to_owned(), Json::Text(event.timestamp)));
            let message: Json = match event.message {
                Some(text) => Json::Text(text),
                None => Json::Null,
            };
            members.push(("message".to_owned(), message));
            WsMessage { msg_type: "status_update".to_owned(), data: Json::Object(members) }
        },
    }
}

/// The subscriber counts after subscriptions to `keys`, one after the other.
pub open spec fn with_each(counts: Map<Seq<char>, usize>, keys: Seq<Seq<char>>) -> Map<
    Seq<char>,
    usize,
>
    decreases keys.len(),
{
    if keys.len() == 0 {
        counts
    } else {
        with_subscriber(with_each(counts, keys.drop_last()), keys.last())
    }
}

/// What subscriptions to different transactions do to each count.
proof fn lemma_with_each(counts: Map<Seq<char>, usize>, keys: Seq<Seq<char>>)
    requires
        keys.no_duplicates(),
        forall|key: Seq<char>| #[trigger] counts.contains_key(key) ==> counts[key] < usize::MAX,
    ensures
        forall|key: Seq<char>| #[trigger]
            with_each(counts, keys).contains_key(key) <==> counts.contains_key(key)
                || keys.contains(key),
        forall|key: Seq<char>|
            with_each(counts, keys).contains_key(key) ==> #[trigger] with_each(counts, keys)[key]
                == if !keys.contains(key) {
                counts[key]
            } else if counts.contains_key(key) {
                (counts[key] + 1) as usize
            } else {
                1
            },
    decreases keys.len(),
{
    if keys.len() > 0 {
        let rest = keys.drop_last();
        let last = keys.last();
        lemma_with_each(counts, rest);
        assert(!rest.contains(last)) by {
            if rest.contains(last) {
                let i = choose|i: int| 0 <= i < rest.len() && rest[i] == last;
                assert(keys[i] == keys[keys.len() - 1]);
            }
        }
        assert forall|key: Seq<char>| keys.contains(key) == (rest.contains(key) || key == last) by {
            if rest.contains(key) {
                let i = choose|i: int| 0 <= i < rest.len() && rest[i] == key;
                assert(keys[i] == key);
            }
            if keys.contains(key) && key != last {
                let i = choose|i: int| 0 <= i < keys.len() && keys[i] == key;
                assert(rest[i] == key);
            }
            if key == last {
                assert(keys[keys.len() - 1] == key);
            }
        }
        let before = with_each(counts, rest);
        assert(before.contains_key(last) ==> before[last] == counts[last]);
    }
}

/// A connection that subscribes to different transactions and then ends, however it
/// ends, leaves every subscriber count as it found it.
pub proof fn session_leaves_no_trace(counts: Map<Seq<char>, usize>, keys: Seq<Seq<char>>)
    requires
        keys.no_duplicates(),
        forall|key: Seq<char>| #[trigger]
            counts.contains_key(key) ==> 0 < counts[key] < usize::MAX,
    ensures
        without_subscribers(with_each(counts, keys), keys.to_set()) == counts,
{
    lemma_with_each(counts, keys);
    let during = with_each(counts, keys);
    let after = without_subscribers(during, keys.to_set());
    assert forall|key: Seq<char>| after.contains_key(key) == counts.contains_key(key) by {
        assert(keys.to_set().contains(key) == keys.contains(key));
        if during.contains_key(key) {
            assert(during[key] == during[key]);
        }
    }
    assert forall|key: Seq<char>| counts.contains_key(key) implies after[key] == counts[key] by {
        assert(keys.to_set().contains(key) == keys.contains(key));
        assert(during.contains_key(key));
        assert(after.contains_key(key));
    }
    assert(after =~= counts);
}

} // verus!
