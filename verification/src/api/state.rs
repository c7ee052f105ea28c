//! What the handlers of the API share.

use super::rate_limit::RateLimiter;
use super::rpc::SorobanRpcClient;
use super::types::TransactionStatusEvent;
use dashmap::DashMap;
use tokio::sync::broadcast;
use vstd::prelude::*;

verus! {

pub const MAX_WS_CONNECTIONS: usize = 100;

pub const MAX_SUBSCRIPTIONS_PER_CONNECTION: usize = 100;

/// How many status events the broadcast channel retains.
pub const STATUS_CHANNEL_CAPACITY: usize = 1000;

/// The sending half of a broadcast channel of the `tokio` crate.
#[verifier::external_type_specification]
#[verifier::external_body]
#[verifier::reject_recursive_types(T)]
pub struct ExSender<T>(broadcast::Sender<T>);

/// The number of subscribers of every transaction.
pub uninterp spec fn subscriber_contents(subscribers: DashMap<String, usize>) -> Map<
    Seq<char>,
    usize,
>;

/// Calls [`DashMap::new`], which makes an empty map.
#[verifier::external_body]
fn new_subscribers() -> (r: DashMap<String, usize>)
    ensures
        forall|key: Seq<char>| !(#[trigger] subscriber_contents(r).contains_key(key)),
{
    DashMap::new()
}

/// Calls [`DashMap::get`], which looks up the value under a key, and copies it out.
#[verifier::external_body]
fn get_subscribers(subscribers: &DashMap<String, usize>, key: &str) -> (r: Option<usize>)
    ensures
        r == (if subscriber_contents(*subscribers).contains_key(key@) {
            Some(subscriber_contents(*subscribers)[key@])
        } else {
            None
        }),
{
    subscribers.get(key).map(|entry| *entry.value())
}

/// Calls [`DashMap::insert`], which puts a value under a key in place of any that
/// was there.
#[verifier::external_body]
fn set_subscribers(subscribers: &mut DashMap<String, usize>, key: String, count: usize)
    ensures
        subscriber_contents(*final(subscribers)) == subscriber_contents(*old(subscribers)).insert(
            key@,
            count,
        ),
{
    subscribers.insert(key, count);
}

/// Calls [`DashMap::remove`], which takes a key and its value out of the map.
#[verifier::external_body]
fn drop_subscribers(subscribers: &mut DashMap<String, usize>, key: &str)
    ensures
        subscriber_contents(*final(subscribers)) == subscriber_contents(*old(subscribers)).remove(
            key@,
        ),
{
    subscribers.remove(key);
}

/// The events that a channel has taken in, the first one first.
pub uninterp spec fn sent_events(
    sender: broadcast::Sender<TransactionStatusEvent>,
) -> Seq<TransactionStatusEvent>;

/// Calls [`broadcast::channel`] for a channel that retains `capacity` events, and
/// keeps its sending half. A new channel has taken in nothing. Nothing is claimed of
/// what it retains, which shows only in what its receivers get.
#[verifier::external_body]
fn status_channel(capacity: usize) -> (r: broadcast::Sender<TransactionStatusEvent>)
    requires
        0 < capacity <= 0x7fff_ffff,
    ensures
        sent_events(r).len() == 0,
{
    broadcast::channel(capacity).0
}

/// Calls [`broadcast::Sender::send`], which takes the event in for all current
/// receivers and returns their number, or hands it back where there are none.
#[verifier::external_body]
fn send_status(
    sender: &mut broadcast::Sender<TransactionStatusEvent>,
    event: TransactionStatusEvent,
) -> (r: Result<usize, TransactionStatusEvent>)
    ensures
        match r {
            Ok(receivers) => receivers > 0 && sent_events(*final(sender)) == sent_events(
                *old(sender),
            ).push(event),
            Err(back) => back == event && sent_events(*final(sender)) == sent_events(*old(sender)),
        },
{
    sender.send(event).map_err(|e| e.0)
}

/// Whether no transaction is listed without a subscriber.
pub open spec fn all_positive(counts: Map<Seq<char>, usize>) -> bool {
    forall|key: Seq<char>| #[trigger] counts.contains_key(key) ==> counts[key] > 0
}

/// The subscriber counts with one subscriber of `key` more.
pub open spec fn with_subscriber(counts: Map<Seq<char>, usize>, key: Seq<char>) -> Map<
    Seq<char>,
    usize,
> {
    if !counts.contains_key(key) {
        counts.insert(key, 1)
    } else if counts[key] < usize::MAX {
        counts.insert(key, (counts[key] + 1) as usize)
    } else {
        counts
    }
}

/// The subscriber counts with one subscriber of `key` less: the last one takes the
/// entry with it, and where there is none nothing changes.
pub open spec fn without_subscriber(counts: Map<Seq<char>, usize>, key: Seq<char>) -> Map<
    Seq<char>,
    usize,
> {
    if !counts.contains_key(key) {
        counts
    } else if counts[key] > 1 {
        counts.insert(key, (counts[key] - 1) as usize)
    } else {
        counts.remove(key)
    }
}

/// What the handlers share.
pub struct AppState {
    pub rpc: SorobanRpcClient,
    pub execution_contract_id: String,
    pub router_core_contract_id: String,
    pub rate_limiter: RateLimiter,
    pub tx_status_tx: broadcast::Sender<TransactionStatusEvent>,
    pub tx_subscribers: DashMap<String, usize>,
    pub ws_connection_count: usize,
}

impl AppState {
    /// The number of subscribers of every transaction.
    pub open spec fn subscribers(self) -> Map<Seq<char>, usize> {
        subscriber_contents(self.tx_subscribers)
    }

    /// The status events that were handed to listening connections.
    pub open spec fn sent(self) -> Seq<TransactionStatusEvent> {
        sent_events(self.tx_status_tx)
    }

    /// There are never more connections than are accepted, and every transaction
    /// listed has a subscriber.
    pub open spec fn wf(self) -> bool {
        &&& self.ws_connection_count <= MAX_WS_CONNECTIONS
        &&& all_positive(self.subscribers())
    }

    /// Nothing but the subscribers and the connection count differs.
    pub open spec fn same_setup(self, other: Self) -> bool {
        &&& self.rpc == other.rpc
        &&& self.execution_contract_id == other.execution_contract_id
        &&& self.router_core_contract_id == other.router_core_contract_id
        &&& self.rate_limiter == other.rate_limiter
        &&& self.tx_status_tx == other.tx_status_tx
    }

    pub fn new(
        rpc_url: String,
        execution_contract_id: String,
        router_core_contract_id: String,
        rate_limiter: RateLimiter,
    ) -> (r: Self)
        ensures
            r.wf(),
            r.rpc.rpc_url == rpc_url,
            r.rpc.router_core_contract_id == Some(router_core_contract_id),
            r.execution_contract_id == execution_contract_id,
            r.router_core_contract_id == router_core_contract_id,
            r.rate_limiter == rate_limiter,
            r.subscribers() == Map::<Seq<char>, usize>::empty(),
            r.ws_connection_count == 0,
            r.sent().len() == 0,
    {
        let r = AppState {
            rpc: SorobanRpcClient::new(rpc_url, Some(router_core_contract_id.clone())),
            execution_contract_id,
            router_core_contract_id,
            rate_limiter,
            tx_status_tx: status_channel(STATUS_CHANNEL_CAPACITY),
            tx_subscribers: new_subscribers(),
            ws_connection_count: 0,
        };
        proof {
            assert(r.subscribers() =~= Map::<Seq<char>, usize>::empty());
        }
        r
    }

    /// Hands a status event to every connection that is listening; where none is, the
    /// event is lost.
    pub fn broadcast_status(&mut self, event: TransactionStatusEvent)
        ensures
            final(self).sent() == old(self).sent().push(event) || final(self).sent() == old(
                self,
            ).sent(),
            final(self).rpc == old(self).rpc,
            final(self).execution_contract_id == old(self).execution_contract_id,
            final(self).router_core_contract_id == old(self).router_core_contract_id,
            final(self).rate_limiter == old(self).rate_limiter,
            final(self).tx_subscribers == old(self).tx_subscribers,
            final(self).ws_connection_count == old(self).ws_connection_count,
            old(self).wf() ==> final(self).wf(),
    {
        let _ = send_status(&mut self.tx_status_tx, event);
    }

    /// Counts a subscriber of a transaction.
    pub fn add_subscriber(&mut self, tx_id: String)
        ensures
            final(self).subscribers() == with_subscriber(old(self).subscribers(), tx_id@),
            final(self).same_setup(*old(self)),
            final(self).ws_connection_count == old(self).ws_connection_count,
            old(self).wf() ==> final(self).wf(),
    {
        match get_subscribers(&self.tx_subscribers, tx_id.as_str()) {
            Some(count) => {
                let count: usize = count.saturating_add(1);
                proof {
                    if old(self).subscribers()[tx_id@] == usize::MAX {
                        assert(old(self).subscribers().insert(tx_id@, count) =~= old(
                            self,
                        ).subscribers());
                    }
                }
                set_subscribers(&mut self.tx_subscribers, tx_id, count);
            },
            None => set_subscribers(&mut self.tx_subscribers, tx_id, 1),
        }
    }

    /// Takes back one subscriber of a transaction.
    pub fn remove_subscriber(&mut self, tx_id: &str)
        ensures
            final(self).subscribers() == without_subscriber(old(self).subscribers(), tx_id@),
            final(self).same_setup(*old(self)),
            final(self).ws_connection_count == old(self).ws_connection_count,
            old(self).wf() ==> final(self).wf(),
    {
        match get_subscribers(&self.tx_subscribers, tx_id) {
            Some(count) => {
                if count > 1 {
                    set_subscribers(&mut self.tx_subscribers, tx_id.to_owned(), count - 1);
                } else {
                    drop_subscribers(&mut self.tx_subscribers, tx_id);
                }
            },
            None => {},
        }
    }

    /// Accepts a new connection, unless the limit is reached.
    pub fn try_acquire_ws_connection(&mut self) -> (r: bool)
        ensures
            r == (old(self).ws_connection_count < MAX_WS_CONNECTIONS),
            final(self).ws_connection_count == if r {
                (old(self).ws_connection_count + 1) as usize
            } else {
                old(self).ws_connection_count
            },
            final(self).same_setup(*old(self)),
            final(self).tx_subscribers == old(self).tx_subscribers,
            old(self).wf() ==> final(self).wf(),
    {
        if self.ws_connection_count < MAX_WS_CONNECTIONS {
            self.ws_connection_count = self.ws_connection_count + 1;
            true
        } else {
            false
        }
    }

    /// Gives up a connection. Of the connections accepted none may be given up twice:
    /// the count wraps around below zero.
    pub fn release_ws_connection(&mut self)
        ensures
            final(self).ws_connection_count == if old(self).ws_connection_count > 0 {
                (old(self).ws_connection_count - 1) as usize
            } else {
                usize::MAX
            },
            final(self).same_setup(*old(self)),
            final(self).tx_subscribers == old(self).tx_subscribers,
            old(self).wf() && old(self).ws_connection_count > 0 ==> final(self).wf(),
    {
        self.ws_connection_count = self.ws_connection_count.wrapping_sub(1);
    }
}

/// Removing a subscriber undoes adding one: a client that leaves, leaves no trace.
pub proof fn remove_undoes_add(counts: Map<Seq<char>, usize>, key: Seq<char>)
    requires
        counts.contains_key(key) ==> 0 < counts[key] < usize::MAX,
    ensures
        without_subscriber(with_subscriber(counts, key), key) == counts,
{
    assert(without_subscriber(with_subscriber(counts, key), key) =~= counts);
}

/// The counts after `n` more subscribers of one transaction.
pub open spec fn with_subscribers(counts: Map<Seq<char>, usize>, key: Seq<char>, n: nat) -> Map<
    Seq<char>,
    usize,
>
    decreases n,
{
    if n == 0 {
        counts
    } else {
        with_subscriber(with_subscribers(counts, key, (n - 1) as nat), key)
    }
}

/// Every client that subscribes to a transaction counts: `n` of them on a new
/// transaction make `n`.
pub proof fn subscribers_count_clients(counts: Map<Seq<char>, usize>, key: Seq<char>, n: nat)
    requires
        !counts.contains_key(key),
        0 < n <= usize::MAX,
    ensures
        with_subscribers(counts, key, n) == counts.insert(key, n as usize),
    decreases n,
{
    if n > 1 {
        subscribers_count_clients(counts, key, (n - 1) as nat);
    } else {
        assert(with_subscribers(counts, key, 0) == counts);
    }
    assert(with_subscribers(counts, key, n) =~= counts.insert(key, n as usize));
}

/// The counts after `n` subscribers of one transaction have left.
pub open spec fn without_subscribers(counts: Map<Seq<char>, usize>, key: Seq<char>, n: nat) -> Map<
    Seq<char>,
    usize,
>
    decreases n,
{
    if n == 0 {
        counts
    } else {
        without_subscriber(without_subscribers(counts, key, (n - 1) as nat), key)
    }
}

/// Of `m` subscribers of a new transaction, `m - k` are left once `k` have left, and no
/// entry once all have; the counts of other transactions stay as they were.
pub proof fn leavers_are_counted(counts: Map<Seq<char>, usize>, key: Seq<char>, m: nat, k: nat)
    requires
        !counts.contains_key(key),
        m <= usize::MAX,
    ensures
        without_subscribers(with_subscribers(counts, key, m), key, k) == if k < m {
            counts.insert(key, (m - k) as usize)
        } else {
            counts
        },
    decreases k,
{
    if k == 0 {
        if m > 0 {
            subscribers_count_clients(counts, key, m);
        }
    } else {
        leavers_are_counted(counts, key, m, (k - 1) as nat);
        assert(without_subscribers(with_subscribers(counts, key, m), key, k) =~= if k < m {
            counts.insert(key, (m - k) as usize)
        } else {
            counts
        });
    }
}

/// Subscribers of one transaction do not affect those of another.
pub proof fn transactions_are_independent(
    counts: Map<Seq<char>, usize>,
    key: Seq<char>,
    other: Seq<char>,
)
    requires
        key != other,
    ensures
        with_subscriber(counts, key).contains_key(other) == counts.contains_key(other),
        without_subscriber(counts, key).contains_key(other) == counts.contains_key(other),
        counts.contains_key(other) ==> with_subscriber(counts, key)[other] == counts[other]
            && without_subscriber(counts, key)[other] == counts[other],
{
}

} // verus!
