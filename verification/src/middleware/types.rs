//! The state that the call policies share.

use crate::common::Address;
use crate::store::KeyedStore;
use vstd::prelude::*;

verus! {

/// The policies of one route.
#[derive(Clone, Copy, Debug, PartialEq)]
pub struct RouteConfig {
    /// Calls per caller and window; 0 is unlimited
    pub max_calls_per_window: u32,
    pub window_seconds: u64,
    /// Failures in a row that open the circuit
    pub failure_threshold: u32,
    /// Seconds after which an open circuit admits a probe; 0 is never
    pub recovery_window_seconds: u64,
    /// Capacity of the call log; 0 is no log
    pub log_retention: u32,
}

/// The calls of one caller on one route.
#[derive(Clone, Copy, Debug, PartialEq)]
pub struct RateLimitState {
    pub calls_in_window: u32,
    pub window_start: u64,
    pub total_violations: u32,
}

/// The circuit breaker of one route.
#[derive(Clone, Copy, Debug, PartialEq)]
pub struct CircuitBreakerState {
    pub failure_count: u32,
    pub opened_at: u64,
    pub is_open: bool,
    pub is_half_open: bool,
}

/// What calls on a route have led to: a rate limit per caller, one breaker.
pub struct RouteCallState {
    pub rate_limits: KeyedStore<Address, RateLimitState>,
    pub circuit_breaker: CircuitBreakerState,
}

impl RouteCallState {
    /// The same state once more, as it is written to storage.
    pub fn snapshot(&self) -> (r: Self)
        ensures
            r.rate_limits.entries@ == self.rate_limits.entries@,
            r.circuit_breaker == self.circuit_breaker,
    {
        let mut entries: Vec<(Address, RateLimitState)> = Vec::new();
        let mut i: usize = 0;
        while i < self.rate_limits.entries.len()
            invariant
                i <= self.rate_limits.entries@.len(),
                entries@ == self.rate_limits.entries@.take(i as int),
            decreases self.rate_limits.entries@.len() - i,
        {
            proof {
                assert(self.rate_limits.entries@.take(i + 1) =~= entries@.push(
                    self.rate_limits.entries@[i as int],
                ));
            }
            entries.push((self.rate_limits.entries[i].0.clone(), self.rate_limits.entries[i].1));
            i = i + 1;
        }
        proof {
            assert(entries@ =~= self.rate_limits.entries@);
        }
        RouteCallState {
            rate_limits: KeyedStore { entries },
            circuit_breaker: self.circuit_breaker,
        }
    }
}

/// One logged call.
#[derive(Debug, PartialEq)]
pub struct CallLogEntry {
    pub caller: Address,
    pub timestamp: u64,
    pub success: bool,
    pub route: String,
}

/// A ring of the latest calls: `head` is where the next entry goes once the ring
/// is full, `count` how many of the entries have been written.
#[derive(Debug, PartialEq)]
pub struct CallLogState {
    pub entries: Vec<CallLogEntry>,
    pub head: u32,
    pub count: u32,
}

impl CallLogState {
    /// The head stands inside the ring.
    pub open spec fn wf(self) -> bool {
        &&& self.entries@.len() <= u32::MAX
        &&& self.head == 0 || self.head < self.entries@.len()
    }

    /// The entries from the oldest to the latest.
    pub open spec fn chronological(self) -> Seq<CallLogEntry> {
        self.entries@.skip(self.head as int) + self.entries@.take(self.head as int)
    }
}

/// Totals over all calls of a route, logged or overwritten since.
#[derive(Clone, Copy, Debug, PartialEq)]
pub struct CallLogSummary {
    pub total_calls: u64,
    pub success_count: u64,
    pub failure_count: u64,
    pub last_call_timestamp: u64,
}

/// What the policies publish.
#[derive(Debug, PartialEq)]
pub enum MiddlewareEvent {
    CircuitOpened { route: String, failure_count: u32 },
}

impl MiddlewareEvent {
    /// The topic under which the event is published.
    pub fn topic(&self) -> (r: &'static str)
        ensures
            r@ == "circuit_opened"@,
    {
        match self {
            MiddlewareEvent::CircuitOpened { .. } => "circuit_opened",
        }
    }
}

/// What the policies keep per route, and what they have published.
pub struct MiddlewareStorage {
    pub call_states: KeyedStore<String, RouteCallState>,
    pub call_logs: KeyedStore<String, CallLogState>,
    pub call_log_summaries: KeyedStore<String, CallLogSummary>,
    pub events: Vec<MiddlewareEvent>,
}

impl MiddlewareStorage {
    pub fn new() -> (r: Self)
        ensures
            r.call_states@ == Map::<Seq<char>, RouteCallState>::empty(),
            r.call_logs@ == Map::<Seq<char>, CallLogState>::empty(),
            r.call_log_summaries@ == Map::<Seq<char>, CallLogSummary>::empty(),
            r.events@.len() == 0,
    {
        MiddlewareStorage {
            call_states: KeyedStore::new(),
            call_logs: KeyedStore::new(),
            call_log_summaries: KeyedStore::new(),
            events: Vec::new(),
        }
    }
}

} // verus!
