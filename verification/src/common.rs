//! Shared types and checks of the router suite.
//!
//! Event topics are past-tense snake_case names, spelled once here.

use vstd::prelude::*;

verus! {

/// A ledger address in its text form.
pub type Address = String;

/// A contract function name or event symbol in its text form.
pub type Symbol = String;

/// Standard event topic for admin transfer operations
pub const EVENT_ADMIN_TRANSFERRED: &'static str = "admin_transferred";

/// Standard event topic for route registration
pub const EVENT_ROUTE_REGISTERED: &'static str = "route_registered";

/// Standard event topic for route updates
pub const EVENT_ROUTE_UPDATED: &'static str = "route_updated";

/// Standard event topic for route overwrites
pub const EVENT_ROUTE_OVERWRITTEN: &'static str = "route_overwritten";

/// Standard event topic for paused route resolution attempts
pub const EVENT_ROUTE_RESOLVE_PAUSED: &'static str = "route_resolve_paused";

/// Standard event topic for successful routing
pub const EVENT_ROUTED: &'static str = "routed";

/// Standard event topic for route scoring
pub const EVENT_ROUTE_SCORED: &'static str = "route_scored";

/// Standard event topic for best route selection
pub const EVENT_BEST_ROUTE_SELECTED: &'static str = "best_route_selected";

/// Standard event topic for metadata updates
pub const EVENT_METADATA_UPDATED: &'static str = "metadata_updated";

/// Standard event topic for alias additions
pub const EVENT_ALIAS_ADDED: &'static str = "alias_added";

/// Standard event topic for role grants
pub const EVENT_ROLE_GRANTED: &'static str = "role_granted";

/// Standard event topic for role revocations
pub const EVENT_ROLE_REVOKED: &'static str = "role_revoked";

/// Standard event topic for role parent assignments
pub const EVENT_ROLE_PARENT_SET: &'static str = "role_parent_set";

/// Standard event topic for role parent removals
pub const EVENT_ROLE_PARENT_REMOVED: &'static str = "role_parent_removed";

/// Standard event topic for address blacklisting
pub const EVENT_ADDRESS_BLACKLISTED: &'static str = "address_blacklisted";

/// Standard event topic for execution results
pub const EVENT_EXECUTION_RESULT: &'static str = "execution_result";

/// Standard event topic for execution retries
pub const EVENT_EXECUTION_RETRY: &'static str = "execution_retry";

/// Standard event topic for execution errors
pub const EVENT_EXECUTION_ERROR: &'static str = "execution_error";

/// Standard event topic for simulation results
pub const EVENT_SIMULATION_RESULT: &'static str = "simulation_result";

/// Standard event topic for fee estimations
pub const EVENT_FEE_ESTIMATED: &'static str = "fee_estimated";

/// Standard event topic for quote generation
pub const EVENT_QUOTE_GENERATED: &'static str = "quote_generated";

/// Standard event topic for pre-call middleware hooks
pub const EVENT_PRE_CALL: &'static str = "pre_call";

/// Standard event topic for post-call middleware hooks
pub const EVENT_POST_CALL: &'static str = "post_call";

/// Standard event topic for circuit breaker opening
pub const EVENT_CIRCUIT_OPENED: &'static str = "circuit_opened";

/// Standard event topic for call log clearing
pub const EVENT_CALL_LOG_CLEARED: &'static str = "call_log_cleared";

/// Standard event topic for multicall results
pub const EVENT_CALL_RESULT: &'static str = "call_result";

/// Standard event topic for max batch size updates
pub const EVENT_MAX_BATCH_SIZE_UPDATED: &'static str = "max_batch_size_updated";

/// Standard event topic for timelock operation queueing
pub const EVENT_OP_QUEUED: &'static str = "op_queued";

/// Standard event topic for contract registration in registry
pub const EVENT_CONTRACT_REGISTERED: &'static str = "contract_registered";

/// Standard event topic for contract deprecation in registry
pub const EVENT_CONTRACT_DEPRECATED: &'static str = "contract_deprecated";

/// Standard event topic for route TTL assignment
pub const EVENT_ROUTE_TTL_SET: &'static str = "route_ttl_set";

/// Standard event topic for route TTL extensions
pub const EVENT_ROUTE_TTL_EXTENDED: &'static str = "route_ttl_extended";

/// Standard event topic for expired route resolution attempts
pub const EVENT_ROUTE_RESOLVE_EXPIRED: &'static str = "route_resolve_expired";

/// Standard event topic for route removals
pub const EVENT_ROUTE_REMOVED: &'static str = "route_removed";

/// Standard event topic for route pause changes
pub const EVENT_ROUTE_PAUSED: &'static str = "route_paused";

/// Standard event topic for router pause changes
pub const EVENT_ROUTER_PAUSED: &'static str = "router_paused";

/// Standard event topic for route tag additions
pub const EVENT_ROUTE_TAG_ADDED: &'static str = "route_tag_added";

/// Standard event topic for route tag removals
pub const EVENT_ROUTE_TAG_REMOVED: &'static str = "route_tag_removed";

/// Standard event topic for alias removals
pub const EVENT_ALIAS_REMOVED: &'static str = "alias_removed";

/// Standard event topic for timelock operation execution
pub const EVENT_OP_EXECUTED: &'static str = "op_executed";

/// Standard event topic for timelock operation cancellation
pub const EVENT_OP_CANCELLED: &'static str = "op_cancelled";

/// Standard event topic for timelock description updates
pub const EVENT_OP_DESCRIPTION_UPDATED: &'static str = "op_description_updated";

/// Standard event topic for the removal of stale operations
pub const EVENT_OPS_CLEANED: &'static str = "ops_cleaned";

/// Standard event topic for minimum delay updates
pub const EVENT_MIN_DELAY_UPDATED: &'static str = "min_delay_updated";

/// Whether `c` is a space, tab, newline, vertical tab, form feed or carriage return.
pub open spec fn is_whitespace_char(c: char) -> bool {
    c == ' ' || '\t' <= c <= '\r'
}

/// Returns `true` if `s` is empty or consists entirely of ASCII whitespace.
pub fn is_whitespace_only(s: &str) -> (r: bool)
    ensures
        r == forall|i: int| 0 <= i < s@.len() ==> is_whitespace_char(#[trigger] s@[i]),
{
    for c in it: s.chars()
        invariant
            it.seq() == s@,
            forall|i: int| 0 <= i < it.index() ==> is_whitespace_char(#[trigger] s@[i]),
    {
        if !(c == ' ' || ('\t' <= c && c <= '\r')) {
            proof {
                assert(!is_whitespace_char(s@[it.index() as int]));
            }
            return false;
        }
    }
    true
}

/// Checks that `caller` is the stored admin: `not_initialized` where there is
/// none, `unauthorized` where it is somebody else.
pub fn require_admin<E>(
    admin: &Option<Address>,
    caller: &Address,
    not_initialized: E,
    unauthorized: E,
) -> (r: Result<(), E>)
    ensures
        r == admin_check(*admin, *caller, not_initialized, unauthorized),
{
    match admin {
        None => Err(not_initialized),
        Some(a) => {
            if a.eq(caller) {
                Ok(())
            } else {
                Err(unauthorized)
            }
        },
    }
}

/// What an admin check answers.
pub open spec fn admin_check<E>(
    admin: Option<Address>,
    caller: Address,
    not_initialized: E,
    unauthorized: E,
) -> Result<(), E> {
    match admin {
        None => Err(not_initialized),
        Some(a) => if a@ == caller@ {
            Ok(())
        } else {
            Err(unauthorized)
        },
    }
}

/// One entry of a batch that went through.
#[derive(Clone, Copy, Debug, PartialEq)]
pub struct BatchSuccess {
    pub index: u32,
}

/// One entry of a batch that did not, with the name of its error.
#[derive(Debug, PartialEq)]
pub struct BatchFailure {
    pub index: u32,
    pub message: String,
}

impl View for BatchFailure {
    type V = (u32, Seq<char>);

    open spec fn view(&self) -> (u32, Seq<char>) {
        (self.index, self.message@)
    }
}

/// The outcome of a batch, entry by entry.
#[derive(Debug, PartialEq)]
pub struct BatchResult {
    pub successes: Vec<BatchSuccess>,
    pub failures: Vec<BatchFailure>,
}

impl BatchResult {
    pub fn new() -> (r: Self)
        ensures
            r.successes@.len() == 0,
            r.failures@.len() == 0,
    {
        BatchResult { successes: Vec::new(), failures: Vec::new() }
    }

    pub fn record_success(&mut self, index: u32)
        ensures
            final(self).successes@ == old(self).successes@.push(BatchSuccess { index }),
            final(self).failures@ == old(self).failures@,
    {
        self.successes.push(BatchSuccess { index });
    }

    pub fn record_failure(&mut self, index: u32, message: &str)
        ensures
            final(self).successes@ == old(self).successes@,
            failure_views(final(self).failures@) == failure_views(old(self).failures@).push(
                (index, message@),
            ),
    {
        self.failures.push(BatchFailure { index, message: message.to_owned() });
        proof {
            assert(failure_views(self.failures@) =~= failure_views(old(self).failures@).push(
                (index, message@),
            ));
        }
    }
}

/// The entries that went through, given the name of the fault of each entry.
pub open spec fn successes_of(faults: Seq<Option<Seq<char>>>) -> Seq<BatchSuccess>
    decreases faults.len(),
{
    if faults.len() == 0 {
        seq![]
    } else if faults.last() is None {
        successes_of(faults.drop_last()).push(BatchSuccess { index: (faults.len() - 1) as u32 })
    } else {
        successes_of(faults.drop_last())
    }
}

/// The entries that did not go through, each with the name of its fault.
pub open spec fn failures_of(faults: Seq<Option<Seq<char>>>) -> Seq<(u32, Seq<char>)>
    decreases faults.len(),
{
    if faults.len() == 0 {
        seq![]
    } else {
        match faults.last() {
            Some(name) => failures_of(faults.drop_last()).push(
                ((faults.len() - 1) as u32, name),
            ),
            None => failures_of(faults.drop_last()),
        }
    }
}

impl BatchResult {
    /// Whether this reports entries with these faults.
    pub open spec fn reports(self, faults: Seq<Option<Seq<char>>>) -> bool {
        &&& self.successes@ == successes_of(faults)
        &&& failure_views(self.failures@) == failures_of(faults)
    }

    /// Whether this reports nothing but one failure.
    pub open spec fn reports_only(self, index: int, fault: Seq<char>) -> bool {
        &&& self.successes@.len() == 0
        &&& failure_views(self.failures@) == seq![(index as u32, fault)]
    }

    /// Adds the outcome of the next entry: the name of its fault, if it has one.
    pub(crate) fn record(&mut self, index: u32, fault: Option<&str>, faults: Ghost<
        Seq<Option<Seq<char>>>,
    >)
        requires
            old(self).reports(faults@),
            index == faults@.len(),
        ensures
            final(self).reports(
                faults@.push(
                    match fault {
                        Some(name) => Some(name@),
                        None => None,
                    },
                ),
            ),
    {
        let ghost next: Option<Seq<char>> = match fault {
            Some(name) => Some(name@),
            None => None,
        };
        proof {
            assert(faults@.push(next).drop_last() =~= faults@);
        }
        match fault {
            None => self.record_success(index),
            Some(name) => self.record_failure(index, name),
        }
    }
}

/// The failures of a batch as (index, message) pairs.
pub open spec fn failure_views(failures: Seq<BatchFailure>) -> Seq<(u32, Seq<char>)> {
    failures.map_values(|f: BatchFailure| f@)
}

/// What became of one cross-contract call.
#[derive(Debug, PartialEq)]
pub struct CallResult {
    pub target: Address,
    pub function: Symbol,
    pub success: bool,
}

impl Clone for CallResult {
    fn clone(&self) -> (r: Self)
        ensures
            r == *self,
    {
        CallResult {
            target: self.target.clone(),
            function: self.function.clone(),
            success: self.success,
        }
    }
}

/// A call of a batch that went through, with its place in the batch.
#[derive(Debug, PartialEq)]
pub struct CallSuccess {
    pub index: u32,
    pub result: CallResult,
}

/// The outcome of a batch of cross-contract calls.
#[derive(Debug, PartialEq)]
pub struct BatchCallResult {
    pub successes: Vec<CallSuccess>,
    pub failures: Vec<BatchFailure>,
}

impl BatchCallResult {
    pub fn new() -> (r: Self)
        ensures
            r.successes@.len() == 0,
            r.failures@.len() == 0,
    {
        BatchCallResult { successes: Vec::new(), failures: Vec::new() }
    }

    pub fn record_success(&mut self, index: u32, result: CallResult)
        ensures
            final(self).successes@ == old(self).successes@.push(CallSuccess { index, result }),
            final(self).failures@ == old(self).failures@,
    {
        self.successes.push(CallSuccess { index, result });
    }

    pub fn record_failure(&mut self, index: u32, message: &str)
        ensures
            final(self).successes@ == old(self).successes@,
            failure_views(final(self).failures@) == failure_views(old(self).failures@).push(
                (index, message@),
            ),
    {
        self.failures.push(BatchFailure { index, message: message.to_owned() });
        proof {
            assert(failure_views(self.failures@) =~= failure_views(old(self).failures@).push(
                (index, message@),
            ));
        }
    }
}

} // verus!
