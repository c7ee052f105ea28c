//! Scraping of the router contracts.
//!
//! A [`Scrape`] of one contract says what to ask next and takes in the answer. A
//! [`Cycle`] goes through the scrapes of all configured contracts; each that fails is
//! counted as an error of its contract.

use super::cli::Args;
use super::gauges::{MetricsView, RouterMetrics};
use super::rpc::{
    first_retval, flag_at, get_flag, get_number, number_at, returned, ContractEvent,
    LedgerEntry, RpcClient, RpcError,
};
use crate::json::Json;
use crate::text::{hex, hex_of, parse_u64, same_text, u64_of};
use vstd::prelude::*;
use vstd::utf8::encode_utf8;

verus! {

/// The ledger key of a named storage entry of a contract.
pub fn encode_contract_data_key(contract_id: &str, storage_key: &str) -> (r: String)
    ensures
        r@ == contract_id@ + ":"@ + storage_key@,
{
    contract_id.to_owned().concat(":").concat(storage_key)
}

/// A string argument of a contract call: its bytes in hexadecimal notation.
pub fn encode_string_arg(s: &str) -> (r: String)
    ensures
        r@ == hex_of(encode_utf8(s@)),
{
    hex(s.as_bytes())
}

/// Whether `needle` occurs in `text`.
pub open spec fn occurs(text: Seq<char>, needle: Seq<char>) -> bool {
    exists|i: int|
        0 <= i <= text.len() - needle.len() && #[trigger] text.subrange(i, i + needle.len())
            == needle
}

/// Whether `needle` occurs in `text`.
pub fn contains_text(text: &str, needle: &str) -> (r: bool)
    ensures
        r == occurs(text@, needle@),
{
    let n: usize = needle.unicode_len();
    let len: usize = text.unicode_len();
    if len < n {
        return false;
    }
    let mut i: usize = 0;
    while i <= len - n
        invariant
            n == needle@.len(),
            len == text@.len(),
            n <= len,
            i <= len - n + 1,
            forall|j: int|
                0 <= j < i ==> #[trigger] text@.subrange(j, j + needle@.len()) != needle@,
        decreases len - n + 1 - i,
    {
        if same_text(text.substring_char(i, i + n), needle) {
            proof {
                assert(text@.subrange(i as int, i + needle@.len()) == needle@);
            }
            return true;
        }
        if i == len - n {
            return false;
        }
        i = i + 1;
    }
    false
}

/// The unsigned numbers in a JSON text: the one under a member of the document, and
/// the one that the document is.
pub uninterp spec fn json_numbers_of(text: Seq<char>, key: Seq<char>) -> (Option<u64>, Option<u64>);

/// Calls [`serde_json::from_str`] for a [`serde_json::Value`], and reads from it the
/// unsigned number under `key` and the unsigned number that it is; neither where the
/// text is no JSON. What counts as JSON is left to that crate.
#[verifier::external_body]
fn json_numbers(text: &str, key: &str) -> (r: (Option<u64>, Option<u64>))
    ensures
        r == json_numbers_of(text@, key@),
{
    match serde_json::from_str::<serde_json::Value>(text) {
        Ok(value) => (value.get(key).and_then(|n| n.as_u64()), value.as_u64()),
        Err(_) => (None, None),
    }
}

/// The number that an entry's value stands for, given the numbers that it holds as a
/// JSON text: the value itself as a number, or else a number in it.
pub open spec fn entry_number(xdr: Seq<char>, numbers: (Option<u64>, Option<u64>)) -> Option<u64> {
    match u64_of(xdr) {
        Some(n) => Some(n),
        None => match numbers.0 {
            Some(n) => Some(n),
            None => numbers.1,
        },
    }
}

/// The number that an entry's value stands for, given the numbers that it holds as a
/// JSON text.
pub fn number_of_entry(xdr: &str, numbers: (Option<u64>, Option<u64>)) -> (r: Option<u64>)
    ensures
        r == entry_number(xdr@, numbers),
{
    match parse_u64(xdr) {
        Some(n) => Some(n),
        None => match numbers.0 {
            Some(n) => Some(n),
            None => numbers.1,
        },
    }
}

/// The number of the first of the entries whose key names `key_name` and whose value
/// stands for one.
pub open spec fn named_number(entries: Seq<LedgerEntry>, key_name: Seq<char>) -> Option<u64>
    decreases entries.len(),
{
    if entries.len() == 0 {
        None
    } else {
        let first = entries[0];
        let number = entry_number(first.xdr@, json_numbers_of(first.xdr@, "u64"@));
        if occurs(first.key@, key_name) && number is Some {
            number
        } else {
            named_number(entries.drop_first(), key_name)
        }
    }
}

/// Finds the number of a named entry.
pub fn extract_u64_from_entry(entries: &Vec<LedgerEntry>, key_name: &str) -> (r: Option<u64>)
    ensures
        r == named_number(entries@, key_name@),
{
    let mut i: usize = 0;
    proof {
        assert(entries@.skip(0) =~= entries@);
    }
    while i < entries.len()
        invariant
            i <= entries@.len(),
            named_number(entries@, key_name@) == named_number(entries@.skip(i as int), key_name@),
        decreases entries@.len() - i,
    {
        proof {
            assert(entries@.skip(i as int).drop_first() =~= entries@.skip(i + 1));
        }
        if contains_text(entries[i].key.as_str(), key_name) {
            let xdr: &str = entries[i].xdr.as_str();
            match number_of_entry(xdr, json_numbers(xdr, "u64")) {
                Some(n) => {
                    return Some(n);
                },
                None => {},
            }
        }
        i = i + 1;
    }
    None
}

/// Whether a returned route is paused.
pub open spec fn paused_in(value: Json) -> Option<bool> {
    let inner = match returned(value) {
        Some(retval) => flag_at(retval, "paused"@),
        None => None,
    };
    match inner {
        Some(paused) => Some(paused),
        None => flag_at(value, "paused"@),
    }
}

/// Finds whether a returned route is paused.
pub fn extract_route_paused(value: &Json) -> (r: Option<bool>)
    ensures
        r == paused_in(*value),
{
    match first_retval(value) {
        Some(retval) => match get_flag(retval, "paused") {
            Some(paused) => {
                return Some(paused);
            },
            None => {},
        },
        None => {},
    }
    get_flag(value, "paused")
}

/// The circuit breaker state in a returned value: whether it is open, and how many
/// failures it counts. A value that is null or says that there is no state is a closed
/// circuit.
pub open spec fn breaker_in(value: Json) -> (bool, u32) {
    let retval = match returned(value) {
        Some(retval) => retval,
        None => value,
    };
    if retval is Null || retval.field("none"@) is Some {
        (false, 0)
    } else {
        let state = match retval.field("some"@) {
            Some(state) => state,
            None => retval,
        };
        (
            match flag_at(state, "is_open"@) {
                Some(open) => open,
                None => false,
            },
            match number_at(state, "failure_count"@) {
                Some(n) => n as u32,
                None => 0,
            },
        )
    }
}

/// Finds the circuit breaker state in a returned value. A count of failures beyond 32
/// bits keeps its lower 32 bits.
pub fn extract_circuit_breaker_state(value: &Json) -> (r: Option<(bool, u32)>)
    ensures
        r == Some(breaker_in(*value)),
{
    let retval: &Json = match first_retval(value) {
        Some(retval) => retval,
        None => value,
    };
    if retval.is_null() || retval.get("none").is_some() {
        return Some((false, 0));
    }
    let state: &Json = match retval.get("some") {
        Some(state) => state,
        None => retval,
    };
    let is_open: bool = match get_flag(state, "is_open") {
        Some(open) => open,
        None => false,
    };
    let failure_count: u32 = match get_number(state, "failure_count") {
        Some(n) => n as u32,
        None => 0,
    };
    Some((is_open, failure_count))
}

/// What a scrape asks the RPC client for.
#[derive(Debug, PartialEq)]
pub enum Query {
    /// A view function that returns an unsigned number
    U64 { contract_id: String, function: &'static str },
    /// A view function that returns a boolean
    Bool { contract_id: String, function: &'static str },
    /// A view function that returns a list of strings
    StringVec { contract_id: String, function: &'static str },
    /// A view function of one route
    Simulate { contract_id: String, function: &'static str, args: Vec<String> },
    /// The events under one topic
    Events { contract_id: String, topic: &'static str },
    /// Ledger entries by their keys
    LedgerEntries { keys: Vec<String> },
}

/// What the RPC client answered.
pub enum Answer<'a> {
    Number(u64),
    Flag(bool),
    Texts(Vec<String>),
    Value(&'a Json),
    EventCount(u64),
    Entries(Vec<LedgerEntry>),
    Failed,
}

/// What a scrape waits for.
#[derive(Clone, Copy, Debug, PartialEq, Eq, Structural)]
pub enum Phase {
    CoreTotal,
    CorePaused,
    CoreRoutes,
    CoreRoute,
    MiddlewareTotal,
    MiddlewareRoutes,
    MiddlewareRoute,
    RegistryNames,
    QuoteGenerated,
    QuoteFees,
    ExecutionEntries,
}

/// What follows an answer.
#[derive(Clone, Copy, Debug, PartialEq, Eq, Structural)]
pub enum ScrapeStep {
    /// There is more to ask.
    Continue,
    /// The contract has been scraped.
    Done,
    /// The scrape has failed.
    Failed,
}

/// The scrape of one contract: what it waits for, the routes that it goes through and
/// which of them is next, and the number of quotes that it has seen.
pub struct Scrape {
    pub contract_id: String,
    pub phase: Phase,
    pub routes: Vec<String>,
    pub next: usize,
    pub generated: u64,
}

/// Whether `args` is the one encoded argument `route`.
pub open spec fn is_route_arg(args: Seq<String>, route: Seq<char>) -> bool {
    args.len() == 1 && args[0]@ == hex_of(encode_utf8(route))
}

/// Whether `keys` are those of the execution contract's three counters.
pub open spec fn are_execution_keys(keys: Seq<String>, contract_id: Seq<char>) -> bool {
    &&& keys.len() == 3
    &&& keys[0]@ == contract_id + ":"@ + "TotalExecutions"@
    &&& keys[1]@ == contract_id + ":"@ + "TotalErrors"@
    &&& keys[2]@ == contract_id + ":"@ + "MaxRetries"@
}

/// Whether `query` is what a scrape asks next.
pub open spec fn is_query(scrape: Scrape, query: Query) -> bool {
    let id = scrape.contract_id;
    match (scrape.phase, query) {
        (Phase::CoreTotal, Query::U64 { contract_id, function }) => contract_id == id && function@
            == "total_routed"@,
        (Phase::CorePaused, Query::Bool { contract_id, function }) => contract_id == id && function@
            == "is_paused"@,
        (Phase::CoreRoutes, Query::StringVec { contract_id, function }) => contract_id == id
            && function@ == "get_all_routes"@,
        (Phase::CoreRoute, Query::Simulate { contract_id, function, args }) => contract_id == id
            && function@ == "get_route"@ && is_route_arg(
            args@,
            scrape.routes@[scrape.next as int]@,
        ),
        (Phase::MiddlewareTotal, Query::U64 { contract_id, function }) => contract_id == id
            && function@ == "total_calls"@,
        (Phase::MiddlewareRoutes, Query::StringVec { contract_id, function }) => contract_id == id
            && function@ == "get_configured_routes"@,
        (Phase::MiddlewareRoute, Query::Simulate { contract_id, function, args }) => contract_id
            == id && function@ == "circuit_breaker_state"@ && is_route_arg(
            args@,
            scrape.routes@[scrape.next as int]@,
        ),
        (Phase::RegistryNames, Query::StringVec { contract_id, function }) => contract_id == id
            && function@ == "get_all_names"@,
        (Phase::QuoteGenerated, Query::Events { contract_id, topic }) => contract_id == id && topic@
            == "quote_generated"@,
        (Phase::QuoteFees, Query::Events { contract_id, topic }) => contract_id == id && topic@
            == "fee_estimated"@,
        (Phase::ExecutionEntries, Query::LedgerEntries { keys }) => are_execution_keys(
            keys@,
            id@,
        ),
        _ => false,
    }
}

/// What follows an answer. An answer of another kind than was asked for is as good as
/// none; none to whether the router is paused, or for a single route, does not fail the
/// scrape.
pub open spec fn step_after(scrape: Scrape, answer: Answer) -> ScrapeStep {
    match (scrape.phase, answer) {
        (Phase::CoreTotal, Answer::Number(_)) => ScrapeStep::Continue,
        (Phase::CorePaused, _) => ScrapeStep::Continue,
        (Phase::MiddlewareTotal, Answer::Number(_)) => ScrapeStep::Continue,
        (Phase::CoreRoutes, Answer::Texts(routes)) => if routes@.len() == 0 {
            ScrapeStep::Done
        } else {
            ScrapeStep::Continue
        },
        (Phase::MiddlewareRoutes, Answer::Texts(routes)) => if routes@.len() == 0 {
            ScrapeStep::Done
        } else {
            ScrapeStep::Continue
        },
        (Phase::CoreRoute, _) => if scrape.next + 1 >= scrape.routes@.len() {
            ScrapeStep::Done
        } else {
            ScrapeStep::Continue
        },
        (Phase::MiddlewareRoute, _) => if scrape.next + 1 >= scrape.routes@.len() {
            ScrapeStep::Done
        } else {
            ScrapeStep::Continue
        },
        (Phase::RegistryNames, Answer::Texts(_)) => ScrapeStep::Done,
        (Phase::QuoteGenerated, Answer::EventCount(_)) => ScrapeStep::Continue,
        (Phase::QuoteFees, Answer::EventCount(_)) => ScrapeStep::Done,
        (Phase::ExecutionEntries, Answer::Entries(_)) => ScrapeStep::Done,
        _ => ScrapeStep::Failed,
    }
}

/// What a scrape is after an answer that leaves more to ask.
pub open spec fn scrape_after(scrape: Scrape, answer: Answer) -> Scrape {
    match (scrape.phase, answer) {
        (Phase::CoreTotal, _) => Scrape { phase: Phase::CorePaused, ..scrape },
        (Phase::CorePaused, _) => Scrape { phase: Phase::CoreRoutes, ..scrape },
        (Phase::MiddlewareTotal, _) => Scrape { phase: Phase::MiddlewareRoutes, ..scrape },
        (Phase::CoreRoutes, Answer::Texts(routes)) => Scrape {
            phase: Phase::CoreRoute,
            routes,
            next: 0,
            ..scrape
        },
        (Phase::MiddlewareRoutes, Answer::Texts(routes)) => Scrape {
            phase: Phase::MiddlewareRoute,
            routes,
            next: 0,
            ..scrape
        },
        (Phase::CoreRoute, _) => Scrape { next: (scrape.next + 1) as usize, ..scrape },
        (Phase::MiddlewareRoute, _) => Scrape { next: (scrape.next + 1) as usize, ..scrape },
        (Phase::QuoteGenerated, Answer::EventCount(n)) => Scrape {
            phase: Phase::QuoteFees,
            generated: n,
            ..scrape
        },
        _ => scrape,
    }
}

/// The number of a named entry, zero where there is none.
pub open spec fn number_or_zero(entries: Seq<LedgerEntry>, key_name: Seq<char>) -> u64 {
    match named_number(entries, key_name) {
        Some(n) => n,
        None => 0,
    }
}

/// What the metrics show after an answer. A router counts as not paused until it says
/// that it is.
pub open spec fn metrics_after(metrics: MetricsView, scrape: Scrape, answer: Answer) -> MetricsView {
    let id = scrape.contract_id@;
    let route = scrape.routes@[scrape.next as int]@;
    match (scrape.phase, answer) {
        (Phase::CoreTotal, Answer::Number(n)) => MetricsView {
            core_total_routed: metrics.core_total_routed.insert(id, n),
            core_paused: metrics.core_paused.insert(id, false),
            ..metrics
        },
        (Phase::CorePaused, Answer::Flag(b)) => MetricsView {
            core_paused: metrics.core_paused.insert(id, b),
            ..metrics
        },
        (Phase::CoreRoute, Answer::Value(value)) => MetricsView {
            core_route_paused: metrics.core_route_paused.insert(
                (id, route),
                match paused_in(*value) {
                    Some(paused) => paused,
                    None => false,
                },
            ),
            ..metrics
        },
        (Phase::MiddlewareTotal, Answer::Number(n)) => MetricsView {
            middleware_total_calls: metrics.middleware_total_calls.insert(id, n),
            ..metrics
        },
        (Phase::MiddlewareRoute, Answer::Value(value)) => MetricsView {
            middleware_circuit_open: metrics.middleware_circuit_open.insert(
                (id, route),
                breaker_in(*value).0,
            ),
            middleware_failure_count: metrics.middleware_failure_count.insert(
                (id, route),
                breaker_in(*value).1,
            ),
            ..metrics
        },
        (Phase::RegistryNames, Answer::Texts(names)) => MetricsView {
            registry_total_names: metrics.registry_total_names.insert(id, names@.len() as u64),
            ..metrics
        },
        (Phase::QuoteFees, Answer::EventCount(n)) => MetricsView {
            quote_total_generated: metrics.quote_total_generated.insert(id, scrape.generated),
            quote_total_fee_estimated: metrics.quote_total_fee_estimated.insert(id, n),
            ..metrics
        },
        (Phase::ExecutionEntries, Answer::Entries(entries)) => MetricsView {
            execution_total_executions: metrics.execution_total_executions.insert(
                id,
                number_or_zero(entries@, "TotalExecutions"@),
            ),
            execution_total_errors: metrics.execution_total_errors.insert(
                id,
                number_or_zero(entries@, "TotalErrors"@),
            ),
            execution_max_retries: metrics.execution_max_retries.insert(
                id,
                number_or_zero(entries@, "MaxRetries"@),
            ),
            ..metrics
        },
        _ => metrics,
    }
}

/// The number of a named entry, zero where there is none.
fn entry_or_zero(entries: &Vec<LedgerEntry>, key_name: &str) -> (r: u64)
    ensures
        r == number_or_zero(entries@, key_name@),
{
    match extract_u64_from_entry(entries, key_name) {
        Some(n) => n,
        None => 0,
    }
}

impl Scrape {
    /// While it goes through routes there is one that is next.
    pub open spec fn wf(self) -> bool {
        self.phase == Phase::CoreRoute || self.phase == Phase::MiddlewareRoute ==> self.next
            < self.routes@.len()
    }

    /// A scrape of a contract from its first phase on.
    pub fn start(contract_id: String, phase: Phase) -> (r: Self)
        requires
            phase != Phase::CoreRoute,
            phase != Phase::MiddlewareRoute,
        ensures
            r.wf(),
            r.contract_id == contract_id,
            r.phase == phase,
            r.next == 0,
            r.routes@.len() == 0,
            r.generated == 0,
    {
        Scrape { contract_id, phase, routes: Vec::new(), next: 0, generated: 0 }
    }

    /// What the scrape asks next.
    pub fn query(&self) -> (r: Query)
        requires
            self.wf(),
        ensures
            is_query(*self, r),
    {
        let contract_id: String = self.contract_id.clone();
        match self.phase {
            Phase::CoreTotal => Query::U64 { contract_id, function: "total_routed" },
            Phase::CorePaused => Query::Bool { contract_id, function: "is_paused" },
            Phase::CoreRoutes => Query::StringVec { contract_id, function: "get_all_routes" },
            Phase::CoreRoute => {
                let mut args: Vec<String> = Vec::new();
                args.push(encode_string_arg(self.routes[self.next].as_str()));
                Query::Simulate { contract_id, function: "get_route", args }
            },
            Phase::MiddlewareTotal => Query::U64 { contract_id, function: "total_calls" },
            Phase::MiddlewareRoutes => Query::StringVec {
                contract_id,
                function: "get_configured_routes",
            },
            Phase::MiddlewareRoute => {
                let mut args: Vec<String> = Vec::new();
                args.push(encode_string_arg(self.routes[self.next].as_str()));
                Query::Simulate { contract_id, function: "circuit_breaker_state", args }
            },
            Phase::RegistryNames => Query::StringVec { contract_id, function: "get_all_names" },
            Phase::QuoteGenerated => Query::Events { contract_id, topic: "quote_generated" },
            Phase::QuoteFees => Query::Events { contract_id, topic: "fee_estimated" },
            Phase::ExecutionEntries => {
                let mut keys: Vec<String> = Vec::new();
                let id: &str = self.contract_id.as_str();
                keys.push(encode_contract_data_key(id, "TotalExecutions"));
                keys.push(encode_contract_data_key(id, "TotalErrors"));
                keys.push(encode_contract_data_key(id, "MaxRetries"));
                Query::LedgerEntries { keys }
            },
        }
    }

    /// Takes in an answer, updates the metrics, and says what follows.
    pub fn advance(&mut self, metrics: &mut RouterMetrics, answer: Answer) -> (r: ScrapeStep)
        requires
            old(self).wf(),
        ensures
            r == step_after(*old(self), answer),
            r == ScrapeStep::Continue ==> *final(self) == scrape_after(*old(self), answer)
                && final(self).wf(),
            final(self).contract_id == old(self).contract_id,
            final(metrics)@ == metrics_after(old(metrics)@, *old(self), answer),
    {
        let id: String = self.contract_id.clone();
        match self.phase {
            Phase::CoreTotal => match answer {
                Answer::Number(n) => {
                    metrics.core_total_routed.insert(id.clone(), n);
                    metrics.core_paused.insert(id, false);
                    self.phase = Phase::CorePaused;
                    ScrapeStep::Continue
                },
                _ => ScrapeStep::Failed,
            },
            Phase::CorePaused => {
                match answer {
                    Answer::Flag(paused) => {
                        metrics.core_paused.insert(id, paused);
                    },
                    _ => {},
                }
                self.phase = Phase::CoreRoutes;
                ScrapeStep::Continue
            },
            Phase::CoreRoutes => match answer {
                Answer::Texts(routes) => self.go_through(routes, Phase::CoreRoute),
                _ => ScrapeStep::Failed,
            },
            Phase::CoreRoute => {
                match answer {
                    Answer::Value(value) => {
                        let paused: bool = match extract_route_paused(value) {
                            Some(paused) => paused,
                            None => false,
                        };
                        let route: String = self.routes[self.next].clone();
                        metrics.core_route_paused.insert((id, route), paused);
                    },
                    _ => {},
                }
                self.next_route()
            },
            Phase::MiddlewareTotal => match answer {
                Answer::Number(n) => {
                    metrics.middleware_total_calls.insert(id, n);
                    self.phase = Phase::MiddlewareRoutes;
                    ScrapeStep::Continue
                },
                _ => ScrapeStep::Failed,
            },
            Phase::MiddlewareRoutes => match answer {
                Answer::Texts(routes) => self.go_through(routes, Phase::MiddlewareRoute),
                _ => ScrapeStep::Failed,
            },
            Phase::MiddlewareRoute => {
                match answer {
                    Answer::Value(value) => {
                        let (is_open, failure_count): (bool, u32) =
                            match extract_circuit_breaker_state(value) {
                            Some(state) => state,
                            None => (false, 0),
                        };
                        let route: String = self.routes[self.next].clone();
                        metrics.middleware_circuit_open.insert(
                            (id.clone(), route.clone()),
                            is_open,
                        );
                        metrics.middleware_failure_count.insert((id, route), failure_count);
                    },
                    _ => {},
                }
                self.next_route()
            },
            Phase::RegistryNames => match answer {
                Answer::Texts(names) => {
                    metrics.registry_total_names.insert(id, names.len() as u64);
                    ScrapeStep::Done
                },
                _ => ScrapeStep::Failed,
            },
            Phase::QuoteGenerated => match answer {
                Answer::EventCount(n) => {
                    self.generated = n;
                    self.phase = Phase::QuoteFees;
                    ScrapeStep::Continue
                },
                _ => ScrapeStep::Failed,
            },
            Phase::QuoteFees => match answer {
                Answer::EventCount(n) => {
                    metrics.quote_total_generated.insert(id.clone(), self.generated);
                    metrics.quote_total_fee_estimated.insert(id, n);
                    ScrapeStep::Done
                },
                _ => ScrapeStep::Failed,
            },
            Phase::ExecutionEntries => match answer {
                Answer::Entries(entries) => {
                    let executions: u64 = entry_or_zero(&entries, "TotalExecutions");
                    let errors: u64 = entry_or_zero(&entries, "TotalErrors");
                    let max_retries: u64 = entry_or_zero(&entries, "MaxRetries");
                    metrics.execution_total_executions.insert(id.clone(), executions);
                    metrics.execution_total_errors.insert(id.clone(), errors);
                    metrics.execution_max_retries.insert(id, max_retries);
                    ScrapeStep::Done
                },
                _ => ScrapeStep::Failed,
            },
        }
    }

    /// Starts on a list of routes.
    fn go_through(&mut self, routes: Vec<String>, phase: Phase) -> (r: ScrapeStep)
        ensures
            r == if routes@.len() == 0 {
                ScrapeStep::Done
            } else {
                ScrapeStep::Continue
            },
            r == ScrapeStep::Continue ==> *final(self) == (Scrape {
                phase,
                routes,
                next: 0,
                ..*old(self)
            }),
            final(self).contract_id == old(self).contract_id,
    {
        if routes.len() == 0 {
            return ScrapeStep::Done;
        }
        self.phase = phase;
        self.routes = routes;
        self.next = 0;
        ScrapeStep::Continue
    }

    /// Goes on to the next route.
    fn next_route(&mut self) -> (r: ScrapeStep)
        requires
            old(self).next < old(self).routes@.len(),
        ensures
            r == if old(self).next + 1 >= old(self).routes@.len() {
                ScrapeStep::Done
            } else {
                ScrapeStep::Continue
            },
            r == ScrapeStep::Continue ==> *final(self) == (Scrape {
                next: (old(self).next + 1) as usize,
                ..*old(self)
            }),
            final(self).contract_id == old(self).contract_id,
    {
        let n: usize = self.routes.len();
        if self.next + 1 >= n {
            return ScrapeStep::Done;
        }
        self.next = self.next + 1;
        ScrapeStep::Continue
    }
}

/// A round of scrapes: those to be made in order, which of them is under way, and
/// whether all have succeeded so far.
pub struct Cycle {
    pub scrapes: Vec<Scrape>,
    pub current: usize,
    pub all_ok: bool,
}

impl Cycle {
    pub open spec fn wf(self) -> bool {
        &&& self.current <= self.scrapes@.len()
        &&& forall|i: int|
            self.current <= i < self.scrapes@.len() ==> (#[trigger] self.scrapes@[i]).wf()
    }

    /// How far the round has come, beside these metrics.
    pub open spec fn round(self, metrics: MetricsView) -> Round {
        Round {
            pending: self.scrapes@.skip(self.current as int),
            all_ok: self.all_ok,
            metrics,
        }
    }

    /// What is to be asked next; nothing once all contracts are scraped.
    pub fn query(&self) -> (r: Option<Query>)
        requires
            self.wf(),
        ensures
            match r {
                Some(query) => self.current < self.scrapes@.len() && is_query(
                    self.scrapes@[self.current as int],
                    query,
                ),
                None => self.current == self.scrapes@.len(),
            },
    {
        if self.current < self.scrapes.len() {
            Some(self.scrapes[self.current].query())
        } else {
            None
        }
    }
}

/// Whether `scrapes` are those of the configured contracts, in order: each contract
/// with an ID is scraped from its first phase on.
pub open spec fn are_targets(args: Args, scrapes: Seq<(Seq<char>, Phase)>) -> bool {
    scrapes == target_of(args.core_contract_id@, Phase::CoreTotal) + target_of(
        args.middleware_contract_id@,
        Phase::MiddlewareTotal,
    ) + target_of(args.registry_contract_id@, Phase::RegistryNames) + target_of(
        args.quote_contract_id@,
        Phase::QuoteGenerated,
    ) + target_of(args.execution_contract_id@, Phase::ExecutionEntries)
}

/// The scrape of a contract, if it has an ID.
pub open spec fn target_of(contract_id: Seq<char>, phase: Phase) -> Seq<(Seq<char>, Phase)> {
    if contract_id.len() == 0 {
        seq![]
    } else {
        seq![(contract_id, phase)]
    }
}

/// The contracts of a list of scrapes and what each waits for.
pub open spec fn targets(scrapes: Seq<Scrape>) -> Seq<(Seq<char>, Phase)> {
    scrapes.map_values(|s: Scrape| (s.contract_id@, s.phase))
}

/// The error counts with one error of a contract more.
pub open spec fn with_error(errors: Map<Seq<char>, u64>, contract_id: Seq<char>) -> Map<
    Seq<char>,
    u64,
> {
    if !errors.contains_key(contract_id) {
        errors.insert(contract_id, 1)
    } else if errors[contract_id] < u64::MAX {
        errors.insert(contract_id, (errors[contract_id] + 1) as u64)
    } else {
        errors
    }
}

/// How far a round has come: the scrapes that are not done, the first of them under
/// way, whether all others have succeeded, and what the metrics show.
pub struct Round {
    pub pending: Seq<Scrape>,
    pub all_ok: bool,
    pub metrics: MetricsView,
}

/// The round after an answer. A scrape that fails counts as an error of its contract,
/// and the round goes on with the next.
pub open spec fn round_after(round: Round, answer: Answer) -> Round {
    let scrape = round.pending[0];
    let metrics = metrics_after(round.metrics, scrape, answer);
    match step_after(scrape, answer) {
        ScrapeStep::Continue => Round {
            pending: round.pending.update(0, scrape_after(scrape, answer)),
            metrics,
            ..round
        },
        ScrapeStep::Done => Round { pending: round.pending.drop_first(), metrics, ..round },
        ScrapeStep::Failed => Round {
            pending: round.pending.drop_first(),
            all_ok: false,
            metrics: MetricsView {
                scrape_errors_total: with_error(metrics.scrape_errors_total, scrape.contract_id@),
                ..metrics
            },
        },
    }
}

/// The round after some answers.
pub open spec fn round_after_all<'a>(round: Round, answers: Seq<Answer<'a>>) -> Round
    decreases answers.len(),
{
    if answers.len() == 0 {
        round
    } else {
        round_after(round_after_all(round, answers.drop_last()), answers.last())
    }
}

/// Adds the scrape of a contract, if it has an ID.
fn push_target(scrapes: &mut Vec<Scrape>, contract_id: &String, phase: Phase)
    requires
        phase != Phase::CoreRoute,
        phase != Phase::MiddlewareRoute,
        forall|i: int| 0 <= i < old(scrapes)@.len() ==> (#[trigger] old(scrapes)@[i]).wf(),
    ensures
        targets(final(scrapes)@) == targets(old(scrapes)@) + target_of(contract_id@, phase),
        forall|i: int| 0 <= i < final(scrapes)@.len() ==> (#[trigger] final(scrapes)@[i]).wf(),
{
    if !contract_id.as_str().is_empty() {
        scrapes.push(Scrape::start(contract_id.clone(), phase));
    }
    proof {
        assert(targets(scrapes@) =~= targets(old(scrapes)@) + target_of(contract_id@, phase));
    }
}

/// Drives the scrapes.
pub struct Collector {
    pub args: Args,
    pub metrics: RouterMetrics,
}

impl Collector {
    pub fn new(args: Args, metrics: RouterMetrics) -> (r: Self)
        ensures
            r.args == args,
            r.metrics == metrics,
    {
        Collector { args, metrics }
    }

    /// Starts a round over all configured contracts.
    pub fn begin_cycle(&self) -> (r: Cycle)
        ensures
            r.wf(),
            r.current == 0,
            r.all_ok,
            are_targets(self.args, targets(r.scrapes@)),
    {
        let mut scrapes: Vec<Scrape> = Vec::new();
        proof {
            assert(targets(scrapes@) =~= Seq::<(Seq<char>, Phase)>::empty());
        }
        push_target(&mut scrapes, &self.args.core_contract_id, Phase::CoreTotal);
        push_target(&mut scrapes, &self.args.middleware_contract_id, Phase::MiddlewareTotal);
        push_target(&mut scrapes, &self.args.registry_contract_id, Phase::RegistryNames);
        push_target(&mut scrapes, &self.args.quote_contract_id, Phase::QuoteGenerated);
        push_target(&mut scrapes, &self.args.execution_contract_id, Phase::ExecutionEntries);
        proof {
            assert(Seq::<(Seq<char>, Phase)>::empty() + target_of(
                self.args.core_contract_id@,
                Phase::CoreTotal,
            ) =~= target_of(self.args.core_contract_id@, Phase::CoreTotal));
        }
        Cycle { scrapes, current: 0, all_ok: true }
    }

    /// Takes in the answer to what the round asked. A scrape that fails counts as an
    /// error of its contract, and the round goes on with the next.
    pub fn advance_cycle(&mut self, cycle: &mut Cycle, answer: Answer) -> (r: ScrapeStep)
        requires
            old(cycle).wf(),
            old(cycle).current < old(cycle).scrapes.len(),
        ensures
            final(cycle).wf(),
            final(self).args == old(self).args,
            r == step_after(old(cycle).scrapes@[old(cycle).current as int], answer),
            final(cycle).round(final(self).metrics@) == round_after(
                old(cycle).round(old(self).metrics@),
                answer,
            ),
    {
        let k: usize = cycle.current;
        let contract_id: String = cycle.scrapes[k].contract_id.clone();
        let scrape: &mut Scrape = &mut cycle.scrapes[k];
        let step: ScrapeStep = scrape.advance(&mut self.metrics, answer);
        match step {
            ScrapeStep::Continue => {},
            ScrapeStep::Done => {
                cycle.current = k + 1;
            },
            ScrapeStep::Failed => {
                self.count_error(contract_id);
                cycle.all_ok = false;
                cycle.current = k + 1;
            },
        }
        proof {
            let before = old(cycle).round(old(self).metrics@);
            let after = cycle.round(self.metrics@);
            assert(before.pending[0] == old(cycle).scrapes@[k as int]);
            assert(after.pending =~= round_after(before, answer).pending);
        }
        step
    }

    /// Counts an error of a contract.
    fn count_error(&mut self, contract_id: String)
        ensures
            final(self).args == old(self).args,
            final(self).metrics@ == (MetricsView {
                scrape_errors_total: with_error(
                    old(self).metrics@.scrape_errors_total,
                    contract_id@,
                ),
                ..old(self).metrics@
            }),
    {
        let count: u64 = match self.metrics.scrape_errors_total.get(&contract_id) {
            Some(count) => count.saturating_add(1),
            None => 1,
        };
        proof {
            let errors = old(self).metrics@.scrape_errors_total;
            if errors.contains_key(contract_id@) && errors[contract_id@] == u64::MAX {
                assert(errors.insert(contract_id@, count) =~= errors);
            }
        }
        self.metrics.scrape_errors_total.insert(contract_id, count);
    }

    /// Ends a round: the exporter is up if every scrape succeeded.
    pub fn finish_cycle(&mut self, cycle: &Cycle) -> (r: bool)
        ensures
            r == cycle.all_ok,
            final(self).args == old(self).args,
            final(self).metrics@ == (MetricsView { up: cycle.all_ok, ..old(self).metrics@ }),
    {
        self.metrics.up = cycle.all_ok;
        cycle.all_ok
    }
}

/// Whether an answer is of the kind that a query asks for.
pub open spec fn fits(query: Query, answer: Answer) -> bool {
    match query {
        Query::U64 { .. } => answer is Number,
        Query::Bool { .. } => answer is Flag,
        Query::StringVec { .. } => answer is Texts,
        Query::Simulate { .. } => answer is Value,
        Query::Events { .. } => answer is EventCount,
        Query::LedgerEntries { .. } => answer is Entries,
    }
}

/// Whether an RPC client answers a query like this: the call that the query asks for,
/// with its arguments, can give the answer. An error of whatever kind is a failure.
pub open spec fn is_answer<'a, C: RpcClient>(
    client: &'a C,
    query: Query,
    answer: Answer<'a>,
) -> bool {
    match query {
        Query::U64 { contract_id, function } => exists|id: &str, res: Result<u64, RpcError>|
            {
                &&& id@ == contract_id@
                &&& #[trigger] call_ensures(C::call_u64, (client, id, function), res)
                &&& answer == match res {
                    Ok(n) => Answer::Number(n),
                    Err(_) => Answer::Failed,
                }
            },
        Query::Bool { contract_id, function } => exists|id: &str, res: Result<bool, RpcError>|
            {
                &&& id@ == contract_id@
                &&& #[trigger] call_ensures(C::call_bool, (client, id, function), res)
                &&& answer == match res {
                    Ok(b) => Answer::Flag(b),
                    Err(_) => Answer::Failed,
                }
            },
        Query::StringVec { contract_id, function } => exists|
            id: &str,
            res: Result<Vec<String>, RpcError>,
        |
            {
                &&& id@ == contract_id@
                &&& #[trigger] call_ensures(C::call_string_vec, (client, id, function), res)
                &&& answer == match res {
                    Ok(strings) => Answer::Texts(strings),
                    Err(_) => Answer::Failed,
                }
            },
        Query::Simulate { contract_id, function, args } => exists|
            id: &str,
            res: Result<&'a Json, RpcError>,
        |
            {
                &&& id@ == contract_id@
                &&& #[trigger] call_ensures(C::simulate_invoke, (client, id, function, &args), res)
                &&& answer == match res {
                    Ok(value) => Answer::Value(value),
                    Err(_) => Answer::Failed,
                }
            },
        Query::Events { contract_id, topic } => exists|
            id: &str,
            topics: Vec<String>,
            res: Result<&'a Vec<ContractEvent>, RpcError>,
        |
            {
                &&& id@ == contract_id@
                &&& topics@.len() == 1
                &&& topics@[0]@ == topic@
                &&& #[trigger] call_ensures(C::get_events, (client, id, &topics, 0u32), res)
                &&& answer == match res {
                    Ok(events) => Answer::EventCount(events@.len() as u64),
                    Err(_) => Answer::Failed,
                }
            },
        Query::LedgerEntries { keys } => exists|res: Result<Vec<LedgerEntry>, RpcError>|
            {
                &&& #[trigger] call_ensures(C::get_ledger_entries, (client, &keys), res)
                &&& answer == match res {
                    Ok(entries) => Answer::Entries(entries),
                    Err(_) => Answer::Failed,
                }
            },
    }
}

/// Puts a query to an RPC client. What the client answers is up to the client; an error
/// of whatever kind is a failure.
pub fn ask<'a, C: RpcClient>(client: &'a C, query: &Query) -> (r: Answer<'a>)
    ensures
        r is Failed || fits(*query, r),
        is_answer(client, *query, r),
{
    match query {
        Query::U64 { contract_id, function } => match client.call_u64(
            contract_id.as_str(),
            function,
        ) {
            Ok(n) => Answer::Number(n),
            Err(_) => Answer::Failed,
        },
        Query::Bool { contract_id, function } => match client.call_bool(
            contract_id.as_str(),
            function,
        ) {
            Ok(b) => Answer::Flag(b),
            Err(_) => Answer::Failed,
        },
        Query::StringVec { contract_id, function } => match client.call_string_vec(
            contract_id.as_str(),
            function,
        ) {
            Ok(strings) => Answer::Texts(strings),
            Err(_) => Answer::Failed,
        },
        Query::Simulate { contract_id, function, args } => match client.simulate_invoke(
            contract_id.as_str(),
            function,
            args,
        ) {
            Ok(value) => Answer::Value(value),
            Err(_) => Answer::Failed,
        },
        Query::Events { contract_id, topic } => {
            let mut topics: Vec<String> = Vec::new();
            topics.push((*topic).to_owned());
            match client.get_events(contract_id.as_str(), &topics, 0) {
                Ok(events) => Answer::EventCount(events.len() as u64),
                Err(_) => Answer::Failed,
            }
        },
        Query::LedgerEntries { keys } => match client.get_ledger_entries(keys) {
            Ok(entries) => Answer::Entries(entries),
            Err(_) => Answer::Failed,
        },
    }
}

/// How many more phases a scrape can have.
pub open spec fn phases_left(phase: Phase) -> nat {
    match phase {
        Phase::CoreTotal => 4,
        Phase::CorePaused => 3,
        Phase::CoreRoutes => 2,
        Phase::MiddlewareTotal => 3,
        Phase::MiddlewareRoutes => 2,
        Phase::QuoteGenerated => 2,
        _ => 1,
    }
}

/// Whether `answer` is what a client answers to what the round asks next.
pub open spec fn is_next_answer<'a, C: RpcClient>(
    client: &'a C,
    round: Round,
    answer: Answer<'a>,
) -> bool {
    exists|query: Query|
        is_query(round.pending[0], query) && #[trigger] is_answer(client, query, answer)
}

/// Whether a client gives these answers, one after the other, in a round that starts
/// like this.
pub open spec fn are_answers<'a, C: RpcClient>(
    client: &'a C,
    start: Round,
    answers: Seq<Answer<'a>>,
) -> bool {
    forall|i: int|
        0 <= i < answers.len() ==> {
            let round = #[trigger] round_after_all(start, answers.take(i));
            round.pending.len() > 0 && is_next_answer(client, round, answers[i])
        }
}

/// Whether `start` is the start of a round over all configured contracts.
pub open spec fn is_start(args: Args, metrics: MetricsView, start: Round) -> bool {
    &&& are_targets(args, targets(start.pending))
    &&& start.all_ok
    &&& start.metrics == metrics
}

/// Whether a round that starts like this, with these answers of a client, ends like
/// that.
pub open spec fn is_round<'a, C: RpcClient>(
    client: &'a C,
    start: Round,
    answers: Seq<Answer<'a>>,
    all_ok: bool,
    metrics: MetricsView,
) -> bool {
    &&& are_answers(client, start, answers)
    &&& round_after_all(start, answers) == (Round { pending: Seq::empty(), all_ok, metrics })
}

impl Collector {
    /// Scrapes all configured contracts. Returns `true` if every scrape succeeded; each
    /// that failed has counted as an error of its contract.
    pub fn scrape_all<'a, C: RpcClient>(&mut self, client: &'a C) -> (r: bool)
        ensures
            final(self).args == old(self).args,
            exists|start: Round, answers: Seq<Answer<'a>>|
                is_start(old(self).args, old(self).metrics@, start) && #[trigger] is_round(
                    client,
                    start,
                    answers,
                    r,
                    final(self).metrics@,
                ),
    {
        let mut cycle: Cycle = self.begin_cycle();
        let ghost start = cycle.round(self.metrics@);
        let ghost mut answers: Seq<Answer<'a>> = Seq::empty();
        proof {
            assert(start.pending =~= cycle.scrapes@);
        }
        loop
            invariant
                cycle.wf(),
                self.args == old(self).args,
                is_start(old(self).args, old(self).metrics@, start),
                are_answers(client, start, answers),
                cycle.round(self.metrics@) == round_after_all(start, answers),
            decreases
                    cycle.round(self.metrics@).pending.len(),
                    phases_left(cycle.round(self.metrics@).pending[0].phase),
                    cycle.round(self.metrics@).pending[0].routes@.len() - cycle.round(
                        self.metrics@,
                    ).pending[0].next,
        {
            let query: Query = match cycle.query() {
                Some(query) => query,
                None => {
                    proof {
                        assert(cycle.round(self.metrics@).pending =~= Seq::empty());
                        assert(is_round(client, start, answers, cycle.all_ok, self.metrics@));
                    }
                    return cycle.all_ok;
                },
            };
            let ghost k = cycle.current as int;
            let ghost scrape = cycle.scrapes@[k];
            let ghost round = cycle.round(self.metrics@);
            let answer: Answer = ask(client, &query);
            let ghost given = answer;
            let step: ScrapeStep = self.advance_cycle(&mut cycle, answer);
            proof {
                assert(round.pending[0] == scrape);
                assert(is_next_answer(client, round, given));
                let more = answers.push(given);
                assert(more.drop_last() =~= answers);
                assert forall|i: int| 0 <= i < more.len() implies {
                    let round = #[trigger] round_after_all(start, more.take(i));
                    round.pending.len() > 0 && is_next_answer(client, round, more[i])
                } by {
                    if i < answers.len() {
                        assert(more.take(i) =~= answers.take(i));
                        assert(round_after_all(start, answers.take(i)).pending.len() > 0);
                    } else {
                        assert(more.take(i) =~= answers);
                    }
                }
                answers = more;
                if step == ScrapeStep::Continue {
                    let next = cycle.round(self.metrics@).pending[0];
                    assert(next == scrape_after(scrape, given));
                    assert(scrape.routes.len() <= usize::MAX);
                    assert(phases_left(next.phase) < phases_left(scrape.phase) || (next.phase
                        == scrape.phase && next.routes == scrape.routes && next.next == scrape.next
                        + 1 && next.next < next.routes@.len()));
                }
            }
        }
    }
}

/// How many errors of a contract are counted.
pub open spec fn error_count(errors: Map<Seq<char>, u64>, contract_id: Seq<char>) -> u64 {
    if errors.contains_key(contract_id) {
        errors[contract_id]
    } else {
        0
    }
}

/// How many of these scrapes are of a contract.
pub open spec fn scrapes_of(scrapes: Seq<Scrape>, contract_id: Seq<char>) -> nat
    decreases scrapes.len(),
{
    if scrapes.len() == 0 {
        0
    } else if scrapes[0].contract_id@ == contract_id {
        scrapes_of(scrapes.drop_first(), contract_id) + 1
    } else {
        scrapes_of(scrapes.drop_first(), contract_id)
    }
}

/// How many scrapes of a contract fail on these answers.
pub open spec fn failures_of<'a>(
    start: Round,
    answers: Seq<Answer<'a>>,
    contract_id: Seq<char>,
) -> nat
    decreases answers.len(),
{
    if answers.len() == 0 {
        0
    } else {
        let earlier = failures_of(start, answers.drop_last(), contract_id);
        let scrape = round_after_all(start, answers.drop_last()).pending[0];
        if scrape.contract_id@ == contract_id && step_after(scrape, answers.last())
            == ScrapeStep::Failed {
            earlier + 1
        } else {
            earlier
        }
    }
}

/// What a round does to the error count of each contract: afterwards it is the count
/// before plus the number of the contract's scrapes that failed, up to the largest value.
/// A contract is counted as soon as one of its scrapes has failed; a scrape fails at most
/// once; and the round is all well exactly as long as no scrape of any contract has
/// failed.
pub proof fn failed_scrapes_are_counted<'a>(
    start: Round,
    answers: Seq<Answer<'a>>,
    contract_id: Seq<char>,
)
    requires
        start.all_ok,
        forall|i: int|
            0 <= i < answers.len() ==> (#[trigger] round_after_all(
                start,
                answers.take(i),
            )).pending.len() > 0,
    ensures
        ({
            let before = start.metrics.scrape_errors_total;
            let end = round_after_all(start, answers);
            let after = end.metrics.scrape_errors_total;
            let failures = failures_of(start, answers, contract_id);
            let total = error_count(before, contract_id) + failures;
            &&& error_count(after, contract_id) == if total <= u64::MAX {
                total
            } else {
                u64::MAX as int
            }
            &&& after.contains_key(contract_id) == (before.contains_key(contract_id) || failures
                > 0)
            &&& failures + scrapes_of(end.pending, contract_id) <= scrapes_of(
                start.pending,
                contract_id,
            )
            &&& end.all_ok == forall|other: Seq<char>| #[trigger]
                failures_of(start, answers, other) == 0
        }),
    decreases answers.len(),
{
    if answers.len() > 0 {
        let rest = answers.drop_last();
        assert forall|i: int| 0 <= i < rest.len() implies (#[trigger] round_after_all(
            start,
            rest.take(i),
        )).pending.len() > 0 by {
            assert(rest.take(i) =~= answers.take(i));
            assert(round_after_all(start, answers.take(i)).pending.len() > 0);
        }
        failed_scrapes_are_counted(start, rest, contract_id);
        assert(answers.take(answers.len() - 1) =~= rest);
        let round = round_after_all(start, rest);
        let scrape = round.pending[0];
        let end = round_after_all(start, answers);
        if step_after(scrape, answers.last()) == ScrapeStep::Failed {
            assert(failures_of(start, answers, scrape.contract_id@) > 0);
        } else {
            assert forall|other: Seq<char>| #[trigger]
                failures_of(start, answers, other) == failures_of(start, rest, other) by {}
            if !round.all_ok {
                let other = choose|other: Seq<char>| #[trigger]
                    failures_of(start, rest, other) != 0;
                assert(failures_of(start, answers, other) != 0);
            }
        }
        if step_after(scrape, answers.last()) == ScrapeStep::Continue {
            assert(end.pending.drop_first() =~= round.pending.drop_first());
        }
    }
}

/// A scrape changes no metric but those of its own contract.
pub proof fn scrapes_keep_to_their_contract(
    metrics: MetricsView,
    scrape: Scrape,
    answer: Answer,
    other: Seq<char>,
    route: Seq<char>,
)
    requires
        other != scrape.contract_id@,
    ensures
        ({
            let after = metrics_after(metrics, scrape, answer);
            &&& after.up == metrics.up
            &&& after.scrape_errors_total == metrics.scrape_errors_total
            &&& same_at(metrics.core_total_routed, after.core_total_routed, other)
            &&& same_at(metrics.core_paused, after.core_paused, other)
            &&& same_at(metrics.core_route_paused, after.core_route_paused, (other, route))
            &&& same_at(metrics.middleware_total_calls, after.middleware_total_calls, other)
            &&& same_at(
                metrics.middleware_circuit_open,
                after.middleware_circuit_open,
                (other, route),
            )
            &&& same_at(
                metrics.middleware_failure_count,
                after.middleware_failure_count,
                (other, route),
            )
            &&& same_at(metrics.registry_total_names, after.registry_total_names, other)
            &&& same_at(metrics.quote_total_generated, after.quote_total_generated, other)
            &&& same_at(metrics.quote_total_fee_estimated, after.quote_total_fee_estimated, other)
            &&& same_at(
                metrics.execution_total_executions,
                after.execution_total_executions,
                other,
            )
            &&& same_at(metrics.execution_total_errors, after.execution_total_errors, other)
            &&& same_at(metrics.execution_max_retries, after.execution_max_retries, other)
        }),
{
}

/// Whether two maps agree on a key.
pub open spec fn same_at<K, V>(a: Map<K, V>, b: Map<K, V>, key: K) -> bool {
    &&& a.contains_key(key) == b.contains_key(key)
    &&& a.contains_key(key) ==> a[key] == b[key]
}

/// Whether no scrape of a round is about to ask router-core for its total or whether it is
/// paused.
spec fn is_past_pause(round: Round) -> bool {
    forall|i: int|
        0 <= i < round.pending.len() ==> (#[trigger] round.pending[i]).phase != Phase::CoreTotal
            && round.pending[i].phase != Phase::CorePaused
}

/// What comes later in a round leaves alone what router-core said of its pause.
proof fn lemma_pause_kept<'a>(start: Round, answers: Seq<Answer<'a>>, k: int, n: int)
    requires
        0 <= k <= n <= answers.len(),
        is_past_pause(round_after_all(start, answers.take(k))),
        forall|i: int|
            0 <= i < n ==> (#[trigger] round_after_all(start, answers.take(i))).pending.len() > 0,
    ensures
        is_past_pause(round_after_all(start, answers.take(n))),
        round_after_all(start, answers.take(n)).metrics.core_paused == round_after_all(
            start,
            answers.take(k),
        ).metrics.core_paused,
    decreases n,
{
    if k < n {
        lemma_pause_kept(start, answers, k, n - 1);
        let round = round_after_all(start, answers.take(n - 1));
        let after = round_after_all(start, answers.take(n));
        assert(answers.take(n).drop_last() =~= answers.take(n - 1));
        assert(after == round_after(round, answers[n - 1]));
        assert(round.pending.len() > 0);
        assert(round.pending[0].phase != Phase::CoreTotal);
        assert forall|i: int| 0 <= i < after.pending.len() implies (
        #[trigger] after.pending[i]).phase != Phase::CoreTotal && after.pending[i].phase
            != Phase::CorePaused by {
            if after.pending.len() < round.pending.len() {
                assert(after.pending[i] == round.pending[i + 1]);
            } else if i > 0 {
                assert(after.pending[i] == round.pending[i]);
            }
        }
    }
}

/// Once router-core has told how much it has routed, it is asked whether it is paused, and
/// what it answers is what the metrics show at the end of the round: that it is not, where
/// it gives no answer.
pub proof fn pause_is_recorded<'a, C: RpcClient>(
    client: &'a C,
    args: Args,
    before: MetricsView,
    start: Round,
    answers: Seq<Answer<'a>>,
    all_ok: bool,
    metrics: MetricsView,
)
    requires
        is_start(args, before, start),
        is_round(client, start, answers, all_ok, metrics),
        args.core_contract_id@.len() > 0,
        answers[0] is Number,
    ensures
        answers.len() > 1,
        exists|query: Query|
            {
                &&& query matches Query::Bool { contract_id, function }
                &&& contract_id@ == args.core_contract_id@
                &&& function@ == "is_paused"@
                &&& #[trigger] is_answer(client, query, answers[1])
            },
        metrics.core_paused.contains_key(args.core_contract_id@),
        metrics.core_paused[args.core_contract_id@] == (answers[1] == Answer::<'a>::Flag(true)),
{
    let id = args.core_contract_id@;
    let first = start.pending[0];
    let all = targets(start.pending);
    assert(all.len() == start.pending.len());
    assert(all[0] == (id, Phase::CoreTotal));
    assert forall|i: int| 0 < i < start.pending.len() implies (#[trigger] start.pending[i]).phase
        != Phase::CoreTotal && start.pending[i].phase != Phase::CorePaused by {
        assert(all[i].1 == start.pending[i].phase);
    }
    assert(first.contract_id@ == id && first.phase == Phase::CoreTotal);
    assert(answers.take(0) =~= Seq::empty());
    assert(answers.take(answers.len() as int) =~= answers);
    assert(answers.len() > 0);
    assert(answers.take(1).drop_last() =~= answers.take(0));
    assert(round_after_all(start, answers.take(0)) == start);
    let asked = round_after_all(start, answers.take(1));
    assert(asked == round_after(start, answers[0]));
    assert(asked.pending[0] == scrape_after(first, answers[0]));
    assert(answers.len() > 1);
    assert(is_next_answer(client, asked, answers[1]));
    assert(answers.take(2).drop_last() =~= answers.take(1));
    let told = round_after_all(start, answers.take(2));
    assert(told == round_after(asked, answers[1]));
    assert forall|i: int| 0 <= i < told.pending.len() implies (#[trigger] told.pending[i]).phase
        != Phase::CoreTotal && told.pending[i].phase != Phase::CorePaused by {
        if i > 0 {
            assert(told.pending[i] == start.pending[i]);
        }
    }
    lemma_pause_kept(start, answers, 2, answers.len() as int);
}

} // verus!
