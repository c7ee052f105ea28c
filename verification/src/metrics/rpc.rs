//! The exporter's view of the Soroban RPC: what it asks, and what it reads from the
//! replies.

use crate::json::Json;
use crate::store::KeyedStore;
use crate::text::{copy_strings, decimal, decimal_of, texts};
use vstd::prelude::*;

verus! {

/// A single ledger entry returned by `getLedgerEntries`.
#[derive(Debug, PartialEq)]
pub struct LedgerEntry {
    /// Base64-encoded XDR of the entry key.
    pub key: String,
    /// Base64-encoded XDR of the entry value.
    pub xdr: String,
}

/// A single event returned by `getEvents`.
pub struct ContractEvent {
    /// The contract that emitted the event.
    pub contract_id: String,
    /// Event topic symbols (decoded from XDR).
    pub topic: Vec<Json>,
    /// Event value (decoded from XDR).
    pub value: Json,
}

/// Why an RPC request gave nothing to work with.
#[derive(Debug, PartialEq)]
pub enum RpcError {
    /// The request or the reply did not get through, and why.
    Transport(String),
    /// The node refused the request, with this code and message.
    Refused { code: i64, message: String },
    /// The node sent neither a result nor an error.
    EmptyResult,
    /// The result holds no unsigned number.
    NoU64,
    /// The result holds no boolean.
    NoBool,
    /// Transactions cannot be built.
    NoTransaction,
    /// Storage keys cannot be built.
    NoStorageKey,
}

/// A number in decimal notation, with its sign.
pub open spec fn signed_decimal_of(n: int) -> Seq<char> {
    if n < 0 {
        "-"@ + decimal_of((-n) as nat)
    } else {
        decimal_of(n as nat)
    }
}

fn signed_decimal(n: i64) -> (r: String)
    ensures
        r@ == signed_decimal_of(n as int),
{
    if n == i64::MIN {
        "-".to_owned().concat(decimal(0x8000_0000_0000_0000).as_str())
    } else if n < 0 {
        "-".to_owned().concat(decimal((-n) as u64).as_str())
    } else {
        decimal(n as u64)
    }
}

impl RpcError {
    pub open spec fn text(self) -> Seq<char> {
        match self {
            RpcError::Transport(message) => message@,
            RpcError::Refused { code, message } => "RPC error "@ + signed_decimal_of(code as int)
                + ": "@ + message@,
            RpcError::EmptyResult => "empty RPC result"@,
            RpcError::NoU64 => "could not find u64 in simulation result"@,
            RpcError::NoBool => "could not find bool in simulation result"@,
            RpcError::NoTransaction => "XDR transaction building is not implemented in this reference exporter. Use getLedgerEntries-based scraping (the default) or integrate the stellar-xdr crate to build InvokeHostFunction envelopes."@,
            RpcError::NoStorageKey => "Direct XDR key construction not implemented. Use the simulation path or integrate stellar-xdr."@,
        }
    }

    /// The error in words.
    pub fn message(&self) -> (r: String)
        ensures
            r@ == self.text(),
    {
        match self {
            RpcError::Transport(message) => message.clone(),
            RpcError::Refused { code, message } => "RPC error ".to_owned().concat(
                signed_decimal(*code).as_str(),
            ).concat(": ").concat(message.as_str()),
            RpcError::EmptyResult => "empty RPC result".to_owned(),
            RpcError::NoU64 => "could not find u64 in simulation result".to_owned(),
            RpcError::NoBool => "could not find bool in simulation result".to_owned(),
            RpcError::NoTransaction => "XDR transaction building is not implemented in this reference exporter. Use getLedgerEntries-based scraping (the default) or integrate the stellar-xdr crate to build InvokeHostFunction envelopes.".to_owned(),
            RpcError::NoStorageKey => "Direct XDR key construction not implemented. Use the simulation path or integrate stellar-xdr.".to_owned(),
        }
    }
}

/// A JSON-RPC reply: a result, or the code and message of an error.
pub struct RpcReply<T> {
    pub result: Option<T>,
    pub error: Option<(i64, String)>,
}

/// What a reply means: the error where there is one, else the result.
pub open spec fn result_of<T>(reply: RpcReply<T>) -> Result<T, RpcError> {
    match reply.error {
        Some((code, message)) => Err(RpcError::Refused { code, message }),
        None => match reply.result {
            Some(result) => Ok(result),
            None => Err(RpcError::EmptyResult),
        },
    }
}

/// What a reply means: the error where there is one, else the result.
pub fn reply_result<T>(reply: RpcReply<T>) -> (r: Result<T, RpcError>)
    ensures
        r == result_of(reply),
{
    match reply.error {
        Some((code, message)) => Err(RpcError::Refused { code, message }),
        None => match reply.result {
            Some(result) => Ok(result),
            None => Err(RpcError::EmptyResult),
        },
    }
}

/// The transaction that invokes a contract function. Transaction envelopes cannot be
/// built without an XDR encoder, so this always fails.
pub fn build_invoke_xdr(contract_id: &str, function_name: &str, args_xdr: &Vec<String>) -> (r:
    Result<String, RpcError>)
    ensures
        r == Err::<String, _>(RpcError::NoTransaction),
{
    Err(RpcError::NoTransaction)
}

/// The ledger key of a contract's instance storage. Ledger keys cannot be built
/// without an XDR encoder, so this always fails.
pub fn instance_storage_key_xdr(contract_id: &str) -> (r: Result<String, RpcError>)
    ensures
        r == Err::<String, _>(RpcError::NoStorageKey),
{
    Err(RpcError::NoStorageKey)
}

/// The first value that a simulation returned.
pub open spec fn returned(result: Json) -> Option<Json> {
    match result.field("results"@) {
        Some(results) => match results.items() {
            Some(items) => if items.len() > 0 {
                items[0].field("retval"@)
            } else {
                None
            },
            None => None,
        },
        None => None,
    }
}

/// The first value that a simulation returned.
pub fn first_retval(result: &Json) -> (r: Option<&Json>)
    ensures
        match r {
            Some(value) => returned(*result) == Some(*value),
            None => returned(*result) is None,
        },
{
    match result.get("results") {
        Some(results) => match results.as_array() {
            Some(items) => {
                if items.len() > 0 {
                    items[0].get("retval")
                } else {
                    None
                }
            },
            None => None,
        },
        None => None,
    }
}

/// The unsigned number that a value is.
pub open spec fn number_in(value: Json) -> Option<u64> {
    match value {
        Json::Unsigned(n) => Some(n),
        _ => None,
    }
}

/// The boolean that a value is.
pub open spec fn flag_in(value: Json) -> Option<bool> {
    match value {
        Json::Bool(b) => Some(b),
        _ => None,
    }
}

/// The unsigned number that a member of a value is.
pub open spec fn number_at(value: Json, key: Seq<char>) -> Option<u64> {
    match value.field(key) {
        Some(member) => number_in(member),
        None => None,
    }
}

/// The boolean that a member of a value is.
pub open spec fn flag_at(value: Json, key: Seq<char>) -> Option<bool> {
    match value.field(key) {
        Some(member) => flag_in(member),
        None => None,
    }
}

pub fn get_number(value: &Json, key: &str) -> (r: Option<u64>)
    ensures
        r == number_at(*value, key@),
{
    match value.get(key) {
        Some(member) => member.as_u64(),
        None => None,
    }
}

pub fn get_flag(value: &Json, key: &str) -> (r: Option<bool>)
    ensures
        r == flag_at(*value, key@),
{
    match value.get(key) {
        Some(member) => member.as_bool(),
        None => None,
    }
}

/// The unsigned number in a simulation result: the returned value, its member `u64`,
/// or the result itself.
pub open spec fn u64_in(result: Json) -> Option<u64> {
    match returned(result) {
        Some(value) => match number_in(value) {
            Some(n) => Some(n),
            None => match number_at(value, "u64"@) {
                Some(n) => Some(n),
                None => number_in(result),
            },
        },
        None => number_in(result),
    }
}

/// Finds the unsigned number in a simulation result.
///
/// # Errors
/// * [`RpcError::NoU64`] if there is none.
pub fn extract_u64_from_sim_result(result: &Json) -> (r: Result<u64, RpcError>)
    ensures
        match u64_in(*result) {
            Some(n) => r == Ok::<_, RpcError>(n),
            None => r == Err::<u64, _>(RpcError::NoU64),
        },
{
    match first_retval(result) {
        Some(value) => {
            match value.as_u64() {
                Some(n) => {
                    return Ok(n);
                },
                None => {},
            }
            match get_number(value, "u64") {
                Some(n) => {
                    return Ok(n);
                },
                None => {},
            }
        },
        None => {},
    }
    match result.as_u64() {
        Some(n) => Ok(n),
        None => Err(RpcError::NoU64),
    }
}

/// The boolean in a simulation result: the returned value, its member `bool`, or the
/// result itself.
pub open spec fn bool_in(result: Json) -> Option<bool> {
    match returned(result) {
        Some(value) => match flag_in(value) {
            Some(b) => Some(b),
            None => match flag_at(value, "bool"@) {
                Some(b) => Some(b),
                None => flag_in(result),
            },
        },
        None => flag_in(result),
    }
}

/// Finds the boolean in a simulation result.
///
/// # Errors
/// * [`RpcError::NoBool`] if there is none.
pub fn extract_bool_from_sim_result(result: &Json) -> (r: Result<bool, RpcError>)
    ensures
        match bool_in(*result) {
            Some(b) => r == Ok::<_, RpcError>(b),
            None => r == Err::<bool, _>(RpcError::NoBool),
        },
{
    match first_retval(result) {
        Some(value) => {
            match value.as_bool() {
                Some(b) => {
                    return Ok(b);
                },
                None => {},
            }
            match get_flag(value, "bool") {
                Some(b) => {
                    return Ok(b);
                },
                None => {},
            }
        },
        None => {},
    }
    match result.as_bool() {
        Some(b) => Ok(b),
        None => Err(RpcError::NoBool),
    }
}

/// The text that an item of a list is, or that its member `str` is.
pub open spec fn item_text(item: Json) -> Option<Seq<char>> {
    match item.text() {
        Some(text) => Some(text),
        None => match item.field("str"@) {
            Some(member) => member.text(),
            None => None,
        },
    }
}

/// The texts among the items of a list.
pub open spec fn item_texts(items: Seq<Json>) -> Seq<Seq<char>>
    decreases items.len(),
{
    if items.len() == 0 {
        seq![]
    } else {
        match item_text(items.last()) {
            Some(text) => item_texts(items.drop_last()).push(text),
            None => item_texts(items.drop_last()),
        }
    }
}

/// The texts in a simulation result: those of the returned list, or of the result
/// itself where nothing is returned; none where that is no list.
pub open spec fn texts_in(result: Json) -> Seq<Seq<char>> {
    let value = match returned(result) {
        Some(value) => value,
        None => result,
    };
    match value.items() {
        Some(items) => item_texts(items),
        None => seq![],
    }
}

/// Finds the list of strings in a simulation result; an empty one where there is
/// none.
pub fn extract_string_vec_from_sim_result(result: &Json) -> (r: Vec<String>)
    ensures
        texts(r@) == texts_in(*result),
{
    let value: &Json = match first_retval(result) {
        Some(value) => value,
        None => result,
    };
    let mut strings: Vec<String> = Vec::new();
    proof {
        assert(texts(strings@) =~= Seq::<Seq<char>>::empty());
    }
    match value.as_array() {
        Some(items) => {
            let mut i: usize = 0;
            while i < items.len()
                invariant
                    i <= items@.len(),
                    texts(strings@) == item_texts(items@.take(i as int)),
                decreases items@.len() - i,
            {
                proof {
                    assert(items@.take(i + 1).drop_last() =~= items@.take(i as int));
                }
                let ghost before = strings@;
                match items[i].as_str() {
                    Some(text) => {
                        strings.push(text.to_owned());
                        proof {
                            assert(texts(strings@) =~= texts(before).push(text@));
                        }
                    },
                    None => match items[i].get("str") {
                        Some(member) => match member.as_str() {
                            Some(text) => {
                                strings.push(text.to_owned());
                                proof {
                                    assert(texts(strings@) =~= texts(before).push(text@));
                                }
                            },
                            None => {},
                        },
                        None => {},
                    },
                }
                i = i + 1;
            }
            proof {
                assert(items@.take(i as int) =~= items@);
            }
        },
        None => {},
    }
    strings
}

/// The client of the exporter: where the node is, and how long it may take to answer.
#[derive(Debug, PartialEq)]
pub struct SorobanRpcClient {
    pub rpc_url: String,
    pub timeout_secs: u64,
}

/// What `getEvents` is asked for: events of one contract under any of these topics.
pub open spec fn is_event_filter(filter: Json, contract_id: Seq<char>, topic: Seq<char>) -> bool {
    &&& filter is Object
    &&& filter->Object_0@.len() == 3
    &&& filter->Object_0@[0].0@ == "type"@
    &&& filter->Object_0@[0].1.text() == Some("contract"@)
    &&& filter->Object_0@[1].0@ == "contractIds"@
    &&& filter->Object_0@[1].1.items() is Some
    &&& filter->Object_0@[1].1.items()->0.len() == 1
    &&& filter->Object_0@[1].1.items()->0[0].text() == Some(contract_id)
    &&& filter->Object_0@[2].0@ == "topics"@
    &&& filter->Object_0@[2].1.items() is Some
    &&& filter->Object_0@[2].1.items()->0.len() == 1
    &&& filter->Object_0@[2].1.items()->0[0].items() is Some
    &&& filter->Object_0@[2].1.items()->0[0].items()->0.len() == 1
    &&& filter->Object_0@[2].1.items()->0[0].items()->0[0].text() == Some(topic)
}

fn event_filter(contract_id: &str, topic: &str) -> (r: Json)
    ensures
        is_event_filter(r, contract_id@, topic@),
{
    let mut contract_ids: Vec<Json> = Vec::new();
    contract_ids.push(Json::Text(contract_id.to_owned()));
    let mut topic_segments: Vec<Json> = Vec::new();
    topic_segments.push(Json::Text(topic.to_owned()));
    let mut topics: Vec<Json> = Vec::new();
    topics.push(Json::Array(topic_segments));
    let mut filter: Vec<(String, Json)> = Vec::new();
    filter.push(("type".to_owned(), Json::Text("contract".to_owned())));
    filter.push(("contractIds".to_owned(), Json::Array(contract_ids)));
    filter.push(("topics".to_owned(), Json::Array(topics)));
    Json::Object(filter)
}

/// Whether `filters` holds one filter per topic, in order.
pub open spec fn are_event_filters(
    filters: Json,
    contract_id: Seq<char>,
    topics: Seq<String>,
) -> bool {
    &&& filters.items() is Some
    &&& filters.items()->0.len() == topics.len()
    &&& forall|i: int|
        0 <= i < topics.len() ==> is_event_filter(
            #[trigger] filters.items()->0[i],
            contract_id,
            topics[i]@,
        )
}

impl SorobanRpcClient {
    pub fn new(rpc_url: String, timeout_secs: u64) -> (r: Self)
        ensures
            r.rpc_url == rpc_url,
            r.timeout_secs == timeout_secs,
    {
        SorobanRpcClient { rpc_url, timeout_secs }
    }

    /// The parameters of `getEvents`; a start ledger of zero leaves the start to the
    /// node.
    pub fn get_events_params(contract_id: &str, topics: &Vec<String>, start_ledger: u32) -> (r: Json)
        ensures
            r is Object,
            start_ledger > 0 ==> {
                &&& r->Object_0@.len() == 2
                &&& r->Object_0@[0].0@ == "startLedger"@
                &&& r->Object_0@[0].1 == Json::Unsigned(start_ledger as u64)
                &&& r->Object_0@[1].0@ == "filters"@
                &&& are_event_filters(r->Object_0@[1].1, contract_id@, topics@)
            },
            start_ledger == 0 ==> {
                &&& r->Object_0@.len() == 1
                &&& r->Object_0@[0].0@ == "filters"@
                &&& are_event_filters(r->Object_0@[0].1, contract_id@, topics@)
            },
    {
        let mut filters: Vec<Json> = Vec::new();
        let mut i: usize = 0;
        while i < topics.len()
            invariant
                i <= topics@.len(),
                filters@.len() == i,
                forall|j: int|
                    0 <= j < i ==> is_event_filter(
                        #[trigger] filters@[j],
                        contract_id@,
                        topics@[j]@,
                    ),
            decreases topics@.len() - i,
        {
            filters.push(event_filter(contract_id, topics[i].as_str()));
            i = i + 1;
        }
        let mut params: Vec<(String, Json)> = Vec::new();
        if start_ledger > 0 {
            params.push(("startLedger".to_owned(), Json::Unsigned(start_ledger as u64)));
        }
        params.push(("filters".to_owned(), Json::Array(filters)));
        Json::Object(params)
    }

    /// What the reply to a `simulateTransaction` request means.
    pub fn simulate_invoke(reply: Result<RpcReply<Json>, RpcError>) -> (r: Result<Json, RpcError>)
        ensures
            r == (match reply {
                Ok(reply) => result_of(reply),
                Err(e) => Err(e),
            }),
    {
        match reply {
            Ok(reply) => reply_result(reply),
            Err(e) => Err(e),
        }
    }

    /// What the reply to a `getLedgerEntries` request means; a result without entries
    /// holds none.
    pub fn get_ledger_entries(reply: Result<RpcReply<Option<Vec<LedgerEntry>>>, RpcError>) -> (r:
        Result<Vec<LedgerEntry>, RpcError>)
        ensures
            match reply {
                Err(e) => r == Err::<Vec<LedgerEntry>, _>(e),
                Ok(reply) => match result_of(reply) {
                    Err(e) => r == Err::<Vec<LedgerEntry>, _>(e),
                    Ok(Some(entries)) => r == Ok::<_, RpcError>(entries),
                    Ok(None) => r matches Ok(entries) && entries@.len() == 0,
                },
            },
    {
        match reply {
            Ok(reply) => match reply_result(reply) {
                Ok(Some(entries)) => Ok(entries),
                Ok(None) => Ok(Vec::new()),
                Err(e) => Err(e),
            },
            Err(e) => Err(e),
        }
    }

    /// What the reply to a `getEvents` request means; a result without events holds
    /// none.
    pub fn get_events(reply: Result<RpcReply<Option<Vec<ContractEvent>>>, RpcError>) -> (r: Result<
        Vec<ContractEvent>,
        RpcError,
    >)
        ensures
            match reply {
                Err(e) => r == Err::<Vec<ContractEvent>, _>(e),
                Ok(reply) => match result_of(reply) {
                    Err(e) => r == Err::<Vec<ContractEvent>, _>(e),
                    Ok(Some(events)) => r == Ok::<_, RpcError>(events),
                    Ok(None) => r matches Ok(events) && events@.len() == 0,
                },
            },
    {
        match reply {
            Ok(reply) => match reply_result(reply) {
                Ok(Some(events)) => Ok(events),
                Ok(None) => Ok(Vec::new()),
                Err(e) => Err(e),
            },
            Err(e) => Err(e),
        }
    }

    /// The unsigned number that a simulation returned.
    pub fn call_u64(simulation: Result<Json, RpcError>) -> (r: Result<u64, RpcError>)
        ensures
            r == (match simulation {
                Ok(result) => match u64_in(result) {
                    Some(n) => Ok(n),
                    None => Err(RpcError::NoU64),
                },
                Err(e) => Err(e),
            }),
    {
        match simulation {
            Ok(result) => extract_u64_from_sim_result(&result),
            Err(e) => Err(e),
        }
    }

    /// The boolean that a simulation returned.
    pub fn call_bool(simulation: Result<Json, RpcError>) -> (r: Result<bool, RpcError>)
        ensures
            r == (match simulation {
                Ok(result) => match bool_in(result) {
                    Some(b) => Ok(b),
                    None => Err(RpcError::NoBool),
                },
                Err(e) => Err(e),
            }),
    {
        match simulation {
            Ok(result) => extract_bool_from_sim_result(&result),
            Err(e) => Err(e),
        }
    }

    /// The list of strings that a simulation returned.
    pub fn call_string_vec(simulation: Result<Json, RpcError>) -> (r: Result<
        Vec<String>,
        RpcError,
    >)
        ensures
            match (simulation, r) {
                (Ok(result), Ok(strings)) => texts(strings@) == texts_in(result),
                (Err(expected), Err(e)) => e == expected,
                _ => false,
            },
    {
        match simulation {
            Ok(result) => Ok(extract_string_vec_from_sim_result(&result)),
            Err(e) => Err(e),
        }
    }
}

/// The RPC calls that scraping needs.
pub trait RpcClient {
    fn call_u64(&self, contract_id: &str, function_name: &str) -> Result<u64, RpcError>;

    fn call_bool(&self, contract_id: &str, function_name: &str) -> Result<bool, RpcError>;

    fn call_string_vec(&self, contract_id: &str, function_name: &str) -> Result<
        Vec<String>,
        RpcError,
    >;

    fn simulate_invoke(&self, contract_id: &str, function_name: &str, args_xdr: &Vec<String>) -> Result<
        &Json,
        RpcError,
    >;

    fn get_events(&self, contract_id: &str, topics: &Vec<String>, start_ledger: u32) -> Result<
        &Vec<ContractEvent>,
        RpcError,
    >;

    fn get_ledger_entries(&self, keys_xdr: &Vec<String>) -> Result<Vec<LedgerEntry>, RpcError>;
}

/// An RPC client with prepared answers. Any call that was not prepared is an error.
pub struct MockRpcClient {
    pub u64_responses: KeyedStore<(String, String), u64>,
    pub bool_responses: KeyedStore<(String, String), bool>,
    pub string_vec_responses: KeyedStore<(String, String), Vec<String>>,
    pub simulate_responses: KeyedStore<(String, String), Json>,
    pub events_responses: KeyedStore<(String, String), Vec<ContractEvent>>,
    pub ledger_entries_responses: KeyedStore<String, Vec<LedgerEntry>>,
}

/// The entries once more.
fn copy_entries(entries: &Vec<LedgerEntry>) -> (r: Vec<LedgerEntry>)
    ensures
        r@ == entries@,
{
    let mut copy: Vec<LedgerEntry> = Vec::new();
    let mut i: usize = 0;
    while i < entries.len()
        invariant
            i <= entries@.len(),
            copy@ == entries@.take(i as int),
        decreases entries@.len() - i,
    {
        proof {
            assert(entries@.take(i + 1) =~= copy@.push(entries@[i as int]));
        }
        copy.push(LedgerEntry { key: entries[i].key.clone(), xdr: entries[i].xdr.clone() });
        i = i + 1;
    }
    proof {
        assert(entries@.take(i as int) =~= entries@);
    }
    copy
}

/// The error for an answer that was not prepared.
fn unprepared(kind: &str, contract_id: &str, function_name: &str) -> (r: RpcError)
    ensures
        r.text() == "MockRpcClient: no "@ + kind@ + " response for "@ + contract_id@ + "::"@
            + function_name@,
{
    RpcError::Transport(
        "MockRpcClient: no ".to_owned().concat(kind).concat(" response for ").concat(
            contract_id,
        ).concat("::").concat(function_name),
    )
}

impl MockRpcClient {
    pub fn new() -> (r: Self)
        ensures
            r.u64_responses@ == Map::<(Seq<char>, Seq<char>), u64>::empty(),
            r.bool_responses@ == Map::<(Seq<char>, Seq<char>), bool>::empty(),
            r.string_vec_responses@ == Map::<(Seq<char>, Seq<char>), Vec<String>>::empty(),
            r.simulate_responses@ == Map::<(Seq<char>, Seq<char>), Json>::empty(),
            r.events_responses@ == Map::<(Seq<char>, Seq<char>), Vec<ContractEvent>>::empty(),
            r.ledger_entries_responses@ == Map::<Seq<char>, Vec<LedgerEntry>>::empty(),
    {
        MockRpcClient {
            u64_responses: KeyedStore::new(),
            bool_responses: KeyedStore::new(),
            string_vec_responses: KeyedStore::new(),
            simulate_responses: KeyedStore::new(),
            events_responses: KeyedStore::new(),
            ledger_entries_responses: KeyedStore::new(),
        }
    }

    pub fn with_u64(self, contract: &str, func: &str, val: u64) -> (r: Self)
        ensures
            r.u64_responses@ == self.u64_responses@.insert((contract@, func@), val),
            r == (MockRpcClient { u64_responses: r.u64_responses, ..self }),
    {
        let mut r: MockRpcClient = self;
        r.u64_responses.insert((contract.to_owned(), func.to_owned()), val);
        r
    }

    pub fn with_bool(self, contract: &str, func: &str, val: bool) -> (r: Self)
        ensures
            r.bool_responses@ == self.bool_responses@.insert((contract@, func@), val),
            r == (MockRpcClient { bool_responses: r.bool_responses, ..self }),
    {
        let mut r: MockRpcClient = self;
        r.bool_responses.insert((contract.to_owned(), func.to_owned()), val);
        r
    }

    pub fn with_string_vec(self, contract: &str, func: &str, val: Vec<String>) -> (r: Self)
        ensures
            r.string_vec_responses@ == self.string_vec_responses@.insert((contract@, func@), val),
            r == (MockRpcClient { string_vec_responses: r.string_vec_responses, ..self }),
    {
        let mut r: MockRpcClient = self;
        r.string_vec_responses.insert((contract.to_owned(), func.to_owned()), val);
        r
    }

    pub fn with_simulate(self, contract: &str, func: &str, val: Json) -> (r: Self)
        ensures
            r.simulate_responses@ == self.simulate_responses@.insert((contract@, func@), val),
            r == (MockRpcClient { simulate_responses: r.simulate_responses, ..self }),
    {
        let mut r: MockRpcClient = self;
        r.simulate_responses.insert((contract.to_owned(), func.to_owned()), val);
        r
    }

    /// Prepares the `getEvents` answer for a contract and a topic.
    pub fn with_events(self, contract: &str, topic: &str, val: Vec<ContractEvent>) -> (r: Self)
        ensures
            r.events_responses@ == self.events_responses@.insert((contract@, topic@), val),
            r == (MockRpcClient { events_responses: r.events_responses, ..self }),
    {
        let mut r: MockRpcClient = self;
        r.events_responses.insert((contract.to_owned(), topic.to_owned()), val);
        r
    }

    /// Prepares the `getLedgerEntries` answer to a request whose first key is `key`.
    pub fn with_ledger_entries(self, key: &str, val: Vec<LedgerEntry>) -> (r: Self)
        ensures
            r.ledger_entries_responses@ == self.ledger_entries_responses@.insert(key@, val),
            r == (MockRpcClient { ledger_entries_responses: r.ledger_entries_responses, ..self }),
    {
        let mut r: MockRpcClient = self;
        r.ledger_entries_responses.insert(key.to_owned(), val);
        r
    }
}

impl RpcClient for MockRpcClient {
    fn call_u64(&self, contract_id: &str, function_name: &str) -> (r: Result<u64, RpcError>)
        ensures
            match r {
                Ok(n) => self.u64_responses@.contains_key((contract_id@, function_name@)) && n
                    == self.u64_responses@[(contract_id@, function_name@)],
                Err(e) => !self.u64_responses@.contains_key((contract_id@, function_name@))
                    && e.text() == "MockRpcClient: no "@ + "u64"@ + " response for "@ + contract_id@
                    + "::"@ + function_name@,
            },
    {
        match self.u64_responses.get(&(contract_id.to_owned(), function_name.to_owned())) {
            Some(n) => Ok(*n),
            None => Err(unprepared("u64", contract_id, function_name)),
        }
    }

    fn call_bool(&self, contract_id: &str, function_name: &str) -> (r: Result<bool, RpcError>)
        ensures
            match r {
                Ok(b) => self.bool_responses@.contains_key((contract_id@, function_name@)) && b
                    == self.bool_responses@[(contract_id@, function_name@)],
                Err(e) => !self.bool_responses@.contains_key((contract_id@, function_name@))
                    && e.text() == "MockRpcClient: no "@ + "bool"@ + " response for "@
                    + contract_id@ + "::"@ + function_name@,
            },
    {
        match self.bool_responses.get(&(contract_id.to_owned(), function_name.to_owned())) {
            Some(b) => Ok(*b),
            None => Err(unprepared("bool", contract_id, function_name)),
        }
    }

    fn call_string_vec(&self, contract_id: &str, function_name: &str) -> (r: Result<
        Vec<String>,
        RpcError,
    >)
        ensures
            match r {
                Ok(strings) => self.string_vec_responses@.contains_key(
                    (contract_id@, function_name@),
                ) && strings@ == self.string_vec_responses@[(contract_id@, function_name@)]@,
                Err(e) => !self.string_vec_responses@.contains_key((contract_id@, function_name@))
                    && e.text() == "MockRpcClient: no "@ + "string_vec"@ + " response for "@
                    + contract_id@ + "::"@ + function_name@,
            },
    {
        match self.string_vec_responses.get(&(contract_id.to_owned(), function_name.to_owned())) {
            Some(strings) => Ok(copy_strings(strings)),
            None => Err(unprepared("string_vec", contract_id, function_name)),
        }
    }

    fn simulate_invoke(&self, contract_id: &str, function_name: &str, args_xdr: &Vec<String>) -> (r:
        Result<&Json, RpcError>)
        ensures
            match r {
                Ok(value) => self.simulate_responses@.contains_key((contract_id@, function_name@))
                    && *value == self.simulate_responses@[(contract_id@, function_name@)],
                Err(e) => !self.simulate_responses@.contains_key((contract_id@, function_name@))
                    && e.text() == "MockRpcClient: no "@ + "simulate"@ + " response for "@
                    + contract_id@ + "::"@ + function_name@,
            },
    {
        match self.simulate_responses.get(&(contract_id.to_owned(), function_name.to_owned())) {
            Some(value) => Ok(value),
            None => Err(unprepared("simulate", contract_id, function_name)),
        }
    }

    /// The events of the first topic that has an answer prepared.
    fn get_events(&self, contract_id: &str, topics: &Vec<String>, start_ledger: u32) -> (r: Result<
        &Vec<ContractEvent>,
        RpcError,
    >)
        ensures
            match r {
                Ok(events) => exists|i: int|
                    {
                        &&& 0 <= i < topics@.len()
                        &&& self.events_responses@.contains_key(
                            (contract_id@, (#[trigger] topics@[i])@),
                        )
                        &&& *events == self.events_responses@[(contract_id@, topics@[i]@)]
                        &&& forall|j: int|
                            0 <= j < i ==> !self.events_responses@.contains_key(
                                (contract_id@, (#[trigger] topics@[j])@),
                            )
                    },
                Err(e) => {
                    &&& forall|i: int|
                        0 <= i < topics@.len() ==> !self.events_responses@.contains_key(
                            (contract_id@, (#[trigger] topics@[i])@),
                        )
                    &&& e.text() == "MockRpcClient: no events response for "@ + contract_id@
                },
            },
    {
        let mut i: usize = 0;
        while i < topics.len()
            invariant
                i <= topics@.len(),
                forall|j: int|
                    0 <= j < i ==> !self.events_responses@.contains_key(
                        (contract_id@, (#[trigger] topics@[j])@),
                    ),
            decreases topics@.len() - i,
        {
            match self.events_responses.get(&(contract_id.to_owned(), topics[i].clone())) {
                Some(events) => {
                    proof {
                        assert(self.events_responses@.contains_key(
                            (contract_id@, topics@[i as int]@),
                        ));
                    }
                    return Ok(events);
                },
                None => {},
            }
            i = i + 1;
        }
        Err(
            RpcError::Transport(
                "MockRpcClient: no events response for ".to_owned().concat(contract_id),
            ),
        )
    }

    /// The entries prepared for the first of the keys, or for the empty key where there
    /// are no keys.
    fn get_ledger_entries(&self, keys_xdr: &Vec<String>) -> (r: Result<Vec<LedgerEntry>, RpcError>)
        ensures
            ({
                let key = if keys_xdr@.len() > 0 {
                    keys_xdr@[0]@
                } else {
                    ""@
                };
                match r {
                    Ok(entries) => self.ledger_entries_responses@.contains_key(key) && entries@
                        == self.ledger_entries_responses@[key]@,
                    Err(e) => !self.ledger_entries_responses@.contains_key(key) && e.text()
                        == "MockRpcClient: no ledger entries response for "@ + key,
                }
            }),
    {
        let key: String = if keys_xdr.len() > 0 {
            keys_xdr[0].clone()
        } else {
            "".to_owned()
        };
        match self.ledger_entries_responses.get(&key) {
            Some(entries) => Ok(copy_entries(entries)),
            None => Err(
                RpcError::Transport(
                    "MockRpcClient: no ledger entries response for ".to_owned().concat(
                        key.as_str(),
                    ),
                ),
            ),
        }
    }
}

} // verus!
