//! The Soroban RPC client: what it asks, and what the replies mean. Sending the
//! request and receiving the reply are up to the transport.

use super::types::{RouteEntryResponse, RouteMetadataResponse};
use super::xdr::{base64_of, decode_string_vec_xdr, string_vec_of};
use crate::json::Json;
use crate::text::{i64_of, parse_i64, same_text, texts};
use vstd::prelude::*;

verus! {

/// The fee in stroops of every transaction.
pub const BASE_FEE: i64 = 100;

/// The resource fee where a simulation reports none that can be read.
pub const FALLBACK_RESOURCE_FEE: i64 = 1_000;

/// The network load in basis points from which fees are doubled.
pub const SURGE_LOAD_BPS: u32 = 8_000;

/// Why a request to the RPC node gave no answer.
#[derive(Debug, PartialEq)]
pub enum RpcError {
    /// There is no router-core contract to ask.
    NotConfigured,
    /// The request or the reply did not get through, and why.
    Transport(String),
    /// The node refused the request, with this message.
    Rpc(String),
    /// The node sent neither a result nor an error.
    EmptyResult,
    /// The contract failed, with this message.
    Contract(String),
}

impl RpcError {
    pub open spec fn text(self) -> Seq<char> {
        match self {
            RpcError::NotConfigured => "ROUTER_CORE_CONTRACT_ID not configured"@,
            RpcError::Transport(message) => message@,
            RpcError::Rpc(message) => "RPC error: "@ + message@,
            RpcError::EmptyResult => "empty RPC result"@,
            RpcError::Contract(message) => "contract error: "@ + message@,
        }
    }

    /// The error in words.
    pub fn message(&self) -> (r: String)
        ensures
            r@ == self.text(),
    {
        match self {
            RpcError::NotConfigured => "ROUTER_CORE_CONTRACT_ID not configured".to_owned(),
            RpcError::Transport(message) => message.clone(),
            RpcError::Rpc(message) => "RPC error: ".to_owned().concat(message.as_str()),
            RpcError::EmptyResult => "empty RPC result".to_owned(),
            RpcError::Contract(message) => "contract error: ".to_owned().concat(message.as_str()),
        }
    }
}

/// A JSON-RPC reply: a result, or the message of an error.
pub struct RpcReply<T> {
    pub result: Option<T>,
    pub error: Option<String>,
}

/// What a simulation reports.
#[derive(Debug, PartialEq)]
pub struct SimulateTransactionResult {
    pub min_resource_fee: String,
    pub error: Option<String>,
}

/// What a simulation with return values reports: the XDR of each value.
#[derive(Debug, PartialEq)]
pub struct InvocationResult {
    pub error: Option<String>,
    pub results: Vec<String>,
}

#[derive(Clone, Copy, Debug, PartialEq)]
pub struct FeeBreakdown {
    pub base_fee: i64,
    pub resource_fee: i64,
    pub total_fee: i64,
    pub surge_multiplier: u32,
    pub high_load: bool,
    pub would_succeed: bool,
    /// Whether the fees are a heuristic estimate
    pub fee_estimated: bool,
}

/// The percentage of the plain fee that is charged at a network load.
pub open spec fn surge_of(network_load_bps: u32) -> u32 {
    if network_load_bps >= SURGE_LOAD_BPS {
        200
    } else {
        100
    }
}

/// The fees for a resource fee and a network load.
pub open spec fn breakdown_of(
    resource_fee: int,
    network_load_bps: u32,
    would_succeed: bool,
    fee_estimated: bool,
) -> FeeBreakdown {
    FeeBreakdown {
        base_fee: BASE_FEE,
        resource_fee: resource_fee as i64,
        total_fee: if network_load_bps >= SURGE_LOAD_BPS {
            (2 * (BASE_FEE + resource_fee)) as i64
        } else {
            (BASE_FEE + resource_fee) as i64
        },
        surge_multiplier: surge_of(network_load_bps),
        high_load: network_load_bps >= SURGE_LOAD_BPS,
        would_succeed,
        fee_estimated,
    }
}

/// The resource fee that a simulation reports, or the fallback.
pub open spec fn reported_fee(result: SimulateTransactionResult) -> int {
    match i64_of(result.min_resource_fee@) {
        Some(fee) => fee as int,
        None => FALLBACK_RESOURCE_FEE as int,
    }
}

/// The resource fee where nothing was simulated: a thousandth of the amount, and
/// at least 100.
pub open spec fn heuristic_fee(amount: i64) -> int {
    if amount < 100_000 {
        100
    } else {
        amount as int / 1_000
    }
}

/// Whether the fees for a resource fee can be computed in 64 bits.
pub open spec fn fee_in_range(resource_fee: int, network_load_bps: u32) -> bool {
    if network_load_bps >= SURGE_LOAD_BPS {
        i64::MIN <= 200 * (BASE_FEE + resource_fee) <= i64::MAX
    } else {
        i64::MIN <= 100 * (BASE_FEE + resource_fee) <= i64::MAX
    }
}

/// The client: where the node is, and which contract holds the routes.
#[derive(Debug, PartialEq)]
pub struct SorobanRpcClient {
    pub rpc_url: String,
    pub router_core_contract_id: Option<String>,
}

/// The fees for a resource fee and a network load.
fn breakdown(
    resource_fee: i64,
    network_load_bps: u32,
    would_succeed: bool,
    fee_estimated: bool,
) -> (r: FeeBreakdown)
    requires
        fee_in_range(resource_fee as int, network_load_bps),
    ensures
        r == breakdown_of(resource_fee as int, network_load_bps, would_succeed, fee_estimated),
{
    let high_load: bool = network_load_bps >= SURGE_LOAD_BPS;
    let total_fee: i64 = if high_load {
        2 * (BASE_FEE + resource_fee)
    } else {
        BASE_FEE + resource_fee
    };
    FeeBreakdown {
        base_fee: BASE_FEE,
        resource_fee,
        total_fee,
        surge_multiplier: if high_load {
            200
        } else {
            100
        },
        high_load,
        would_succeed,
        fee_estimated,
    }
}

impl SorobanRpcClient {
    pub fn new(rpc_url: String, router_core_contract_id: Option<String>) -> (r: Self)
        ensures
            r.rpc_url == rpc_url,
            r.router_core_contract_id == router_core_contract_id,
    {
        SorobanRpcClient { rpc_url, router_core_contract_id }
    }

    /// The transaction that a simulation of `function` on `target` submits.
    pub fn simulate_transaction(target: &str, function: &str) -> (r: String)
        ensures
            r@ == "AAAAAgAAAAEAAAAA"@ + target@ + function@ + "AAAAAAAAAAA="@,
    {
        "AAAAAgAAAAEAAAAA".to_owned().concat(target).concat(function).concat("AAAAAAAAAAA=")
    }

    /// The transaction that asks `contract_id` for all routes.
    pub fn get_all_routes_transaction(contract_id: &str) -> (r: String)
        ensures
            r@ == "AAAAAgAAAAEAAAAA"@ + contract_id@ + "get_all_routesAAAAAAAAAAAA="@,
    {
        "AAAAAgAAAAEAAAAA".to_owned().concat(contract_id).concat("get_all_routesAAAAAAAAAAAA=")
    }

    /// The transaction that asks the configured contract for one route.
    ///
    /// # Errors
    /// * [`RpcError::NotConfigured`] if no contract is configured.
    pub fn get_route_transaction(&self, name: &str) -> (r: Result<String, RpcError>)
        ensures
            match (self.router_core_contract_id, r) {
                (Some(contract_id), Ok(transaction)) => transaction@ == "get_route:"@ + contract_id@
                    + ":"@ + name@,
                (None, Err(e)) => e == RpcError::NotConfigured,
                _ => false,
            },
    {
        match &self.router_core_contract_id {
            Some(contract_id) => Ok(
                "get_route:".to_owned().concat(contract_id.as_str()).concat(":").concat(name),
            ),
            None => Err(RpcError::NotConfigured),
        }
    }

    /// Whether the reply to a simulation is one that fees can be read from.
    pub open spec fn simulated(reply: Result<RpcReply<SimulateTransactionResult>, RpcError>) -> bool {
        reply matches Ok(reply) && reply.error is None && reply.result is Some
    }

    /// The fees of a transaction: what the simulation's reply reports, or a
    /// heuristic estimate where there is no usable reply.
    pub fn simulate(
        reply: Result<RpcReply<SimulateTransactionResult>, RpcError>,
        amount: i64,
        network_load_bps: u32,
    ) -> (r: FeeBreakdown)
        requires
            Self::simulated(reply) ==> fee_in_range(
                reported_fee(reply->Ok_0.result->0),
                network_load_bps,
            ),
        ensures
            r == if Self::simulated(reply) {
                let result = reply->Ok_0.result->0;
                breakdown_of(
                    reported_fee(result),
                    network_load_bps,
                    result.error is None,
                    false,
                )
            } else {
                breakdown_of(heuristic_fee(amount), network_load_bps, true, true)
            },
    {
        match reply {
            Ok(RpcReply { result: Some(result), error: None }) => {
                let resource_fee: i64 = match parse_i64(result.min_resource_fee.as_str()) {
                    Some(fee) => fee,
                    None => FALLBACK_RESOURCE_FEE,
                };
                breakdown(resource_fee, network_load_bps, result.error.is_none(), false)
            },
            _ => Self::heuristic_estimate(amount, network_load_bps),
        }
    }

    /// As [`SorobanRpcClient::simulate`], and none where the reported fee is too
    /// large or too small to compute with.
    pub fn try_simulate(
        reply: Result<RpcReply<SimulateTransactionResult>, RpcError>,
        amount: i64,
        network_load_bps: u32,
    ) -> (r: Option<FeeBreakdown>)
        ensures
            r == if Self::simulated(reply) {
                let result = reply->Ok_0.result->0;
                if fee_in_range(reported_fee(result), network_load_bps) {
                    Some(
                        breakdown_of(
                            reported_fee(result),
                            network_load_bps,
                            result.error is None,
                            false,
                        ),
                    )
                } else {
                    None
                }
            } else {
                Some(breakdown_of(heuristic_fee(amount), network_load_bps, true, true))
            },
    {
        match &reply {
            Ok(RpcReply { result: Some(result), error: None }) => {
                let resource_fee: i128 = match parse_i64(result.min_resource_fee.as_str()) {
                    Some(fee) => fee as i128,
                    None => FALLBACK_RESOURCE_FEE as i128,
                };
                let scale: i128 = if network_load_bps >= SURGE_LOAD_BPS {
                    200
                } else {
                    100
                };
                let scaled: i128 = if scale == 200 {
                    200 * (BASE_FEE as i128 + resource_fee)
                } else {
                    100 * (BASE_FEE as i128 + resource_fee)
                };
                if scaled < i64::MIN as i128 || scaled > i64::MAX as i128 {
                    return None;
                }
            },
            _ => {},
        }
        Some(Self::simulate(reply, amount, network_load_bps))
    }

    /// The fees of a transaction that was not simulated.
    pub fn heuristic_estimate(amount: i64, network_load_bps: u32) -> (r: FeeBreakdown)
        ensures
            r == breakdown_of(heuristic_fee(amount), network_load_bps, true, true),
    {
        let resource_fee: i64 = if amount < 100_000 {
            100
        } else {
            amount / 1_000
        };
        breakdown(resource_fee, network_load_bps, true, true)
    }
}

/// Under high load, and only then, exactly twice the plain fee is charged.
pub proof fn surge_doubles_the_fee(
    resource_fee: int,
    network_load_bps: u32,
    would_succeed: bool,
    fee_estimated: bool,
)
    requires
        fee_in_range(resource_fee, network_load_bps),
        i64::MIN <= resource_fee <= i64::MAX,
    ensures
        ({
            let fees = breakdown_of(resource_fee, network_load_bps, would_succeed, fee_estimated);
            &&& fees.high_load <==> network_load_bps >= SURGE_LOAD_BPS
            &&& fees.high_load ==> fees.total_fee == 2 * (fees.base_fee + fees.resource_fee)
            &&& !fees.high_load ==> fees.total_fee == fees.base_fee + fees.resource_fee
            &&& fees.surge_multiplier == if fees.high_load {
                200u32
            } else {
                100u32
            }
        }),
{
}

/// A heuristic estimate exists for every amount, is at least the base fee, and does not
/// go down as the amount goes up.
pub proof fn heuristic_covers_the_base_fee(amount: i64, more: i64, network_load_bps: u32)
    requires
        amount <= more,
    ensures
        fee_in_range(heuristic_fee(amount), network_load_bps),
        breakdown_of(heuristic_fee(amount), network_load_bps, true, true).total_fee >= BASE_FEE,
        breakdown_of(heuristic_fee(amount), network_load_bps, true, true).total_fee
            <= breakdown_of(heuristic_fee(more), network_load_bps, true, true).total_fee,
{
}

/// A route as the RPC node describes it.
pub struct RouteView {
    pub address: Seq<char>,
    pub name: Seq<char>,
    pub paused: bool,
    pub updated_by: Seq<char>,
    pub metadata: Option<MetadataView>,
}

/// The metadata of a route as the RPC node describes them.
pub struct MetadataView {
    pub description: Seq<char>,
    pub tags: Seq<Seq<char>>,
    pub owner: Seq<char>,
}

impl View for RouteMetadataResponse {
    type V = MetadataView;

    open spec fn view(&self) -> MetadataView {
        MetadataView {
            description: self.description@,
            tags: texts(self.tags@),
            owner: self.owner@,
        }
    }
}

impl View for RouteEntryResponse {
    type V = RouteView;

    open spec fn view(&self) -> RouteView {
        RouteView {
            address: self.address@,
            name: self.name@,
            paused: self.paused,
            updated_by: self.updated_by@,
            metadata: match self.metadata {
                Some(metadata) => Some(metadata@),
                None => None,
            },
        }
    }
}

/// The key of a map item: the symbol under `key`, empty where there is none.
pub open spec fn item_key(item: Json) -> Seq<char> {
    match item.field("key"@) {
        Some(key) => text_or_empty(key.field("sym"@)),
        None => ""@,
    }
}

/// The value of a map item, null where there is none.
pub open spec fn item_value(item: Json) -> Json {
    match item.field("val"@) {
        Some(value) => value,
        None => Json::Null,
    }
}

/// The text of a value, empty where it is missing or no text.
pub open spec fn text_or_empty(value: Option<Json>) -> Seq<char> {
    match value {
        Some(value) => match value.text() {
            Some(text) => text,
            None => ""@,
        },
        None => ""@,
    }
}

/// The text under `part` in the last item called `key`, empty where there is none.
pub open spec fn last_text(items: Seq<Json>, key: Seq<char>, part: Seq<char>) -> Seq<char>
    decreases items.len(),
{
    if items.len() == 0 {
        ""@
    } else if item_key(items.last()) == key {
        text_or_empty(item_value(items.last()).field(part))
    } else {
        last_text(items.drop_last(), key, part)
    }
}

/// The flag under `b` in the last item called `key`, unset where there is none.
pub open spec fn last_flag(items: Seq<Json>, key: Seq<char>) -> bool
    decreases items.len(),
{
    if items.len() == 0 {
        false
    } else if item_key(items.last()) == key {
        item_value(items.last()).field("b"@) == Some(Json::Bool(true))
    } else {
        last_flag(items.drop_last(), key)
    }
}

/// The array under `part` of a value.
pub open spec fn array_at(value: Json, part: Seq<char>) -> Option<Seq<Json>> {
    match value.field(part) {
        Some(value) => value.items(),
        None => None,
    }
}

/// The array under `part` in the last item called `key` that has one there.
pub open spec fn last_array(items: Seq<Json>, key: Seq<char>, part: Seq<char>) -> Option<Seq<Json>>
    decreases items.len(),
{
    if items.len() == 0 {
        None
    } else if item_key(items.last()) == key && array_at(item_value(items.last()), part) is Some {
        array_at(item_value(items.last()), part)
    } else {
        last_array(items.drop_last(), key, part)
    }
}

/// The texts under `str` of those items that have one there.
pub open spec fn strings_of(items: Seq<Json>) -> Seq<Seq<char>>
    decreases items.len(),
{
    if items.len() == 0 {
        seq![]
    } else {
        match items.last().field("str"@) {
            Some(value) => match value.text() {
                Some(text) => strings_of(items.drop_last()).push(text),
                None => strings_of(items.drop_last()),
            },
            None => strings_of(items.drop_last()),
        }
    }
}

/// The metadata that a map describes.
pub open spec fn metadata_of(items: Seq<Json>) -> MetadataView {
    MetadataView {
        description: last_text(items, "description"@, "str"@),
        tags: match last_array(items, "tags"@, "vec"@) {
            Some(tags) => strings_of(tags),
            None => seq![],
        },
        owner: last_text(items, "owner"@, "address"@),
    }
}

/// The route that a map describes; none where it names no address.
pub open spec fn entry_of(items: Seq<Json>) -> Option<RouteView> {
    let address = last_text(items, "address"@, "address"@);
    if address.len() == 0 {
        None
    } else {
        Some(
            RouteView {
                address,
                name: last_text(items, "name"@, "str"@),
                paused: last_flag(items, "paused"@),
                updated_by: last_text(items, "updated_by"@, "address"@),
                metadata: match last_array(items, "metadata"@, "map"@) {
                    Some(items) => Some(metadata_of(items)),
                    None => None,
                },
            },
        )
    }
}

/// The map that a simulation result returns: the one in the first of its results,
/// unless the result is an error.
pub open spec fn returned_map(result: Json) -> Option<Seq<Json>> {
    if result.field("error"@) is Some {
        None
    } else {
        match array_at(result, "results"@) {
            Some(results) => if results.len() > 0 {
                match results[0].field("xdr"@) {
                    Some(xdr) => array_at(xdr, "map"@),
                    None => None,
                }
            } else {
                None
            },
            None => None,
        }
    }
}

/// The route that a simulation result describes.
pub open spec fn route_of(result: Json) -> Option<RouteView> {
    match returned_map(result) {
        Some(items) => entry_of(items),
        None => None,
    }
}

/// The text of `value[part]`, empty where it is missing or no text.
fn text_at(value: Option<&Json>, part: &str) -> (r: String)
    ensures
        r@ == (match value {
            Some(value) => text_or_empty(value.field(part@)),
            None => ""@,
        }),
{
    match value {
        Some(value) => match value.get(part) {
            Some(found) => match found.as_str() {
                Some(text) => text.to_owned(),
                None => "".to_owned(),
            },
            None => "".to_owned(),
        },
        None => "".to_owned(),
    }
}

/// The array of `value[part]`.
fn array_in<'a>(value: &'a Json, part: &str) -> (r: Option<&'a Vec<Json>>)
    ensures
        match r {
            Some(items) => array_at(*value, part@) == Some(items@),
            None => array_at(*value, part@) is None,
        },
{
    match value.get(part) {
        Some(found) => found.as_array(),
        None => None,
    }
}

/// A value without members leaves every text empty.
proof fn lemma_no_value(part: Seq<char>)
    ensures
        text_or_empty(Json::Null.field(part)) == ""@,
        array_at(Json::Null, part) is None,
{
}

/// The texts under `str` of those items that have one there.
fn collect_strings(items: &Vec<Json>) -> (r: Vec<String>)
    ensures
        texts(r@) == strings_of(items@),
{
    let mut strings: Vec<String> = Vec::new();
    let mut i: usize = 0;
    proof {
        assert(texts(strings@) =~= strings_of(items@.take(0)));
    }
    while i < items.len()
        invariant
            i <= items@.len(),
            texts(strings@) == strings_of(items@.take(i as int)),
        decreases items@.len() - i,
    {
        proof {
            assert(items@.take(i + 1).drop_last() =~= items@.take(i as int));
        }
        match items[i].get("str") {
            Some(value) => match value.as_str() {
                Some(text) => {
                    let ghost before = strings@;
                    strings.push(text.to_owned());
                    proof {
                        assert(texts(strings@) =~= texts(before).push(text@));
                    }
                },
                None => {},
            },
            None => {},
        }
        i = i + 1;
    }
    proof {
        assert(items@.take(i as int) =~= items@);
    }
    strings
}

/// Reads the metadata that a map describes.
fn parse_metadata(items: &Vec<Json>) -> (r: RouteMetadataResponse)
    ensures
        r@ == metadata_of(items@),
{
    let mut description: String = "".to_owned();
    let mut tags: Vec<String> = Vec::new();
    let mut owner: String = "".to_owned();
    let mut i: usize = 0;
    proof {
        assert(texts(tags@) =~= Seq::<Seq<char>>::empty());
    }
    while i < items.len()
        invariant
            i <= items@.len(),
            description@ == last_text(items@.take(i as int), "description"@, "str"@),
            owner@ == last_text(items@.take(i as int), "owner"@, "address"@),
            texts(tags@) == metadata_of(items@.take(i as int)).tags,
        decreases items@.len() - i,
    {
        let item: &Json = &items[i];
        let key: String = text_at(item.get("key"), "sym");
        let value: Option<&Json> = item.get("val");
        proof {
            assert(items@.take(i + 1).drop_last() =~= items@.take(i as int));
            assert(items@.take(i + 1).last() == items@[i as int]);
            lemma_no_value("str"@);
            lemma_no_value("address"@);
            lemma_no_value("vec"@);
            lemma_metadata_keys_differ();
        }
        if same_text(key.as_str(), "description") {
            description = text_at(value, "str");
        } else if same_text(key.as_str(), "owner") {
            owner = text_at(value, "address");
        } else if same_text(key.as_str(), "tags") {
            match value {
                Some(value) => match array_in(value, "vec") {
                    Some(found) => {
                        tags = collect_strings(found);
                    },
                    None => {},
                },
                None => {},
            }
        }
        i = i + 1;
    }
    proof {
        assert(items@.take(i as int) =~= items@);
    }
    RouteMetadataResponse { description, tags, owner }
}

/// The keys of a metadata map are different texts.
proof fn lemma_metadata_keys_differ()
    ensures
        "description"@ != "owner"@,
        "description"@ != "tags"@,
        "owner"@ != "tags"@,
{
    reveal_strlit("description");
    reveal_strlit("owner");
    reveal_strlit("tags");
    assert("owner"@.len() == 5 && "tags"@.len() == 4);
}

/// The keys of a route map are different texts.
proof fn lemma_route_keys_differ()
    ensures
        "address"@ != "name"@,
        "address"@ != "paused"@,
        "address"@ != "updated_by"@,
        "address"@ != "metadata"@,
        "name"@ != "paused"@,
        "name"@ != "updated_by"@,
        "name"@ != "metadata"@,
        "paused"@ != "updated_by"@,
        "paused"@ != "metadata"@,
        "updated_by"@ != "metadata"@,
{
    reveal_strlit("address");
    reveal_strlit("name");
    reveal_strlit("paused");
    reveal_strlit("updated_by");
    reveal_strlit("metadata");
    assert("address"@.len() == 7 && "name"@.len() == 4 && "paused"@.len() == 6);
    assert("updated_by"@.len() == 10 && "metadata"@.len() == 8);
}

/// Reads the route that a map describes.
fn parse_entry(items: &Vec<Json>) -> (r: Option<RouteEntryResponse>)
    ensures
        match r {
            Some(entry) => entry_of(items@) == Some(entry@),
            None => entry_of(items@) is None,
        },
{
    let mut address: String = "".to_owned();
    let mut name: String = "".to_owned();
    let mut paused: bool = false;
    let mut updated_by: String = "".to_owned();
    let mut metadata: Option<RouteMetadataResponse> = None;
    let mut i: usize = 0;
    while i < items.len()
        invariant
            i <= items@.len(),
            address@ == last_text(items@.take(i as int), "address"@, "address"@),
            name@ == last_text(items@.take(i as int), "name"@, "str"@),
            paused == last_flag(items@.take(i as int), "paused"@),
            updated_by@ == last_text(items@.take(i as int), "updated_by"@, "address"@),
            match metadata {
                Some(metadata) => last_array(items@.take(i as int), "metadata"@, "map"@) is Some
                    && metadata@ == metadata_of(
                    last_array(items@.take(i as int), "metadata"@, "map"@)->0,
                ),
                None => last_array(items@.take(i as int), "metadata"@, "map"@) is None,
            },
        decreases items@.len() - i,
    {
        let item: &Json = &items[i];
        let key: String = text_at(item.get("key"), "sym");
        let value: Option<&Json> = item.get("val");
        proof {
            assert(items@.take(i + 1).drop_last() =~= items@.take(i as int));
            assert(items@.take(i + 1).last() == items@[i as int]);
            lemma_no_value("str"@);
            lemma_no_value("address"@);
            lemma_no_value("map"@);
            lemma_route_keys_differ();
        }
        if same_text(key.as_str(), "address") {
            address = text_at(value, "address");
        } else if same_text(key.as_str(), "name") {
            name = text_at(value, "str");
        } else if same_text(key.as_str(), "paused") {
            paused = match value {
                Some(value) => match value.get("b") {
                    Some(flag) => match flag.as_bool() {
                        Some(b) => b,
                        None => false,
                    },
                    None => false,
                },
                None => false,
            };
        } else if same_text(key.as_str(), "updated_by") {
            updated_by = text_at(value, "address");
        } else if same_text(key.as_str(), "metadata") {
            match value {
                Some(value) => match array_in(value, "map") {
                    Some(found) => {
                        metadata = Some(parse_metadata(found));
                    },
                    None => {},
                },
                None => {},
            }
        }
        i = i + 1;
    }
    proof {
        assert(items@.take(i as int) =~= items@);
        reveal_strlit("");
    }
    if address.as_str().is_empty() {
        return None;
    }
    Some(RouteEntryResponse { address, name, paused, updated_by, metadata })
}

impl SorobanRpcClient {
    /// Reads the route from the result of a `get_route` simulation; none where the
    /// result is an error or describes no route.
    pub fn parse_route_entry_from_rpc(result: &Json) -> (r: Option<RouteEntryResponse>)
        ensures
            match r {
                Some(entry) => route_of(*result) == Some(entry@),
                None => route_of(*result) is None,
            },
    {
        if result.get("error").is_some() {
            return None;
        }
        match array_in(result, "results") {
            Some(results) => {
                if results.len() == 0 {
                    return None;
                }
                match results[0].get("xdr") {
                    Some(xdr) => match array_in(xdr, "map") {
                        Some(items) => parse_entry(items),
                        None => None,
                    },
                    None => None,
                }
            },
            None => None,
        }
    }

    /// What the reply to a `get_route` request means: the route, or none where
    /// there is no such route.
    ///
    /// # Errors
    /// * The transport's error, if there is no reply.
    /// * [`RpcError::Rpc`] if the node refused the request.
    pub fn get_route(reply: Result<RpcReply<Json>, RpcError>) -> (r: Result<
        Option<RouteEntryResponse>,
        RpcError,
    >)
        ensures
            match (reply, r) {
                (Err(expected), Err(e)) => e == expected,
                (Ok(reply), Err(e)) => reply.error is Some && e == RpcError::Rpc(reply.error->0),
                (Ok(reply), Ok(route)) => reply.error is None && (match (reply.result, route) {
                    (Some(result), Some(entry)) => route_of(result) == Some(entry@),
                    (Some(result), None) => route_of(result) is None,
                    (None, None) => true,
                    (None, Some(_)) => false,
                }),
                (Err(_), Ok(_)) => false,
            },
    {
        match reply {
            Err(e) => Err(e),
            Ok(reply) => match reply.error {
                Some(message) => Err(RpcError::Rpc(message)),
                None => match reply.result {
                    Some(result) => Ok(Self::parse_route_entry_from_rpc(&result)),
                    None => Ok(None),
                },
            },
        }
    }
}

/// The route names that a returned value holds, none of them where it is anything
/// but a list of strings.
pub open spec fn names_in(xdr: Seq<char>) -> Seq<Seq<char>> {
    match base64_of(xdr) {
        Some(bytes) => match string_vec_of(bytes) {
            Some(names) => names,
            None => seq![],
        },
        None => seq![],
    }
}

impl SorobanRpcClient {
    /// What the reply to a `get_all_routes` request means: the route names in the
    /// first of the returned values.
    ///
    /// # Errors
    /// * The transport's error, if there is no reply.
    /// * [`RpcError::Rpc`] if the node refused the request.
    /// * [`RpcError::EmptyResult`] if the reply holds no result.
    /// * [`RpcError::Contract`] if the contract failed.
    pub fn get_all_routes(reply: Result<RpcReply<InvocationResult>, RpcError>) -> (r: Result<
        Vec<String>,
        RpcError,
    >)
        ensures
            match (reply, r) {
                (Err(expected), Err(e)) => e == expected,
                (Err(_), Ok(_)) => false,
                (Ok(reply), r) => match (reply.error, reply.result) {
                    (Some(message), _) => r == Err::<Vec<String>, _>(RpcError::Rpc(message)),
                    (None, None) => r == Err::<Vec<String>, _>(RpcError::EmptyResult),
                    (None, Some(result)) => match (result.error, r) {
                        (Some(message), Err(e)) => e == RpcError::Contract(message),
                        (None, Ok(names)) => texts(names@) == if result.results@.len() > 0 {
                            names_in(result.results@[0]@)
                        } else {
                            seq![]
                        },
                        _ => false,
                    },
                },
            },
    {
        let reply: RpcReply<InvocationResult> = match reply {
            Ok(reply) => reply,
            Err(e) => {
                return Err(e);
            },
        };
        match reply.error {
            Some(message) => {
                return Err(RpcError::Rpc(message));
            },
            None => {},
        }
        let result: InvocationResult = match reply.result {
            Some(result) => result,
            None => {
                return Err(RpcError::EmptyResult);
            },
        };
        match result.error {
            Some(message) => {
                return Err(RpcError::Contract(message));
            },
            None => {},
        }
        let none: Vec<String> = Vec::new();
        proof {
            assert(texts(none@) =~= Seq::<Seq<char>>::empty());
        }
        if result.results.len() == 0 {
            return Ok(none);
        }
        match decode_string_vec_xdr(result.results[0].as_str()) {
            Some(names) => Ok(names),
            None => Ok(none),
        }
    }
}

} // verus!
