//! What holds of what the API answers: rate limits, fees, requests, origins and subscribers.

use super::cors::{header_origins, is_header_text};
use super::handlers::{code_of, is_simulation, reports, request_fault};
use super::rate_limit::{
    counted, is_answered, is_reply, left, wait_secs, RateLimitConfig, RateLimitReply,
};
use super::rpc::{
    breakdown_of, fee_in_range, heuristic_fee, reported_fee, FeeBreakdown, RpcError, RpcReply,
    SimulateTransactionResult, SorobanRpcClient,
};
use super::state::{with_subscriber, without_subscriber};
use super::types::{ErrorCode, ErrorResponse, SimulateRequest, SimulateResponse};
use super::websocket::without_subscribers;
use crate::text::decimal_of;
use crate::text_laws::decimal_reads_back;
use vstd::prelude::*;
use vstd::utf8::encode_utf8;

verus! {

/// Whether the window that a client's first request opened still lasts.
pub open spec fn lasts(
    config: RateLimitConfig,
    buckets: Map<Seq<char>, (u32, u128)>,
    key: Seq<char>,
    now: u128,
) -> bool {
    buckets.contains_key(key) && config.window_nanos > 0 && now < buckets[key].1
        + config.window_nanos
}

/// A request within a window that lasts is one more; any other is the first of a window that
/// begins with it.
pub proof fn requests_are_counted_by_window(
    config: RateLimitConfig,
    buckets: Map<Seq<char>, (u32, u128)>,
    key: Seq<char>,
    now: u128,
)
    ensures
        !lasts(config, buckets, key, now) ==> counted(config, buckets, key, now) == (1u32, now),
        lasts(config, buckets, key, now) && buckets[key].0 < u32::MAX ==> counted(
            config,
            buckets,
            key,
            now,
        ) == ((buckets[key].0 + 1) as u32, buckets[key].1),
        lasts(config, buckets, key, now) && buckets[key].0 == u32::MAX ==> counted(
            config,
            buckets,
            key,
            now,
        ) == buckets[key],
{
}

/// What a client has left is the limit less what was counted in a window that lasts, down to
/// nothing, and the whole limit otherwise.
pub proof fn what_is_left_is_not_used(
    config: RateLimitConfig,
    buckets: Map<Seq<char>, (u32, u128)>,
    key: Seq<char>,
    now: u128,
)
    ensures
        !lasts(config, buckets, key, now) ==> left(config, buckets, key, now)
            == config.max_requests,
        lasts(config, buckets, key, now) && buckets[key].0 <= config.max_requests ==> left(
            config,
            buckets,
            key,
            now,
        ) + buckets[key].0 == config.max_requests,
        lasts(config, buckets, key, now) && buckets[key].0 > config.max_requests ==> left(
            config,
            buckets,
            key,
            now,
        ) == 0,
{
}

/// The time to wait is what a window that lasts has left, in full seconds and at least one: no
/// more than is left, unless that is less than a second, and less than a second short of it.
/// Otherwise it is one second.
pub proof fn waiting_lasts_as_long_as_the_window(
    config: RateLimitConfig,
    buckets: Map<Seq<char>, (u32, u128)>,
    key: Seq<char>,
    now: u128,
)
    ensures
        wait_secs(config, buckets, key, now) >= 1,
        !lasts(config, buckets, key, now) ==> wait_secs(config, buckets, key, now) == 1,
        lasts(config, buckets, key, now) ==> {
            let left = if now >= buckets[key].1 {
                buckets[key].1 + config.window_nanos - now
            } else {
                config.window_nanos as int
            };
            let secs = wait_secs(config, buckets, key, now);
            &&& secs > 1 ==> secs * 1_000_000_000 <= left
            &&& secs < u64::MAX ==> left < (secs + 1) * 1_000_000_000
        },
{
}

/// A request is let through exactly if its count is within the limit, and is told the limit and
/// what is left; one that is not is told the seconds to wait.
pub proof fn replies_follow_the_count(
    config: RateLimitConfig,
    before: Map<Seq<char>, (u32, u128)>,
    key: Seq<char>,
    now: u128,
    later: u128,
    latest: u128,
    after: Map<Seq<char>, (u32, u128)>,
    reply: RateLimitReply,
    other: Seq<char>,
)
    requires
        is_answered(config, before, key, now, later, latest, after, reply),
    ensures
        ({
            let count = if lasts(config, before, key, now) {
                before[key].0 + 1
            } else {
                1
            };
            count <= u32::MAX ==> (reply is Allowed <==> count <= config.max_requests)
        }),
        reply matches RateLimitReply::Allowed { limit, remaining } ==> limit == config.max_requests
            && remaining == left(config, after, key, later),
        reply matches RateLimitReply::Rejected { retry_after_secs, .. } ==> retry_after_secs
            == wait_secs(config, after, key, latest),
        other != key ==> after.contains_key(other) == before.contains_key(other),
        other != key && before.contains_key(other) ==> after[other] == before[other],
{
}

/// What an answer says depends on nothing but whether the request is allowed.
pub proof fn answers_say_what_was_decided(
    limit: u32,
    allowed: bool,
    remaining: u32,
    retry_after: u64,
    reply: RateLimitReply,
)
    requires
        is_reply(limit, allowed, remaining, retry_after, reply),
    ensures
        reply is Allowed <==> allowed,
        allowed ==> reply == (RateLimitReply::Allowed { limit, remaining }),
        !allowed ==> (reply matches RateLimitReply::Rejected { message, retry_after_secs }
            && retry_after_secs == retry_after && message@ == "Too many requests. Retry after "@
            + decimal_of(retry_after as nat) + " second(s)."@),
{
}

/// Fees are a base fee of 100 and the resource fee; from a load of 8000 on both are charged twice,
/// and a multiplier of 200 in place of 100 says so.
pub proof fn fees_add_up(
    resource_fee: i64,
    network_load_bps: u32,
    would_succeed: bool,
    fee_estimated: bool,
)
    requires
        -10_000_000_000_000_000 <= resource_fee <= 10_000_000_000_000_000,
    ensures
        ({
            let fees = breakdown_of(
                resource_fee as int,
                network_load_bps,
                would_succeed,
                fee_estimated,
            );
            &&& fees.base_fee == 100
            &&& fees.resource_fee == resource_fee
            &&& network_load_bps < 8000 ==> fees.total_fee == 100 + resource_fee && !fees.high_load
                && fees.surge_multiplier == 100
            &&& network_load_bps >= 8000 ==> fees.total_fee == 200 + 2 * resource_fee
                && fees.high_load && fees.surge_multiplier == 200
            &&& fees.would_succeed == would_succeed
            &&& fees.fee_estimated == fee_estimated
            &&& fee_in_range(resource_fee as int, network_load_bps)
        }),
{
}

/// Fees can be computed exactly if they fit 64 bits as they are multiplied out, in hundredths.
pub proof fn fees_fit_in_hundredths(resource_fee: int, network_load_bps: u32)
    ensures
        fee_in_range(resource_fee, network_load_bps) <==> {
            let percent = if network_load_bps >= 8000 {
                200int
            } else {
                100
            };
            -0x8000_0000_0000_0000 <= percent * (100 + resource_fee) && percent * (100
                + resource_fee) <= 0x7fff_ffff_ffff_ffff
        },
{
}

/// Without a simulation the resource fee is the larger of 100 and a thousandth of the amount,
/// rounded down, for every amount.
pub proof fn heuristic_is_a_thousandth(amount: i64)
    ensures
        heuristic_fee(amount) >= 100,
        heuristic_fee(amount) == 100 || 1000 * heuristic_fee(amount) <= amount,
        1000 * heuristic_fee(amount) > amount - 1000,
{
}

/// The resource fee of a simulation is the number that it reports, whatever its size; 1000 where
/// it reports none.
pub proof fn simulations_report_their_fee(result: SimulateTransactionResult, n: nat)
    ensures
        result.min_resource_fee@ == decimal_of(n) && n <= i64::MAX ==> reported_fee(result) == n,
        result.min_resource_fee@ == decimal_of(n) && n > i64::MAX ==> reported_fee(result) == 1000,
        crate::text::i64_of(result.min_resource_fee@) is None ==> reported_fee(result) == 1000,
{
    decimal_reads_back(n);
}

/// Fees are read from a reply exactly if it came, is no error and holds a result.
pub proof fn only_results_are_read(reply: Result<RpcReply<SimulateTransactionResult>, RpcError>)
    ensures
        SorobanRpcClient::simulated(reply) <==> reply is Ok && reply->Ok_0.error is None
            && reply->Ok_0.result is Some,
{
}

/// A simulation request is accepted exactly if it names a function and a target of 56 bytes that
/// begins with `C`.
pub proof fn acceptable_requests(req: SimulateRequest)
    ensures
        request_fault(req) is None <==> req.function@.len() >= 1 && req.target@.len() >= 1
            && encode_utf8(req.target@).len() == 56 && req.target@[0] == 'C',
        req.function@.len() == 0 || req.target@.len() == 0 ==> request_fault(req) == Some(
            ("target and function are required"@, None::<Seq<char>>),
        ),
        req.function@.len() >= 1 && req.target@.len() >= 1 && (encode_utf8(req.target@).len() != 56
            || req.target@[0] != 'C') ==> request_fault(req) == Some(
            (
                "target must be a 56-character Stellar contract ID starting with C"@,
                Some("target"@),
            ),
        ),
{
}

/// The answer to a simulation request carries what was asked for and every part of the fees.
pub proof fn simulations_are_answered_in_full(
    req: SimulateRequest,
    fees: FeeBreakdown,
    response: SimulateResponse,
)
    requires
        is_simulation(req, fees, response),
    ensures
        response.success == fees.would_succeed,
        response.simulation.would_succeed == fees.would_succeed,
        response.simulation.target == req.target && response.simulation.function == req.function,
        response.estimated_fees.base_fee == fees.base_fee,
        response.estimated_fees.resource_fee == fees.resource_fee,
        response.estimated_fees.total_fee == fees.total_fee,
        response.estimated_fees.surge_multiplier == fees.surge_multiplier,
        response.estimated_fees.high_load == fees.high_load,
        response.estimated_fees.fee_estimated == fees.fee_estimated,
        fees.would_succeed ==> response.message@ == "Simulation successful"@,
        !fees.would_succeed ==> response.message@ == "Simulation indicates transaction would fail"@,
{
}

/// An error is reported with its code, its message and the field it is about, if there is one.
pub proof fn errors_are_reported_in_full(
    response: ErrorResponse,
    code: ErrorCode,
    message: Seq<char>,
    field: Option<Seq<char>>,
)
    ensures
        reports(response, code, message, field) <==> response.error.code == code
            && response.error.message@ == message && (response.error.field is Some <==> field is Some)
            && (field is Some ==> response.error.field->0@ == field->0),
{
}

/// A missing setting is an error of the server, a refusal of the contract one of the contract, and
/// every other failure one of the node.
pub proof fn errors_have_their_kind(error: RpcError)
    ensures
        code_of(error) == ErrorCode::InternalError <==> error == RpcError::NotConfigured,
        code_of(error) == ErrorCode::ContractError <==> error is Contract,
        error is Transport || error is Rpc || error is EmptyResult ==> code_of(error)
            == ErrorCode::RpcError,
{
}

/// Of the origins exactly those are allowed, in order, that can stand in a header: every byte is a
/// tab or a visible character, of whatever language.
pub proof fn origins_are_those_of_headers(a: Seq<String>, b: Seq<String>, one: String)
    ensures
        header_origins(a + b) == header_origins(a) + header_origins(b),
        header_origins(seq![one]) == if forall|i: int|
            0 <= i < encode_utf8(one@).len() ==> {
                let byte = #[trigger] encode_utf8(one@)[i];
                byte == 9 || 32 <= byte <= 126 || byte >= 128
            } {
            seq![one]
        } else {
            Seq::<String>::empty()
        },
        header_origins(seq![]) == Seq::<String>::empty(),
    decreases b.len(),
{
    let single = seq![one];
    assert(single.drop_last() =~= Seq::<String>::empty());
    assert(header_origins(single.drop_last()) =~= Seq::<String>::empty());
    assert(header_origins(single) =~= if is_header_text(one@) {
        single
    } else {
        Seq::<String>::empty()
    });
    assert(is_header_text(one@) == forall|i: int|
        0 <= i < encode_utf8(one@).len() ==> {
            let byte = #[trigger] encode_utf8(one@)[i];
            byte == 9 || 32 <= byte <= 126 || byte >= 128
        });
    if b.len() == 0 {
        assert(a + b =~= a);
        assert(header_origins(a) + header_origins(b) =~= header_origins(a));
    } else {
        origins_are_those_of_headers(a, b.drop_last(), one);
        assert((a + b).drop_last() =~= a + b.drop_last());
        assert((a + b).last() == b.last());
        assert(header_origins(a + b) =~= header_origins(a) + header_origins(b));
    }
}

/// A subscriber more is one more, and one less is one less; a transaction is listed exactly while
/// it has subscribers.
pub proof fn subscribers_are_counted(counts: Map<Seq<char>, usize>, key: Seq<char>)
    ensures
        ({
            let count = if counts.contains_key(key) {
                counts[key]
            } else {
                0
            };
            let more = with_subscriber(counts, key);
            let fewer = without_subscriber(counts, key);
            &&& count < usize::MAX ==> more.contains_key(key) && more[key] == count + 1
            &&& count >= 2 ==> fewer.contains_key(key) && fewer[key] == count - 1
            &&& count <= 1 ==> !fewer.contains_key(key)
        }),
{
}

/// A connection that ends takes one subscriber from each of its transactions, and none from
/// another.
pub proof fn closing_takes_one_subscriber_each(
    counts: Map<Seq<char>, usize>,
    keys: Set<Seq<char>>,
    key: Seq<char>,
)
    ensures
        ({
            let after = without_subscribers(counts, keys);
            &&& !keys.contains(key) ==> after.contains_key(key) == counts.contains_key(key)
            &&& !keys.contains(key) && counts.contains_key(key) ==> after[key] == counts[key]
            &&& keys.contains(key) && counts.contains_key(key) && counts[key] >= 2
                ==> after.contains_key(key) && after[key] == counts[key] - 1
            &&& keys.contains(key) && (!counts.contains_key(key) || counts[key] <= 1)
                ==> !after.contains_key(key)
        }),
{
}

} // verus!
