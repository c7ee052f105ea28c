//! What holds of quotes: the fee that is taken, what is paid out, and which quote is best.

use crate::quote::{
    is_first_best, quote_event, quotes_all_or_nothing, QuoteError, QuoteEvent, QuoteRequest,
    QuoteResponse, RouterQuote,
};
use vstd::prelude::*;

verus! {

/// The fee of a route is the one that was set for it; where none was, the default fee, which is
/// 100 basis points until another is set.
pub proof fn routes_have_their_own_fee_or_the_default(state: RouterQuote, route: Seq<char>)
    ensures
        state.route_fees@.contains_key(route) ==> state.fee_bps(route) == state.route_fees@[route],
        !state.route_fees@.contains_key(route) && state.default_fee is Some ==> state.fee_bps(route)
            == state.default_fee->0,
        !state.route_fees@.contains_key(route) && state.default_fee is None ==> state.fee_bps(route)
            == 100,
        state.default_fee_bps() == if state.default_fee is Some {
            state.default_fee->0
        } else {
            100
        },
{
}

/// The fee of a quote is the fee that is configured for its route, or the default where it has
/// none, whatever the amount; the fee amount is the amount times that fee over 10000, rounded
/// down, and the rest is paid out. The quote is for what was asked.
pub proof fn quote_takes_the_configured_fee(state: RouterQuote, request: QuoteRequest)
    ensures
        state.quote(request) matches Ok(response) ==> {
            &&& state.route_fees@.contains_key(request.route@) ==> response.fee_bps
                == state.route_fees@[request.route@]
            &&& !state.route_fees@.contains_key(request.route@) && state.default_fee is Some
                ==> response.fee_bps == state.default_fee->0
            &&& !state.route_fees@.contains_key(request.route@) && state.default_fee is None
                ==> response.fee_bps == 100
            &&& 10000 * response.fee_amount <= request.amount_in * response.fee_bps < 10000
                * response.fee_amount + 10000
            &&& state.wf() ==> response.amount_out == request.amount_in - response.fee_amount
            &&& response.route == request.route
            &&& response.token_in == request.token_in
            &&& response.token_out == request.token_out
            &&& response.amount_in == request.amount_in
        },
{
    if state.quote(request) is Ok {
        lemma_quote_in_range(state, request);
    }
}

/// Amounts and fees of a quote fit their types.
proof fn lemma_quote_in_range(state: RouterQuote, request: QuoteRequest)
    requires
        state.quote(request) is Ok,
    ensures
        ({
            let scaled = request.amount_in * state.fee_bps(request.route@);
            &&& 0 <= scaled <= i128::MAX
            &&& 0 <= scaled / 10000 <= scaled
            &&& state.wf() ==> scaled / 10000 <= request.amount_in
        }),
{
    let fee_bps = state.fee_bps(request.route@);
    let scaled = request.amount_in * fee_bps;
    assert(0 <= scaled) by (nonlinear_arith)
        requires
            scaled == request.amount_in * fee_bps,
            request.amount_in > 0,
            0 <= fee_bps,
    ;
    if state.wf() {
        assert(scaled <= request.amount_in * 10000) by (nonlinear_arith)
            requires
                scaled == request.amount_in * fee_bps,
                request.amount_in > 0,
                0 <= fee_bps <= 10000,
        ;
    }
}

/// A request is quoted exactly if its amount is positive and the amount times the route's fee
/// fits 128 bits; otherwise the answer says which of the two fails.
pub proof fn positive_amounts_are_quoted(state: RouterQuote, request: QuoteRequest, fee: u32)
    requires
        fee == (if state.route_fees@.contains_key(request.route@) {
            state.route_fees@[request.route@]
        } else if state.default_fee is Some {
            state.default_fee->0
        } else {
            100
        }),
    ensures
        state.quote(request) is Ok <==> request.amount_in > 0 && request.amount_in * fee
            <= i128::MAX,
        state.quote(request) == Err::<QuoteResponse, _>(QuoteError::InvalidAmount)
            <==> request.amount_in <= 0,
        state.quote(request) == Err::<QuoteResponse, _>(QuoteError::ArithmeticOverflow)
            <==> request.amount_in > 0 && request.amount_in * fee > i128::MAX,
{
}

/// What two requests for the same route are charged differs only as their amounts do: the
/// rate is the same, and the larger amount pays no smaller fee.
pub proof fn same_route_same_rate(state: RouterQuote, small: QuoteRequest, large: QuoteRequest)
    requires
        small.route@ == large.route@,
        small.amount_in <= large.amount_in,
        state.quote(small) is Ok,
        state.quote(large) is Ok,
    ensures
        state.quote(small)->Ok_0.fee_bps == state.quote(large)->Ok_0.fee_bps,
        state.quote(small)->Ok_0.fee_amount <= state.quote(large)->Ok_0.fee_amount,
{
    let fee = state.fee_bps(small.route@);
    lemma_quote_in_range(state, small);
    lemma_quote_in_range(state, large);
    let (a, b) = (small.amount_in * fee, large.amount_in * fee);
    assert(a <= b) by (nonlinear_arith)
        requires
            a == small.amount_in * fee,
            b == large.amount_in * fee,
            small.amount_in <= large.amount_in,
            0 <= fee,
    ;
    assert(a / 10000 <= b / 10000);
}

/// A route without a fee pays out all that comes in, one with a fee of 10000 nothing.
pub proof fn extreme_fees(state: RouterQuote, request: QuoteRequest)
    requires
        state.quote(request) is Ok,
    ensures
        state.fee_bps(request.route@) == 0 ==> state.quote(request)->Ok_0.amount_out
            == request.amount_in,
        state.fee_bps(request.route@) == 10000 ==> state.quote(request)->Ok_0.amount_out == 0,
{
    let fee_bps = state.fee_bps(request.route@);
    if fee_bps == 0 {
        assert(request.amount_in * fee_bps == 0) by (nonlinear_arith)
            requires
                fee_bps == 0,
        ;
    }
    if fee_bps == 10000 {
        assert(request.amount_in * fee_bps == request.amount_in * 10000);
    }
}

/// A list of requests fails as the first of them that fails: all before it are quoted, and the
/// error is its own; only an empty list has an error of its own.
pub proof fn list_fails_as_its_first_failure(state: RouterQuote, requests: Seq<QuoteRequest>, k: int)
    ensures
        requests.len() == 0 <==> state.quotes(requests) == Err::<Seq<QuoteResponse>, _>(
            QuoteError::NoQuotesProvided,
        ),
        0 <= k < requests.len() && state.quote(requests[k]) is Err && (forall|j: int|
            0 <= j < k ==> state.quote(#[trigger] requests[j]) is Ok) ==> state.quotes(requests)
            == Err::<Seq<QuoteResponse>, _>(state.quote(requests[k])->Err_0),
{
    lemma_first_failure(state, requests, requests.len(), k);
    lemma_failure_kinds(state, requests, requests.len());
}

proof fn lemma_first_failure(state: RouterQuote, requests: Seq<QuoteRequest>, n: nat, k: int)
    ensures
        0 <= k < n <= requests.len() && state.quote(requests[k]) is Err && (forall|j: int|
            0 <= j < k ==> state.quote(#[trigger] requests[j]) is Ok) ==> state.first_error(
            requests,
            n,
        ) == Some(state.quote(requests[k])->Err_0),
        n <= requests.len() && (forall|j: int|
            0 <= j < n ==> state.quote(#[trigger] requests[j]) is Ok) ==> state.first_error(
            requests,
            n,
        ) is None,
    decreases n,
{
    if n > 0 {
        lemma_first_failure(state, requests, (n - 1) as nat, k);
        if n <= requests.len() {
            assert(state.quote(requests[n - 1]) is Ok || state.quote(requests[n - 1]) is Err);
        }
    }
}

proof fn lemma_failure_kinds(state: RouterQuote, requests: Seq<QuoteRequest>, n: nat)
    ensures
        state.first_error(requests, n) matches Some(e) ==> e == QuoteError::InvalidAmount || e
            == QuoteError::ArithmeticOverflow,
    decreases n,
{
    if n > 0 {
        lemma_failure_kinds(state, requests, (n - 1) as nat);
    }
}

/// The best quote is one of those of the requests; no other pays out more, and every one
/// before it less.
pub proof fn best_quote_pays_out_most(
    state: RouterQuote,
    requests: Seq<QuoteRequest>,
    best: QuoteResponse,
    k: int,
)
    requires
        state.quotes(requests) is Ok,
        is_first_best(state.quotes(requests)->Ok_0, best),
        0 <= k < requests.len(),
    ensures
        exists|i: int|
            {
                &&& 0 <= i < requests.len()
                &&& state.quote(#[trigger] requests[i]) == Ok::<_, QuoteError>(best)
                &&& state.quote(requests[k])->Ok_0.amount_out <= best.amount_out
                &&& k < i ==> state.quote(requests[k])->Ok_0.amount_out < best.amount_out
            },
{
    quotes_all_or_nothing(state, requests);
    let all = state.quotes(requests)->Ok_0;
    let i = choose|i: int|
        {
            &&& 0 <= i < all.len()
            &&& #[trigger] all[i] == best
            &&& forall|j: int| 0 <= j < all.len() ==> (#[trigger] all[j]).amount_out
                <= best.amount_out
            &&& forall|j: int| 0 <= j < i ==> (#[trigger] all[j]).amount_out < best.amount_out
        };
    assert(state.quote(requests[i]) == Ok::<_, QuoteError>(all[i]));
    assert(state.quote(requests[k]) == Ok::<_, QuoteError>(all[k]));
}

/// A quote is published with its route, what is paid out and what is taken.
pub proof fn quotes_are_published(response: QuoteResponse)
    ensures
        quote_event(response) matches QuoteEvent::QuoteCalculated { route, amount_out, fee_amount }
            && route == response.route && amount_out == response.amount_out && fee_amount
            == response.fee_amount,
{
}

/// Two states have the same settings exactly if they differ in nothing but what was published;
/// every fee that is set is at most 10000 basis points, and none is set twice.
pub proof fn settings_are_fees_and_admin(a: RouterQuote, b: RouterQuote)
    ensures
        a.same_settings(b) <==> a == (RouterQuote { events: a.events, ..b }),
        a.wf() <==> {
            &&& a.route_fees.key_seq().no_duplicates()
            &&& a.default_fee is Some ==> a.default_fee->0 <= 10_000
            &&& forall|route: Seq<char>| #[trigger]
                a.route_fees@.contains_key(route) ==> a.route_fees@[route] <= 10_000
        },
{
}

} // verus!
