//! What holds of the ranking of routes, of the route that is chosen, and of what names
//! resolve to.

use super::scoring::{
    best_events, best_name, best_position, composite, is_best_at, lemma_best_position, lemma_some_best,
};
use super::types::{
    BatchResolveResult, ResolveError, RouteEntry, RouteScore, RouterCore, RouterError, RouterEvent,
};
use crate::common::Address;
use vstd::prelude::*;

verus! {

/// The score by which routes are ranked rises with liquidity and reliability, point for
/// point, and falls by one for every full ten basis points of the fee, however high the fee
/// is: it is within a point of liquidity plus reliability less a tenth of the fee.
pub proof fn score_falls_by_a_tenth_of_the_fee(a: RouteScore, b: RouteScore)
    ensures
        a.fee_bps < 10 ==> composite(a) == a.liquidity_score + a.reliability_score,
        b.fee_bps == a.fee_bps + 10 && b.liquidity_score == a.liquidity_score
            && b.reliability_score == a.reliability_score ==> composite(b) == composite(a) - 1,
        a.fee_bps == b.fee_bps ==> composite(b) - composite(a) == (b.liquidity_score
            - a.liquidity_score) + (b.reliability_score - a.reliability_score),
        10 * (a.liquidity_score + a.reliability_score) - a.fee_bps <= 10 * composite(a) < 10 * (
        a.liquidity_score + a.reliability_score) - a.fee_bps + 10,
{
}

/// Of two routes that are alike but for their fee, the one with the higher fee never ranks
/// above the other, and ranks below it once the fees are ten basis points apart.
pub proof fn higher_fee_never_ranks_above(a: RouteScore, b: RouteScore)
    requires
        a.liquidity_score == b.liquidity_score,
        a.reliability_score == b.reliability_score,
        a.fee_bps <= b.fee_bps,
    ensures
        composite(b) <= composite(a),
        b.fee_bps - a.fee_bps >= 10 ==> composite(b) < composite(a),
        composite(a) - composite(b) <= (b.fee_bps - a.fee_bps + 9) / 10,
{
}

/// The candidate that is chosen is a registered, scored route that is neither paused nor
/// expired, and no other such candidate has more liquidity plus reliability less a tenth of
/// the fee; an earlier one has less.
pub proof fn chosen_candidate_outranks_all(
    core: RouterCore,
    candidates: Seq<String>,
    sequence: u32,
    i: int,
    j: int,
)
    requires
        best_position(core, candidates, sequence) == Some(i),
        0 <= j < candidates.len(),
    ensures
        0 <= i < candidates.len(),
        core.routes@.contains_key(candidates[i]@),
        !core.routes@[candidates[i]@].paused,
        core.routes@[candidates[i]@].expires_at matches Some(last) ==> sequence <= last,
        core.scores@.contains_key(candidates[i]@),
        core.routes@.contains_key(candidates[j]@) && !core.routes@[candidates[j]@].paused && (
        core.routes@[candidates[j]@].expires_at matches Some(last) ==> sequence <= last)
            && core.scores@.contains_key(candidates[j]@) ==> {
            let (a, b) = (core.scores@[candidates[i]@], core.scores@[candidates[j]@]);
            let rank_a = a.liquidity_score + a.reliability_score - a.fee_bps as int / 10;
            let rank_b = b.liquidity_score + b.reliability_score - b.fee_bps as int / 10;
            rank_b <= rank_a && (j < i ==> rank_b < rank_a)
        },
{
    lemma_some_best(core, candidates, sequence);
    assert(is_best_at(core, candidates, i, sequence));
    assert(candidates[j] == candidates[j]);
}

/// One is chosen exactly where one of the candidates is a registered, scored route that is
/// neither paused nor expired.
pub proof fn some_candidate_is_chosen(core: RouterCore, candidates: Seq<String>, sequence: u32)
    ensures
        best_position(core, candidates, sequence) is Some <==> exists|j: int|
            {
                &&& 0 <= j < candidates.len()
                &&& core.routes@.contains_key((#[trigger] candidates[j])@)
                &&& !core.routes@[candidates[j]@].paused
                &&& (core.routes@[candidates[j]@].expires_at matches Some(last) ==> sequence
                    <= last)
                &&& core.scores@.contains_key(candidates[j]@)
            },
{
    match best_position(core, candidates, sequence) {
        Some(i) => {
            lemma_some_best(core, candidates, sequence);
            assert(is_best_at(core, candidates, i, sequence));
            assert(core.routes@.contains_key(candidates[i]@));
        },
        None => {},
    }
}

/// A candidate that outranks all others is chosen: whatever is said of the one that is
/// chosen picks out one candidate.
pub proof fn highest_candidate_is_chosen(
    core: RouterCore,
    candidates: Seq<String>,
    sequence: u32,
    i: int,
)
    requires
        0 <= i < candidates.len(),
        core.routes@.contains_key(candidates[i]@),
        !core.routes@[candidates[i]@].paused,
        core.routes@[candidates[i]@].expires_at matches Some(last) ==> sequence <= last,
        core.scores@.contains_key(candidates[i]@),
        forall|j: int|
            0 <= j < candidates.len() && j != i && core.scores@.contains_key(
                (#[trigger] candidates[j])@,
            ) ==> {
                let (a, b) = (core.scores@[candidates[i]@], core.scores@[candidates[j]@]);
                b.liquidity_score + b.reliability_score - b.fee_bps as int / 10 < a.liquidity_score
                    + a.reliability_score - a.fee_bps as int / 10
            },
    ensures
        best_position(core, candidates, sequence) == Some(i),
{
    assert(is_best_at(core, candidates, i, sequence));
    lemma_best_position(core, candidates, i, sequence);
}

/// A minimum score leaves the choice alone where the chosen candidate reaches it, and leaves
/// no choice where it does not: a lower-ranked candidate is never taken in its place.
pub proof fn minimum_score_only_refuses(
    core: RouterCore,
    candidates: Seq<String>,
    min_score: int,
    sequence: u32,
)
    ensures
        match best_position(core, candidates, sequence) {
            None => core.winner(candidates, min_score, sequence) is None,
            Some(i) => {
                let score = core.scores@[candidates[i]@];
                core.winner(candidates, min_score, sequence) == if score.liquidity_score
                    + score.reliability_score - score.fee_bps as int / 10 >= min_score {
                    Some(i)
                } else {
                    None::<int>
                }
            },
        },
        forall|lower: int|
            lower <= min_score && core.winner(candidates, min_score, sequence) is Some
                ==> #[trigger] core.winner(candidates, lower, sequence) == core.winner(
                candidates,
                min_score,
                sequence,
            ),
{
}

/// The best route of the router is the registered route that outranks all others, and what
/// is published of it is its name with its liquidity plus reliability less a tenth of its
/// fee.
pub proof fn best_route_is_the_highest(core: RouterCore, sequence: u32, j: int)
    requires
        0 <= j < core.route_names@.len(),
        core.routes@.contains_key(core.route_names@[j]@),
        !core.routes@[core.route_names@[j]@].paused,
        core.routes@[core.route_names@[j]@].expires_at matches Some(last) ==> sequence <= last,
        core.scores@.contains_key(core.route_names@[j]@),
    ensures
        best_name(core, sequence) matches Some(best) && {
            let (a, b) = (core.scores@[best@], core.scores@[core.route_names@[j]@]);
            let rank_a = a.liquidity_score + a.reliability_score - a.fee_bps as int / 10;
            let rank_b = b.liquidity_score + b.reliability_score - b.fee_bps as int / 10;
            &&& core.routes@.contains_key(best@)
            &&& !core.routes@[best@].paused
            &&& (core.routes@[best@].expires_at matches Some(last) ==> sequence <= last)
            &&& rank_b <= rank_a
            &&& best_events(core, sequence) == seq![
                RouterEvent::BestRouteSelected { name: best, composite: rank_a as i64 },
            ]
        },
{
    let names = core.route_names@;
    some_candidate_is_chosen(core, names, sequence);
    assert(core.routes@.contains_key(names[j]@));
    let i = best_position(core, names, sequence)->0;
    chosen_candidate_outranks_all(core, names, sequence, i, j);
}

/// Without a best route, the name of a route that no alias covers resolves to the route's
/// address exactly while neither the router nor the route is paused and the ledger has not
/// passed the route's expiry; otherwise the answer says which of them holds.
pub proof fn name_resolves_to_its_route(core: RouterCore, name: String, sequence: u32)
    requires
        core.best_route is None,
        !core.aliases@.contains_key(name@),
    ensures
        core.paused ==> core.resolution(name, sequence) == Err::<Address, _>(
            RouterError::RouterPaused,
        ),
        !core.paused && !core.routes@.contains_key(name@) ==> core.resolution(name, sequence)
            == Err::<Address, _>(RouterError::RouteNotFound),
        core.routes@.contains_key(name@) ==> {
            let entry = core.routes@[name@];
            let passed = entry.expires_at matches Some(last) && last < sequence;
            &&& core.resolution(name, sequence) == Ok::<_, RouterError>(entry.address)
                <==> !core.paused && !entry.paused && !passed
            &&& !core.paused && passed ==> core.resolution(name, sequence) == Err::<Address, _>(
                RouterError::RouteExpired,
            )
            &&& !core.paused && !passed && entry.paused ==> core.resolution(name, sequence)
                == Err::<Address, _>(RouterError::RoutePaused)
        },
{
}

/// Without a best route, an alias resolves as its target does when it is no alias itself.
pub proof fn alias_leads_one_step(core: RouterCore, alias: String, sequence: u32)
    requires
        core.best_route is None,
        core.aliases@.contains_key(alias@),
        !core.aliases@.contains_key(core.aliases@[alias@]@),
    ensures
        core.resolution(alias, sequence) == core.resolution(core.aliases@[alias@], sequence),
{
}

/// While the best route has not expired, every name resolves as it does: to its address,
/// unless the router or the best route is paused.
pub proof fn best_route_answers_for_all(core: RouterCore, name: String, sequence: u32)
    requires
        core.best_route matches Some(best) && core.routes@.contains_key(best@) && (
        core.routes@[best@].expires_at matches Some(last) ==> sequence <= last),
    ensures
        ({
            let entry = core.routes@[core.best_route->0@];
            core.resolution(name, sequence) == if core.paused {
                Err(RouterError::RouterPaused)
            } else if entry.paused {
                Err(RouterError::RoutePaused)
            } else {
                Ok(entry.address)
            }
        }),
{
}

/// A best route that has expired, or is not registered, has no say: names resolve as if
/// there were none.
pub proof fn expired_best_route_has_no_say(core: RouterCore, name: String, sequence: u32)
    requires
        core.best_route matches Some(best) && (core.routes@.contains_key(best@) ==> (
        core.routes@[best@].expires_at matches Some(last) && last < sequence)),
    ensures
        core.resolution(name, sequence) == (RouterCore { best_route: None, ..core }).resolution(
            name,
            sequence,
        ),
{
}

/// What is published when a name resolves is the name with the address; an expired or
/// paused route is published under its own name; nothing else is.
pub proof fn resolution_is_published(core: RouterCore, name: String, sequence: u32)
    ensures
        core.resolution(name, sequence) matches Ok(address) ==> core.resolution_events(
            name,
            sequence,
        ) == seq![RouterEvent::Routed { name, address }],
        core.resolution(name, sequence) == Err::<Address, _>(RouterError::RouterPaused)
            || core.resolution(name, sequence) == Err::<Address, _>(RouterError::RouteNotFound)
            ==> core.resolution_events(name, sequence).len() == 0,
        core.best_route is None && !core.aliases@.contains_key(name@) && core.resolution(
            name,
            sequence,
        ) == Err::<Address, _>(RouterError::RouteExpired) ==> core.resolution_events(name, sequence)
            == seq![RouterEvent::RouteResolveExpired { name }],
        core.best_route is None && !core.aliases@.contains_key(name@) && core.resolution(
            name,
            sequence,
        ) == Err::<Address, _>(RouterError::RoutePaused) ==> core.resolution_events(name, sequence)
            == seq![RouterEvent::RouteResolvePaused { name }],
{
}

/// A name of a batch is answered as it would be alone, except that an expired route counts
/// as not found.
pub proof fn batch_answers_as_alone(core: RouterCore, name: String, sequence: u32)
    ensures
        core.batch_answer(name, sequence) == match core.resolution(name, sequence) {
            Ok(address) => BatchResolveResult::Resolved(address),
            Err(e) => BatchResolveResult::Failed(
                if e == RouterError::RouterPaused {
                    ResolveError::RouterPaused
                } else if e == RouterError::RoutePaused {
                    ResolveError::RoutePaused
                } else {
                    ResolveError::RouteNotFound
                },
            ),
        },
{
}

/// Every name of a batch that resolves is counted once, and no other: the count of two
/// batches in a row is the sum of their counts, and one name counts one or nothing.
pub proof fn batch_counts_what_resolves(
    core: RouterCore,
    names: Seq<String>,
    sequence: u32,
    n: nat,
)
    requires
        n < names.len(),
    ensures
        core.resolved_count(names, sequence, 0) == 0,
        core.resolved_count(names, sequence, n + 1) - core.resolved_count(names, sequence, n)
            == if core.resolution(names[n as int], sequence) is Ok {
            1int
        } else {
            0
        },
        core.batch_events(names, sequence, 0).len() == 0,
        core.batch_events(names, sequence, n + 1) == core.batch_events(names, sequence, n)
            + core.resolution_events(names[n as int], sequence),
{
}

/// Which names are listed: of two lists in a row first what is listed of the first, then
/// what is listed of the second, and of one name the name itself, unless its route has
/// expired.
pub proof fn listing_leaves_out_the_expired(
    core: RouterCore,
    first: Seq<String>,
    second: Seq<String>,
    name: String,
    sequence: u32,
)
    ensures
        core.unexpired(first + second, sequence) == core.unexpired(first, sequence)
            + core.unexpired(second, sequence),
        core.unexpired(seq![name], sequence) == if core.routes@.contains_key(name@) && (
        core.routes@[name@].expires_at matches Some(last) && last < sequence) {
            Seq::<String>::empty()
        } else {
            seq![name]
        },
        core.unexpired(seq![], sequence) == Seq::<String>::empty(),
    decreases second.len(),
{
    let one = seq![name];
    assert(one.drop_last() =~= Seq::<String>::empty());
    assert(core.unexpired(one.drop_last(), sequence) =~= Seq::<String>::empty());
    assert(core.unexpired(one, sequence) =~= if core.routes@.contains_key(name@) && (
    core.routes@[name@].expires_at matches Some(last) && last < sequence) {
        Seq::<String>::empty()
    } else {
        one
    });
    if second.len() == 0 {
        assert(first + second =~= first);
        assert(core.unexpired(first, sequence) + core.unexpired(second, sequence)
            =~= core.unexpired(first, sequence));
    } else {
        let rest = second.drop_last();
        listing_leaves_out_the_expired(core, first, rest, name, sequence);
        assert((first + second).drop_last() =~= first + rest);
        assert((first + second).last() == second.last());
        assert(core.unexpired(first + second, sequence) =~= core.unexpired(first, sequence)
            + core.unexpired(second, sequence));
    }
}

/// A route is live up to and including the ledger at which it expires, and not after it;
/// without an expiry it is live at every ledger.
pub proof fn routes_live_through_their_last_ledger(entry: RouteEntry, sequence: u32)
    ensures
        super::types::expired(entry, sequence) == (entry.expires_at is Some && sequence
            >= entry.expires_at->0 + 1),
{
}

} // verus!
