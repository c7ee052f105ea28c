//! What holds of a scrape: what is asked, what an answer leads to and what the metrics show of it.

use super::auth::{carried_key, has_prefix, says_true, KeyHeaders};
use super::cli::Args;
use super::collector::{
    are_targets, breaker_in, entry_number, fits, is_query, json_numbers_of, metrics_after,
    named_number, occurs, paused_in, round_after, scrape_after, step_after, with_error, Answer,
    Phase, Query, Round, Scrape, ScrapeStep,
};
use super::gauges::MetricsView;
use super::rpc::{
    are_event_filters, bool_in, is_event_filter, item_text, item_texts, result_of, returned,
    signed_decimal_of, texts_in, u64_in, LedgerEntry, RpcError, RpcReply,
};
use crate::json::Json;
use crate::text::{decimal_of, hex_of, i64_of, u64_of};
use crate::text_laws::decimal_reads_back;
use vstd::prelude::*;
use vstd::utf8::encode_utf8;

verus! {

/// A letter in lower case.
pub open spec fn lower_case(c: char) -> char {
    if 'A' <= c <= 'Z' {
        (c as u32 + 32) as char
    } else {
        c
    }
}

/// A text says true exactly if it is the word in lower case once all its letters are.
pub proof fn true_is_said_in_any_case(text: Seq<char>)
    ensures
        says_true(text) <==> text.map_values(|c: char| lower_case(c)) == seq!['t', 'r', 'u', 'e'],
{
    let lower = text.map_values(|c: char| lower_case(c));
    let word = seq!['t', 'r', 'u', 'e'];
    if says_true(text) {
        assert(lower =~= word);
    }
    if lower == word {
        assert(text.len() == lower.len() && word.len() == 4);
        assert(lower[0] == 't' && lower[1] == 'r' && lower[2] == 'u' && lower[3] == 'e');
        assert(lower_case(text[0]) == 't' && lower_case(text[1]) == 'r' && lower_case(text[2])
            == 'u' && lower_case(text[3]) == 'e');
    }
}

/// A text starts with a prefix exactly if it is that prefix and something behind it.
pub proof fn prefixes_come_first(text: Seq<char>, prefix: Seq<char>, rest: Seq<char>)
    ensures
        has_prefix(prefix + rest, prefix),
        has_prefix(text, prefix) <==> exists|tail: Seq<char>| text == #[trigger] (prefix + tail),
{
    assert((prefix + rest).take(prefix.len() as int) =~= prefix);
    if has_prefix(text, prefix) {
        assert(text =~= prefix + text.skip(prefix.len() as int));
    }
    if exists|tail: Seq<char>| text == #[trigger] (prefix + tail) {
        let tail = choose|tail: Seq<char>| text == #[trigger] (prefix + tail);
        assert((prefix + tail).take(prefix.len() as int) =~= prefix);
    }
}

/// The key of a request is what stands behind `Bearer ` in its authorization. One without that
/// word, or without any authorization, carries what is in its API key header, and nothing where
/// there is none.
pub proof fn requests_carry_their_key(headers: KeyHeaders, word: Seq<char>, key: Seq<char>)
    requires
        word == seq!['B', 'e', 'a', 'r', 'e', 'r', ' '],
    ensures
        headers.authorization is Some && headers.authorization->0@ == word + key ==> carried_key(
            headers,
        ) == Some(key),
        headers.authorization is None && headers.x_api_key is Some ==> carried_key(headers) == Some(
            headers.x_api_key->0@,
        ),
        headers.authorization is Some && headers.x_api_key is Some && !(exists|tail: Seq<char>|
            headers.authorization->0@ == #[trigger] (word + tail)) ==> carried_key(headers) == Some(
            headers.x_api_key->0@,
        ),
        headers.authorization is None && headers.x_api_key is None ==> carried_key(headers) is None,
{
    reveal_strlit("Bearer ");
    assert("Bearer "@ =~= word);
    prefixes_come_first(word, word, key);
    assert((word + key).skip(7) =~= key);
    if headers.authorization is Some {
        prefixes_come_first(headers.authorization->0@, word, key);
    }
}

/// A text occurs in another exactly if that is something, the text, and something more.
pub proof fn occurring_texts_are_in_between(text: Seq<char>, needle: Seq<char>)
    ensures
        occurs(text, needle) <==> exists|head: Seq<char>, tail: Seq<char>|
            text == #[trigger] (head + needle + tail),
{
    if occurs(text, needle) {
        let i = choose|i: int|
            0 <= i <= text.len() - needle.len() && #[trigger] text.subrange(i, i + needle.len())
                == needle;
        let (head, tail) = (text.take(i), text.skip(i + needle.len()));
        assert(text =~= head + needle + tail) by {
            assert(text =~= text.take(i) + text.subrange(i, i + needle.len()) + text.skip(
                i + needle.len(),
            ));
        }
    }
    if exists|head: Seq<char>, tail: Seq<char>| text == #[trigger] (head + needle + tail) {
        let (head, tail) = choose|head: Seq<char>, tail: Seq<char>|
            text == #[trigger] (head + needle + tail);
        let i = head.len() as int;
        assert(text.subrange(i, i + needle.len()) =~= needle);
    }
}

/// An entry whose value is a number in decimal notation stands for that number, whatever else can
/// be read from it; another for the first number that can be.
pub proof fn entries_stand_for_their_number(
    xdr: Seq<char>,
    numbers: (Option<u64>, Option<u64>),
    n: nat,
)
    ensures
        xdr == decimal_of(n) && n <= u64::MAX ==> entry_number(xdr, numbers) == Some(n as u64),
        u64_of(xdr) is None && numbers.0 is Some ==> entry_number(xdr, numbers) == numbers.0,
        u64_of(xdr) is None && numbers.0 is None ==> entry_number(xdr, numbers) == numbers.1,
{
    decimal_reads_back(n);
}

/// The number under a name is that of the first entry which is called so and stands for one.
pub proof fn the_first_named_number_counts(
    a: Seq<LedgerEntry>,
    b: Seq<LedgerEntry>,
    one: LedgerEntry,
    name: Seq<char>,
)
    ensures
        named_number(a + b, name) == match named_number(a, name) {
            Some(n) => Some(n),
            None => named_number(b, name),
        },
        named_number(seq![one], name) == if occurs(one.key@, name) {
            entry_number(one.xdr@, json_numbers_of(one.xdr@, "u64"@))
        } else {
            None
        },
        named_number(seq![], name) is None,
    decreases a.len(),
{
    assert(seq![one].drop_first() =~= Seq::<LedgerEntry>::empty());
    assert(named_number(seq![one].drop_first(), name) is None);
    if a.len() == 0 {
        assert(a + b =~= b);
    } else {
        the_first_named_number_counts(a.drop_first(), b, one, name);
        assert((a + b).drop_first() =~= a.drop_first() + b);
        assert((a + b)[0] == a[0]);
    }
}

/// A route is paused as the returned value says, or else as the value itself does.
pub proof fn pauses_are_read(value: Json, retval: Json, paused: bool)
    ensures
        returned(value) == Some(retval) && retval.field("paused"@) == Some(Json::Bool(paused))
            ==> paused_in(value) == Some(paused),
        returned(value) is None && value.field("paused"@) == Some(Json::Bool(paused)) ==> paused_in(
            value,
        ) == Some(paused),
        returned(value) == Some(retval) && retval.field("paused"@) is None && value.field(
            "paused"@,
        ) == Some(Json::Bool(paused)) ==> paused_in(value) == Some(paused),
        returned(value) is None && value.field("paused"@) is None ==> paused_in(value) is None,
        returned(value) == Some(retval) && retval.field("paused"@) is None && value.field(
            "paused"@,
        ) is None ==> paused_in(value) is None,
{
}

/// A circuit is open exactly if its state says so, and has as many failures as that counts, in
/// 32 bits. One without a state is closed and has none. What is returned goes before the value
/// itself, and a state that is there before what it is in.
pub proof fn circuits_are_read(value: Json, retval: Json, state: Json, n: u64)
    requires
        returned(value) == Some(retval) || (returned(value) is None && retval == value),
    ensures
        retval == Json::Null || retval.field("none"@) is Some ==> breaker_in(value) == (false, 0u32),
        retval != Json::Null && retval.field("none"@) is None && (retval.field("some"@) == Some(
            state,
        ) || (retval.field("some"@) is None && state == retval)) ==> {
            &&& breaker_in(value).0 <==> state.field("is_open"@) == Some(Json::Bool(true))
            &&& state.field("failure_count"@) == Some(Json::Unsigned(n)) ==> breaker_in(value).1
                == n % 0x1_0000_0000
            &&& state.field("failure_count"@) is None ==> breaker_in(value).1 == 0
        },
{
    assert(n as u32 == n % 0x1_0000_0000) by (bit_vector);
}

/// Whether a query is for what a function of a contract returns, whatever kind of value that is.
pub open spec fn asks(query: Query, id: Seq<char>, name: Seq<char>) -> bool {
    match query {
        Query::U64 { contract_id, function } => contract_id@ == id && function@ == name,
        Query::Bool { contract_id, function } => contract_id@ == id && function@ == name,
        Query::StringVec { contract_id, function } => contract_id@ == id && function@ == name,
        Query::Simulate { contract_id, function, .. } => contract_id@ == id && function@ == name,
        Query::Events { contract_id, topic } => contract_id@ == id && topic@ == name,
        Query::LedgerEntries { .. } => false,
    }
}

/// Each phase of a scrape asks its contract for one thing, and for a value of its kind.
pub proof fn phases_ask_for_their_values(scrape: Scrape, query: Query)
    requires
        is_query(scrape, query),
    ensures
        ({
            let id = scrape.contract_id@;
            match scrape.phase {
                Phase::CoreTotal => query is U64 && asks(query, id, "total_routed"@),
                Phase::CorePaused => query is Bool && asks(query, id, "is_paused"@),
                Phase::CoreRoutes => query is StringVec && asks(query, id, "get_all_routes"@),
                Phase::CoreRoute => query is Simulate && asks(query, id, "get_route"@),
                Phase::MiddlewareTotal => query is U64 && asks(query, id, "total_calls"@),
                Phase::MiddlewareRoutes => query is StringVec && asks(
                    query,
                    id,
                    "get_configured_routes"@,
                ),
                Phase::MiddlewareRoute => query is Simulate && asks(
                    query,
                    id,
                    "circuit_breaker_state"@,
                ),
                Phase::RegistryNames => query is StringVec && asks(query, id, "get_all_names"@),
                Phase::QuoteGenerated => query is Events && asks(query, id, "quote_generated"@),
                Phase::QuoteFees => query is Events && asks(query, id, "fee_estimated"@),
                Phase::ExecutionEntries => query is LedgerEntries,
            }
        }),
        query matches Query::Simulate { args, .. } ==> args@.len() == 1 && args@[0]@ == hex_of(
            encode_utf8(scrape.routes@[scrape.next as int]@),
        ),
        query matches Query::LedgerEntries { keys } ==> keys@.len() == 3 && keys@[0]@
            == scrape.contract_id@ + ":"@ + "TotalExecutions"@ && keys@[1]@ == scrape.contract_id@
            + ":"@ + "TotalErrors"@ && keys@[2]@ == scrape.contract_id@ + ":"@ + "MaxRetries"@,
{
}

/// A scrape fails exactly if what its phase cannot do without is not answered. Whether a router is
/// paused, and what is known of a single route, can be done without.
pub proof fn scrapes_fail_for_want_of_an_answer(scrape: Scrape, answer: Answer)
    ensures
        (step_after(scrape, answer) == ScrapeStep::Failed) <==> {
            let phase = scrape.phase;
            ||| (phase == Phase::CoreTotal || phase == Phase::MiddlewareTotal) && !(answer is Number)
            ||| (phase == Phase::CoreRoutes || phase == Phase::MiddlewareRoutes || phase
                == Phase::RegistryNames) && !(answer is Texts)
            ||| (phase == Phase::QuoteGenerated || phase == Phase::QuoteFees)
                && !(answer is EventCount)
            ||| phase == Phase::ExecutionEntries && !(answer is Entries)
        },
{
}

/// A scrape is done exactly with the answer to its last question: the names, the second count of
/// events, the counters, a list without routes, or what is known of the last route.
pub proof fn scrapes_end_with_their_last_question(scrape: Scrape, answer: Answer)
    ensures
        (step_after(scrape, answer) == ScrapeStep::Done) <==> {
            let phase = scrape.phase;
            ||| (phase == Phase::CoreRoutes || phase == Phase::MiddlewareRoutes)
                && (answer matches Answer::Texts(routes) && routes@.len() == 0)
            ||| (phase == Phase::CoreRoute || phase == Phase::MiddlewareRoute) && scrape.next + 1
                >= scrape.routes@.len()
            ||| phase == Phase::RegistryNames && answer is Texts
            ||| phase == Phase::QuoteFees && answer is EventCount
            ||| phase == Phase::ExecutionEntries && answer is Entries
        },
{
}

/// A scrape that goes on keeps its contract and asks the next thing: the total, the pause and the
/// routes of a router, the total and the routes of middleware, both counts of quotes; and of the
/// routes one after the other, from the first.
pub proof fn scrapes_go_on_in_order(scrape: Scrape, answer: Answer)
    requires
        scrape.wf(),
        step_after(scrape, answer) == ScrapeStep::Continue,
    ensures
        ({
            let after = scrape_after(scrape, answer);
            let phase = scrape.phase;
            &&& after.contract_id == scrape.contract_id
            &&& phase == Phase::CoreTotal ==> after.phase == Phase::CorePaused
            &&& phase == Phase::CorePaused ==> after.phase == Phase::CoreRoutes
            &&& phase == Phase::CoreRoutes ==> after.phase == Phase::CoreRoute
            &&& phase == Phase::CoreRoute ==> after.phase == Phase::CoreRoute
            &&& phase == Phase::MiddlewareTotal ==> after.phase == Phase::MiddlewareRoutes
            &&& phase == Phase::MiddlewareRoutes ==> after.phase == Phase::MiddlewareRoute
            &&& phase == Phase::MiddlewareRoute ==> after.phase == Phase::MiddlewareRoute
            &&& phase == Phase::QuoteGenerated ==> after.phase == Phase::QuoteFees
                && (answer matches Answer::EventCount(n) && after.generated == n)
            &&& (phase == Phase::CoreRoutes || phase == Phase::MiddlewareRoutes) ==> (
            answer matches Answer::Texts(routes) && after.routes@ == routes@ && after.next == 0)
            &&& (phase == Phase::CoreRoute || phase == Phase::MiddlewareRoute) ==> after.routes@
                == scrape.routes@ && after.next == scrape.next + 1
        }),
{
    assert(scrape.routes.len() == scrape.routes@.len());
}

/// What a router answers is shown of it: the total, and that it is not paused, the pause, and
/// that of each route, which counts as not paused where the answer says nothing.
pub proof fn router_metrics_show_the_answers(metrics: MetricsView, scrape: Scrape, answer: Answer)
    ensures
        ({
            let id = scrape.contract_id@;
            let after = metrics_after(metrics, scrape, answer);
            let key = (id, scrape.routes@[scrape.next as int]@);
            &&& scrape.phase == Phase::CoreTotal ==> (answer matches Answer::Number(n)
                ==> after.core_total_routed == metrics.core_total_routed.insert(id, n)
                && after.core_paused == metrics.core_paused.insert(id, false))
            &&& scrape.phase == Phase::CorePaused ==> (answer matches Answer::Flag(b)
                ==> after.core_paused == metrics.core_paused.insert(id, b))
            &&& scrape.phase == Phase::CoreRoute ==> (answer matches Answer::Value(value)
                ==> after.core_route_paused == metrics.core_route_paused.insert(
                key,
                paused_in(*value) == Some(true),
            ))
            &&& scrape.phase != Phase::CoreTotal ==> after.core_total_routed
                == metrics.core_total_routed
            &&& scrape.phase != Phase::CoreTotal && scrape.phase != Phase::CorePaused
                ==> after.core_paused == metrics.core_paused
            &&& scrape.phase != Phase::CoreRoute ==> after.core_route_paused
                == metrics.core_route_paused
            &&& answer is Failed ==> after == metrics
            &&& after.up == metrics.up
        }),
{
}

/// What the other contracts answer is shown of them: totals, the state of each circuit, the number
/// of names, both counts of quotes and the three counters of executions, each under its own name.
pub proof fn other_metrics_show_the_answers(metrics: MetricsView, scrape: Scrape, answer: Answer)
    ensures
        ({
            let id = scrape.contract_id@;
            let after = metrics_after(metrics, scrape, answer);
            let key = (id, scrape.routes@[scrape.next as int]@);
            &&& scrape.phase == Phase::MiddlewareTotal ==> (answer matches Answer::Number(n)
                ==> after.middleware_total_calls == metrics.middleware_total_calls.insert(id, n))
            &&& scrape.phase == Phase::MiddlewareRoute ==> (answer matches Answer::Value(value)
                ==> after.middleware_circuit_open == metrics.middleware_circuit_open.insert(
                key,
                breaker_in(*value).0,
            ) && after.middleware_failure_count == metrics.middleware_failure_count.insert(
                key,
                breaker_in(*value).1,
            ))
            &&& scrape.phase == Phase::RegistryNames ==> (answer matches Answer::Texts(names)
                ==> after.registry_total_names == metrics.registry_total_names.insert(
                id,
                names@.len() as u64,
            ))
            &&& scrape.phase == Phase::QuoteFees ==> (answer matches Answer::EventCount(n)
                ==> after.quote_total_generated == metrics.quote_total_generated.insert(
                id,
                scrape.generated,
            ) && after.quote_total_fee_estimated == metrics.quote_total_fee_estimated.insert(id, n))
            &&& scrape.phase == Phase::ExecutionEntries ==> (answer matches Answer::Entries(entries)
                ==> {
                &&& after.execution_total_executions.contains_key(id)
                &&& after.execution_total_errors.contains_key(id)
                &&& after.execution_max_retries.contains_key(id)
                &&& match named_number(entries@, "TotalExecutions"@) {
                    Some(n) => after.execution_total_executions[id] == n,
                    None => after.execution_total_executions[id] == 0,
                }
                &&& match named_number(entries@, "TotalErrors"@) {
                    Some(n) => after.execution_total_errors[id] == n,
                    None => after.execution_total_errors[id] == 0,
                }
                &&& match named_number(entries@, "MaxRetries"@) {
                    Some(n) => after.execution_max_retries[id] == n,
                    None => after.execution_max_retries[id] == 0,
                }
            })
        }),
{
}

/// Every contract that has an ID is scraped once, from its first question on, and no other.
pub proof fn contracts_with_an_id_are_scraped(
    args: Args,
    scrapes: Seq<(Seq<char>, Phase)>,
    id: Seq<char>,
    phase: Phase,
)
    requires
        are_targets(args, scrapes),
    ensures
        scrapes.contains((id, phase)) <==> id.len() > 0 && {
            ||| id == args.core_contract_id@ && phase == Phase::CoreTotal
            ||| id == args.middleware_contract_id@ && phase == Phase::MiddlewareTotal
            ||| id == args.registry_contract_id@ && phase == Phase::RegistryNames
            ||| id == args.quote_contract_id@ && phase == Phase::QuoteGenerated
            ||| id == args.execution_contract_id@ && phase == Phase::ExecutionEntries
        },
        scrapes.no_duplicates(),
{
    let core = args.core_contract_id@;
    let middleware = args.middleware_contract_id@;
    let registry = args.registry_contract_id@;
    let quote = args.quote_contract_id@;
    let execution = args.execution_contract_id@;
    let a: int = if core.len() > 0 { 1 } else { 0 };
    let b: int = if middleware.len() > 0 { a + 1 } else { a };
    let c: int = if registry.len() > 0 { b + 1 } else { b };
    let d: int = if quote.len() > 0 { c + 1 } else { c };
    assert(core.len() > 0 ==> scrapes[0] == (core, Phase::CoreTotal));
    assert(middleware.len() > 0 ==> scrapes[a] == (middleware, Phase::MiddlewareTotal));
    assert(registry.len() > 0 ==> scrapes[b] == (registry, Phase::RegistryNames));
    assert(quote.len() > 0 ==> scrapes[c] == (quote, Phase::QuoteGenerated));
    assert(execution.len() > 0 ==> scrapes[d] == (execution, Phase::ExecutionEntries));
}

/// An error of a contract is one more of it, up to the largest number, and none of another.
pub proof fn errors_are_counted_one_by_one(
    errors: Map<Seq<char>, u64>,
    id: Seq<char>,
    other: Seq<char>,
)
    ensures
        ({
            let after = with_error(errors, id);
            let count = if errors.contains_key(id) {
                errors[id]
            } else {
                0
            };
            &&& after.contains_key(id)
            &&& count < u64::MAX ==> after[id] == count + 1
            &&& count == u64::MAX ==> after[id] == count
            &&& other != id ==> after.contains_key(other) == errors.contains_key(other)
            &&& other != id && errors.contains_key(other) ==> after[other] == errors[other]
        }),
{
}

/// A round goes on with the scrape at hand until that is done or has failed, and then with the
/// next. It is a success exactly if no scrape fails.
pub proof fn rounds_take_one_scrape_after_the_other(round: Round, answer: Answer)
    requires
        round.pending.len() > 0,
    ensures
        ({
            let scrape = round.pending[0];
            let after = round_after(round, answer);
            let step = step_after(scrape, answer);
            &&& step == ScrapeStep::Continue ==> after.pending == seq![scrape_after(scrape, answer)]
                + round.pending.drop_first()
            &&& step != ScrapeStep::Continue ==> after.pending == round.pending.drop_first()
            &&& after.all_ok == (round.all_ok && step != ScrapeStep::Failed)
            &&& step != ScrapeStep::Failed ==> after.metrics == metrics_after(
                round.metrics,
                scrape,
                answer,
            )
            &&& step == ScrapeStep::Failed ==> after.metrics.scrape_errors_total == with_error(
                round.metrics.scrape_errors_total,
                scrape.contract_id@,
            )
        }),
{
    assert(round.pending.update(0, scrape_after(round.pending[0], answer)) =~= seq![
        scrape_after(round.pending[0], answer),
    ] + round.pending.drop_first());
}

/// A signed number reads back from its text.
pub proof fn signed_numbers_read_back(n: i64)
    ensures
        i64_of(signed_decimal_of(n as int)) == Some(n),
{
    reveal_strlit("-");
    let size = if n < 0 {
        (-n) as nat
    } else {
        n as nat
    };
    decimal_reads_back(size);
    assert("-"@ =~= seq!['-']);
}

/// A reply with an error is that error, whatever else is in it; one with neither an error nor a
/// result is empty.
pub proof fn errors_go_before_results<T>(reply: RpcReply<T>)
    ensures
        match (reply.error, reply.result, result_of(reply)) {
            (Some((code, message)), _, Err(RpcError::Refused { code: c, message: m })) => c == code
                && m == message,
            (None, Some(result), Ok(r)) => r == result,
            (None, None, Err(e)) => e == RpcError::EmptyResult,
            _ => false,
        },
{
}

/// What a simulation returned is the return value of its first result.
pub proof fn the_first_result_is_returned(value: Json, results: Json, items: Vec<Json>)
    ensures
        value.field("results"@) is None ==> returned(value) is None,
        value.field("results"@) == Some(results) && !(results is Array) ==> returned(value) is None,
        value.field("results"@) == Some(Json::Array(items)) && items@.len() == 0 ==> returned(
            value,
        ) is None,
        value.field("results"@) == Some(Json::Array(items)) && items@.len() > 0 ==> returned(value)
            == items@[0].field("retval"@),
{
}

/// A number is found where it is: as the returned value, as that one's member `u64`, or as the
/// result itself.
pub proof fn numbers_are_found(value: Json, retval: Json, n: u64)
    ensures
        returned(value) == Some(Json::Unsigned(n)) ==> u64_in(value) == Some(n),
        returned(value) == Some(retval) && retval.field("u64"@) == Some(Json::Unsigned(n))
            ==> u64_in(value) == Some(n),
        returned(value) is None && value == Json::Unsigned(n) ==> u64_in(value) == Some(n),
        returned(value) is None && !(value is Unsigned) ==> u64_in(value) is None,
        returned(value) == Some(retval) && !(retval is Unsigned) && retval.field("u64"@) is None
            && !(value is Unsigned) ==> u64_in(value) is None,
{
}

/// A flag is found where it is: as the returned value, as that one's member `bool`, or as the
/// result itself.
pub proof fn flags_are_found(value: Json, retval: Json, b: bool)
    ensures
        returned(value) == Some(Json::Bool(b)) ==> bool_in(value) == Some(b),
        returned(value) == Some(retval) && retval.field("bool"@) == Some(Json::Bool(b)) ==> bool_in(
            value,
        ) == Some(b),
        returned(value) is None && value == Json::Bool(b) ==> bool_in(value) == Some(b),
        returned(value) is None && !(value is Bool) ==> bool_in(value) is None,
        returned(value) == Some(retval) && !(retval is Bool) && retval.field("bool"@) is None
            && !(value is Bool) ==> bool_in(value) is None,
{
}

/// The texts of a list are, in order, those of its items that are one or have one as `str`; what
/// is returned goes before the result itself.
pub proof fn texts_are_found(items: Seq<Json>, item: Json, value: Json, list: Vec<Json>, s: String)
    ensures
        item_texts(seq![]) == Seq::<Seq<char>>::empty(),
        item == Json::Text(s) || item.field("str"@) == Some(Json::Text(s)) ==> item_texts(
            items.push(item),
        ) == item_texts(items).push(s@),
        !(item is Text) && !(item.field("str"@) matches Some(Json::Text(_))) ==> item_texts(
            items.push(item),
        ) == item_texts(items),
        returned(value) == Some(Json::Array(list)) ==> texts_in(value) == item_texts(list@),
        returned(value) is None && value == Json::Array(list) ==> texts_in(value) == item_texts(
            list@,
        ),
        returned(value) is Some && !(returned(value)->0 is Array) ==> texts_in(value).len() == 0,
        returned(value) is None && !(value is Array) ==> texts_in(value).len() == 0,
{
    assert(items.push(item).drop_last() =~= items);
    assert(item is Text ==> item_text(item) == Some(item->Text_0@));
}

/// Every failure is told in its own words.
pub proof fn failures_are_told_in_words(error: RpcError, code: i64, message: String)
    ensures
        error == RpcError::Transport(message) ==> error.text() == message@,
        error == (RpcError::Refused { code, message }) && code >= 0 ==> error.text()
            == "RPC error "@ + decimal_of(code as nat) + ": "@ + message@,
        error == (RpcError::Refused { code, message }) && code < 0 ==> error.text() == "RPC error "@
            + ("-"@ + decimal_of((-code) as nat)) + ": "@ + message@,
        error == RpcError::EmptyResult ==> error.text() == "empty RPC result"@,
        error == RpcError::NoU64 ==> error.text() == "could not find u64 in simulation result"@,
        error == RpcError::NoBool ==> error.text() == "could not find bool in simulation result"@,
{
}

/// Each kind of query is answered by a value of its own kind.
pub proof fn answers_are_of_the_kind_asked_for(query: Query, answer: Answer)
    ensures
        fits(query, answer) <==> {
            ||| query is U64 && answer is Number
            ||| query is Bool && answer is Flag
            ||| query is StringVec && answer is Texts
            ||| query is Simulate && answer is Value
            ||| query is Events && answer is EventCount
            ||| query is LedgerEntries && answer is Entries
        },
{
}

/// There is one event filter for each topic, in order.
pub proof fn every_topic_has_its_filter(filters: Json, id: Seq<char>, topics: Seq<String>, i: int)
    requires
        are_event_filters(filters, id, topics),
    ensures
        filters is Array,
        filters->Array_0@.len() == topics.len(),
        0 <= i < topics.len() ==> is_event_filter(filters->Array_0@[i], id, topics[i]@),
{
    if 0 <= i < topics.len() {
        assert(is_event_filter(filters.items()->0[i], id, topics[i]@));
    }
}

/// An event filter names one contract and one topic, under their own keys.
pub proof fn filters_name_a_contract_and_a_topic(filter: Json, id: Seq<char>, topic: Seq<char>)
    requires
        is_event_filter(filter, id, topic),
    ensures
        filter.field("type"@) matches Some(Json::Text(kind)) && kind@ == "contract"@,
        filter.field("contractIds"@) matches Some(Json::Array(ids)) && ids@.len() == 1
            && ids@[0].text() == Some(id),
        filter.field("topics"@) matches Some(Json::Array(topics)) && topics@.len() == 1
            && (topics@[0] matches Json::Array(inner) && inner@.len() == 1 && inner@[0].text()
            == Some(topic)),
{
    reveal_strlit("type");
    reveal_strlit("contractIds");
    reveal_strlit("topics");
    assert("type"@.len() == 4 && "contractIds"@.len() == 11 && "topics"@.len() == 6);
    let members = filter->Object_0@;
    reveal_with_fuel(crate::json::member, 4);
    assert(members.drop_first()[0] == members[1]);
    assert(members.drop_first().drop_first()[0] == members[2]);
}

} // verus!
