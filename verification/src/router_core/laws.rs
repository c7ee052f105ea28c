//! What holds of the router as a whole.

use super::batch::{registration_faults, registration_run};
use super::types::{expired, RouteMetadata, RouteRegisterInput, RouterCore, RouterError};
use crate::common::Address;
use crate::text::{lemma_lists_push, lists};
use vstd::prelude::*;

verus! {

/// An alias resolves as the route that it points to.
pub proof fn alias_resolves_as_its_target(core: RouterCore, alias: String, sequence: u32)
    requires
        core.wf(),
        core.aliases@.contains_key(alias@),
    ensures
        core.resolution(alias, sequence) == core.resolution(core.aliases@[alias@], sequence),
{
    let target = core.aliases@[alias@]@;
    assert(core.routes@.contains_key(target));
    if core.aliases@.contains_key(target) {
        assert(!core.routes@.contains_key(target));
    }
}

/// Only routes that are registered, not paused and not expired are resolved to, and only
/// while the router is not paused.
pub proof fn resolved_routes_are_live(core: RouterCore, name: String, sequence: u32)
    ensures
        core.resolution(name, sequence) matches Ok(address) ==> {
            let selected = core.selected(name, sequence)@;
            &&& !core.paused
            &&& core.routes@.contains_key(selected)
            &&& !core.routes@[selected].paused
            &&& !expired(core.routes@[selected], sequence)
            &&& core.routes@[selected].address == address
        },
{
}

/// A new route resolves to its address up to the ledger at which it expires, and not
/// after it, while no scored route takes precedence.
pub proof fn registered_route_resolves(
    before: RouterCore,
    caller: Address,
    name: String,
    address: Address,
    metadata: Option<RouteMetadata>,
    expires_at: Option<u32>,
    after: RouterCore,
    sequence: u32,
)
    requires
        before.wf(),
        !before.paused,
        before.best_route is None,
        before.registration_fault(name@, address@, metadata) is None,
        before.is_registered(caller, name, address, metadata, expires_at, after),
    ensures
        after.resolution(name, sequence) == (if expires_at matches Some(last) && sequence > last {
            Err(RouterError::RouteExpired)
        } else {
            Ok(address)
        }),
{
}

/// Once a route is removed, no alias points to it and its name is free again.
pub proof fn removal_frees_the_name(
    before: RouterCore,
    name: String,
    alias: Seq<char>,
    after: RouterCore,
)
    requires
        before.wf(),
        before.routes@.contains_key(name@),
        before.is_detached(name@, after),
    ensures
        after.aliases@.contains_key(alias) ==> after.aliases@[alias]@ != name@,
        after.name_fault(name@) is None,
{
    if before.aliases@.contains_key(name@) {
        assert(!before.routes@.contains_key(name@));
    }
}

/// Registering a route and removing it again leaves the routes, their names and the
/// aliases as they were.
pub proof fn removal_undoes_registration(
    before: RouterCore,
    caller: Address,
    name: String,
    address: Address,
    metadata: Option<RouteMetadata>,
    expires_at: Option<u32>,
    between: RouterCore,
    after: RouterCore,
)
    requires
        before.wf(),
        before.route_count < u32::MAX,
        before.registration_fault(name@, address@, metadata) is None,
        before.is_registered(caller, name, address, metadata, expires_at, between),
        between.is_detached(name@, after),
    ensures
        after.routes@ == before.routes@,
        after.route_names@ == before.route_names@,
        after.route_count == before.route_count,
        after.aliases@ == before.aliases@,
        after.metadata@ == before.metadata@,
{
    assert(after.routes@ =~= before.routes@);
    assert forall|alias: Seq<char>| before.aliases@.contains_key(
        alias,
    ) implies before.aliases@[alias]@ != name@ by {
        assert(before.routes@.contains_key(before.aliases@[alias]@));
    }
    assert(after.aliases@ =~= before.aliases@);
    if before.metadata@.contains_key(name@) {
        assert(before.routes@.contains_key(name@));
    }
    assert(after.metadata@ =~= before.metadata@);
    assert(!lists(before.route_names@, name@)) by {
        assert(!before.routes@.contains_key(name@));
    }
    assert(between.route_names@.drop_last() =~= before.route_names@);
    lemma_others_of_absent(before.route_names@, name@);
}

/// Taking out what is not there changes nothing.
proof fn lemma_others_of_absent(strings: Seq<String>, text: Seq<char>)
    requires
        !lists(strings, text),
    ensures
        crate::text::others(strings, text) == strings,
    decreases strings.len(),
{
    if strings.len() > 0 {
        let rest = strings.drop_last();
        assert(rest.push(strings.last()) =~= strings);
        lemma_lists_push(rest, strings.last(), text);
        lemma_others_of_absent(rest, text);
    }
}

/// Whether a batch can be registered as a whole: its names are valid, new and different,
/// and no address is the zero address.
pub open spec fn is_clean_batch(core: RouterCore, routes: Seq<RouteRegisterInput>) -> bool {
    &&& forall|i: int|
        0 <= i < routes.len() ==> core.registration_fault(
            (#[trigger] routes[i]).name@,
            routes[i].address@,
            None,
        ) is None
    &&& forall|i: int, j: int|
        0 <= i < j < routes.len() ==> (#[trigger] routes[i]).name@ != (#[trigger] routes[j]).name@
}

/// Of a batch that can be registered as a whole, every entry is.
pub proof fn clean_batch_registers_all(
    states: Seq<RouterCore>,
    caller: Address,
    routes: Seq<RouteRegisterInput>,
    i: int,
)
    requires
        registration_run(states, caller, routes),
        is_clean_batch(states[0], routes),
        0 <= i < routes.len(),
    ensures
        registration_faults(states, routes)[i] is None,
        states.last().routes@.contains_key(routes[i].name@),
        states.last().routes@[routes[i].name@].address == routes[i].address,
{
    lemma_clean_prefix(states, caller, routes, i);
    lemma_clean_prefix(states, caller, routes, routes.len() as int);
}

/// After the first entries of a clean batch, these are registered and nothing else is
/// new.
proof fn lemma_clean_prefix(
    states: Seq<RouterCore>,
    caller: Address,
    routes: Seq<RouteRegisterInput>,
    n: int,
)
    requires
        registration_run(states, caller, routes),
        is_clean_batch(states[0], routes),
        0 <= n <= routes.len(),
    ensures
        states[n].aliases == states[0].aliases,
        forall|name: Seq<char>|
            (forall|i: int| 0 <= i < n ==> (#[trigger] routes[i]).name@ != name)
                ==> #[trigger] states[n].routes@.contains_key(name)
                == states[0].routes@.contains_key(name),
        forall|i: int|
            0 <= i < n ==> states[n].routes@.contains_key((#[trigger] routes[i]).name@)
                && states[n].routes@[routes[i].name@].address == routes[i].address,
    decreases n,
{
    if n > 0 {
        let last = routes[n - 1];
        lemma_clean_prefix(states, caller, routes, n - 1);
        assert(states[0].registration_fault(last.name@, last.address@, None) is None);
        assert forall|i: int| 0 <= i < n - 1 implies (#[trigger] routes[i]).name@ != last.name@ by {}
        assert(!states[n - 1].routes@.contains_key(last.name@));
        assert(states[n - 1].registration_fault(last.name@, last.address@, None) is None);
        assert(states[n - 1].is_registered(caller, last.name, last.address, None, None, states[n]));
        assert forall|name: Seq<char>|
            (forall|i: int| 0 <= i < n ==> (#[trigger] routes[i]).name@ != name) implies
            #[trigger] states[n].routes@.contains_key(name) == states[0].routes@.contains_key(
            name,
        ) by {
            assert(routes[n - 1].name@ != name);
        }
        assert forall|i: int| 0 <= i < n implies states[n].routes@.contains_key(
            (#[trigger] routes[i]).name@,
        ) && states[n].routes@[routes[i].name@].address == routes[i].address by {
            if i < n - 1 {
                assert(states[n - 1].routes@.contains_key(routes[i].name@));
                assert(routes[i].name@ != last.name@);
            }
        }
    }
}

} // verus!
