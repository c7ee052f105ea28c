//! What holds of batches of routes: what each entry leads to, and which entry decides.

use super::batch::{
    fault_names, is_refreshed, names_zero_address, registration_faults, registration_run,
    removal_faults, removal_run, requested_names,
};
use super::scoring::{best_events, best_name};
use super::types::{RouteRegisterInput, RouterCore, RouterError};
use crate::common::Address;
use crate::text::lists;
use vstd::prelude::*;

verus! {

/// Every fault is reported under its own name, in the place of its entry.
pub proof fn faults_are_reported_in_place(faults: Seq<Option<RouterError>>, i: int)
    requires
        0 <= i < faults.len(),
    ensures
        fault_names(faults).len() == faults.len(),
        fault_names(faults)[i] is Some <==> faults[i] is Some,
        faults[i] == Some(RouterError::AlreadyInitialized) ==> fault_names(faults)[i] == Some(
            "AlreadyInitialized"@,
        ),
        faults[i] == Some(RouterError::NotInitialized) ==> fault_names(faults)[i] == Some(
            "NotInitialized"@,
        ),
        faults[i] == Some(RouterError::Unauthorized) ==> fault_names(faults)[i] == Some(
            "Unauthorized"@,
        ),
        faults[i] == Some(RouterError::RouteNotFound) ==> fault_names(faults)[i] == Some(
            "RouteNotFound"@,
        ),
        faults[i] == Some(RouterError::RoutePaused) ==> fault_names(faults)[i] == Some(
            "RoutePaused"@,
        ),
        faults[i] == Some(RouterError::RouterPaused) ==> fault_names(faults)[i] == Some(
            "RouterPaused"@,
        ),
        faults[i] == Some(RouterError::RouteAlreadyExists) ==> fault_names(faults)[i] == Some(
            "RouteAlreadyExists"@,
        ),
        faults[i] == Some(RouterError::InvalidRouteName) ==> fault_names(faults)[i] == Some(
            "InvalidRouteName"@,
        ),
        faults[i] == Some(RouterError::InvalidMetadata) ==> fault_names(faults)[i] == Some(
            "InvalidMetadata"@,
        ),
        faults[i] == Some(RouterError::CircularDependency) ==> fault_names(faults)[i] == Some(
            "CircularDependency"@,
        ),
        faults[i] == Some(RouterError::RouteInUse) ==> fault_names(faults)[i] == Some(
            "RouteInUse"@,
        ),
        faults[i] == Some(RouterError::InvalidAddress) ==> fault_names(faults)[i] == Some(
            "InvalidAddress"@,
        ),
        faults[i] == Some(RouterError::RouteExpired) ==> fault_names(faults)[i] == Some(
            "RouteExpired"@,
        ),
{
}

/// Each entry of a removal either takes its route or, where that cannot be removed as things are
/// then, changes nothing and is the fault that is reported.
pub proof fn every_removal_is_one_of_its_own(states: Seq<RouterCore>, names: Seq<String>, i: int)
    requires
        removal_run(states, names),
        0 <= i < names.len(),
    ensures
        states.len() == names.len() + 1,
        removal_faults(states, names).len() == names.len(),
        removal_faults(states, names)[i] == states[i].removal_fault(names[i]@),
        states[i].removal_fault(names[i]@) is Some ==> states[i + 1] == states[i],
        states[i].removal_fault(names[i]@) is None ==> states[i].is_removed(
            names[i],
            states[i + 1],
        ),
{
}

/// Each entry of a registration either adds its route, without metadata and without an end, or,
/// where that cannot be registered as things are then, changes nothing and is the fault that is
/// reported.
pub proof fn every_registration_is_one_of_its_own(
    states: Seq<RouterCore>,
    caller: Address,
    routes: Seq<RouteRegisterInput>,
    i: int,
)
    requires
        registration_run(states, caller, routes),
        0 <= i < routes.len(),
    ensures
        states.len() == routes.len() + 1,
        registration_faults(states, routes).len() == routes.len(),
        ({
            let (name, address) = (routes[i].name, routes[i].address);
            let fault = states[i].registration_fault(name@, address@, None);
            &&& registration_faults(states, routes)[i] == fault
            &&& fault is Some ==> states[i + 1] == states[i]
            &&& fault is None ==> states[i].is_registered(
                caller,
                name,
                address,
                None,
                None,
                states[i + 1],
            )
        }),
{
}

/// A removal ends with the best route found anew, and with nothing else changed.
pub proof fn removals_find_the_best_route_anew(before: RouterCore, sequence: u32, after: RouterCore)
    requires
        is_refreshed(before, sequence, after),
    ensures
        after.best_route == best_name(before, sequence),
        after.events@ == before.events@ + best_events(before, sequence),
        after.routes == before.routes && after.route_names == before.route_names,
        after.route_count == before.route_count && after.total_routed == before.total_routed,
        after.aliases == before.aliases && after.scores == before.scores,
        after.metadata == before.metadata && after.dependencies == before.dependencies,
        after.admin == before.admin && after.paused == before.paused,
{
}

/// An entry of a registration names the zero address exactly if it holds that text.
pub proof fn the_zero_address_is_one_text(routes: Seq<RouteRegisterInput>)
    ensures
        names_zero_address(routes) <==> exists|i: int|
            0 <= i < routes.len() && (#[trigger] routes[i]).address@
                == "GAAAAAAAAAAAAAAAAAAAAAAAAAAAAAAAAAAAAAAAAAAAAAAAAAAAAWHF"@,
{
}

/// There is a first entry that cannot be registered exactly if some entry cannot, and there is
/// only one. Routes can be registered as a whole exactly if no name is refused or repeated and no
/// address is the zero address.
pub proof fn one_refused_entry_is_the_first(
    router: RouterCore,
    routes: Seq<RouteRegisterInput>,
    i: int,
    j: int,
)
    ensures
        router.refuses_none(routes) <==> forall|k: int|
            0 <= k < routes.len() ==> router.name_fault((#[trigger] routes[k]).name@) is None
                && !(exists|l: int| 0 <= l < k && (#[trigger] routes[l]).name@ == routes[k].name@),
        router.registers_all(routes) <==> router.refuses_none(routes) && !names_zero_address(routes),
        !router.refuses_none(routes) <==> exists|k: int| #[trigger] router.first_refused(routes, k),
        router.first_refused(routes, i) && router.first_refused(routes, j) ==> i == j,
        router.first_refused(routes, i) && 0 <= j < i ==> router.entry_fault(routes, j) is None,
        router.first_refused(routes, i) ==> 0 <= i < routes.len() && router.entry_fault(
            routes,
            i,
        ) is Some,
{
    assert forall|k: int| 0 <= k < routes.len() implies (router.entry_fault(routes, k) is None) == (
    router.name_fault((#[trigger] routes[k]).name@) is None && !(exists|l: int|
        0 <= l < k && (#[trigger] routes[l]).name@ == routes[k].name@)) by {
        let earlier = requested_names(routes.take(k));
        assert forall|l: int| 0 <= l < k implies #[trigger] earlier[l] == routes[l].name by {}
        if exists|l: int| 0 <= l < k && (#[trigger] routes[l]).name@ == routes[k].name@ {
            let l = choose|l: int| 0 <= l < k && (#[trigger] routes[l]).name@ == routes[k].name@;
            assert(earlier[l]@ == routes[k].name@);
            assert(lists(earlier, routes[k].name@));
        }
    }
    if !router.refuses_none(routes) {
        let k = choose|k: int| 0 <= k < routes.len() && #[trigger] router.entry_fault(
            routes,
            k,
        ) is Some;
        lemma_first_refused(router, routes, k);
    }
}

/// Before a refused entry, or at it, is the first one.
proof fn lemma_first_refused(router: RouterCore, routes: Seq<RouteRegisterInput>, k: int)
    requires
        0 <= k < routes.len(),
        router.entry_fault(routes, k) is Some,
    ensures
        exists|i: int| #[trigger] router.first_refused(routes, i),
    decreases k,
{
    if forall|j: int| 0 <= j < k ==> #[trigger] router.entry_fault(routes, j) is None {
        assert(router.first_refused(routes, k));
    } else {
        let j = choose|j: int| 0 <= j < k && #[trigger] router.entry_fault(routes, j) is Some;
        lemma_first_refused(router, routes, j);
    }
}

/// There is a first entry that is no route exactly if some entry is none, and there is only one.
pub proof fn one_missing_entry_is_the_first(
    router: RouterCore,
    names: Seq<String>,
    i: int,
    j: int,
)
    ensures
        router.misses_none(names) <==> forall|k: int|
            0 <= k < names.len() ==> router.routes@.contains_key((#[trigger] names[k])@),
        !router.misses_none(names) <==> exists|k: int| #[trigger] router.first_missing(names, k),
        router.first_missing(names, i) && router.first_missing(names, j) ==> i == j,
        router.first_missing(names, i) ==> 0 <= i < names.len() && !router.routes@.contains_key(
            names[i]@,
        ),
        router.first_missing(names, i) && 0 <= j < i ==> router.routes@.contains_key(names[j]@),
{
    if !router.misses_none(names) {
        let k = choose|k: int|
            0 <= k < names.len() && !router.routes@.contains_key((#[trigger] names[k])@);
        lemma_first_missing(router, names, k);
    }
    if router.first_missing(names, i) && router.first_missing(names, j) {
        if i < j {
            assert(router.routes@.contains_key(names[i]@));
        } else if j < i {
            assert(router.routes@.contains_key(names[j]@));
        }
    }
    if exists|k: int| #[trigger] router.first_missing(names, k) {
        let k = choose|k: int| #[trigger] router.first_missing(names, k);
        assert(!router.routes@.contains_key(names[k]@));
    }
}

/// Before an entry that is no route, or at it, is the first one.
proof fn lemma_first_missing(router: RouterCore, names: Seq<String>, k: int)
    requires
        0 <= k < names.len(),
        !router.routes@.contains_key(names[k]@),
    ensures
        exists|i: int| #[trigger] router.first_missing(names, i),
    decreases k,
{
    if forall|j: int| 0 <= j < k ==> router.routes@.contains_key((#[trigger] names[j])@) {
        assert(router.first_missing(names, k));
    } else {
        let j = choose|j: int|
            0 <= j < k && !router.routes@.contains_key((#[trigger] names[j])@);
        lemma_first_missing(router, names, j);
    }
}

/// Routes can be removed as a whole exactly if every name is that of a route, none is repeated,
/// and what depends on a route goes before it. Otherwise there is one first entry that cannot be
/// removed behind those before it.
pub proof fn one_clashing_removal_is_the_first(
    router: RouterCore,
    names: Seq<String>,
    i: int,
    j: int,
)
    ensures
        router.removes_all(names) <==> router.misses_none(names) && !(exists|k: int|
            #[trigger] router.first_removal_clash(names, k)),
        router.removes_all(names) <==> router.misses_none(names) && forall|k: int|
            0 <= k < names.len() ==> {
                &&& !lists(names.take(k), (#[trigger] names[k])@)
                &&& !router.is_needed_beyond(names.take(k), names[k]@)
            },
        router.first_removal_clash(names, i) && router.first_removal_clash(names, j) ==> i == j,
        router.first_removal_clash(names, i) ==> 0 <= i < names.len() && router.removal_clash(
            names,
            i,
        ) is Some,
        router.first_removal_clash(names, i) && 0 <= j < i ==> router.removal_clash(
            names,
            j,
        ) is None,
{
    assert forall|k: int| 0 <= k < names.len() implies (router.removal_clash(names, k) is None)
        == (!lists(names.take(k), (#[trigger] names[k])@) && !router.is_needed_beyond(
        names.take(k),
        names[k]@,
    )) by {}
    if router.misses_none(names) && !router.removes_all(names) {
        let k = choose|k: int| 0 <= k < names.len() && #[trigger] router.removal_clash(
            names,
            k,
        ) is Some;
        lemma_first_removal_clash(router, names, k);
    }
}

/// Before an entry that clashes, or at it, is the first one.
proof fn lemma_first_removal_clash(router: RouterCore, names: Seq<String>, k: int)
    requires
        0 <= k < names.len(),
        router.removal_clash(names, k) is Some,
    ensures
        exists|i: int| #[trigger] router.first_removal_clash(names, i),
    decreases k,
{
    if forall|j: int| 0 <= j < k ==> #[trigger] router.removal_clash(names, j) is None {
        assert(router.first_removal_clash(names, k));
    } else {
        let j = choose|j: int| 0 <= j < k && #[trigger] router.removal_clash(names, j) is Some;
        lemma_first_removal_clash(router, names, j);
    }
}

} // verus!
