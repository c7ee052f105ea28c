//! What holds of registering, updating and removing routes, of their dependencies and tags,
//! and of batches of them.

use super::batch::{registration_step, removal_step};
use super::contract::{is_name, is_name_char, saturating_sum, valid_metadata};
use super::dependencies::{acyclic, circle_needs_the_route, dependencies_in, is_walk, reaches};
use super::dependency_order::{dependencies_come_first, resolves_all_that_is_needed};
use super::types::{
    RouteEntry, RouteMetadata, RouteRegisterInput, RouterCore, RouterError, RouterEvent,
};
use crate::common::Address;
use crate::text::{lemma_with_new, lists, with_new};
use vstd::prelude::*;

verus! {

/// What metadata are is every part of them.
pub proof fn metadata_are_all_their_parts(metadata: RouteMetadata)
    ensures
        metadata@.description == metadata.description@,
        metadata@.tags == metadata.tags@,
        metadata@.owner == metadata.owner@,
{
}

/// A route name is 1 to 64 characters long, and each of them is a lower-case or upper-case
/// letter of the English alphabet, a decimal digit, a hyphen or a slash.
pub proof fn names_are_short_and_plain(name: Seq<char>, c: char)
    ensures
        is_name_char(c) <==> 97 <= c as int <= 122 || 65 <= c as int <= 90 || 48 <= c as int <= 57
            || c as int == 45 || c as int == 47,
        is_name(name) ==> 1 <= name.len() <= 64,
        is_name(name) <==> 1 <= name.len() <= 64 && forall|i: int|
            0 <= i < name.len() ==> {
                let n = #[trigger] name[i] as int;
                97 <= n <= 122 || 65 <= n <= 90 || 48 <= n <= 57 || n == 45 || n == 47
            },
{
    if 1 <= name.len() <= 64 && (forall|i: int|
        0 <= i < name.len() ==> {
            let n = #[trigger] name[i] as int;
            97 <= n <= 122 || 65 <= n <= 90 || 48 <= n <= 57 || n == 45 || n == 47
        }) {
        assert forall|i: int| 0 <= i < name.len() implies is_name_char(#[trigger] name[i]) by {}
    }
    if is_name(name) {
        assert forall|i: int| 0 <= i < name.len() implies {
            let n = #[trigger] name[i] as int;
            97 <= n <= 122 || 65 <= n <= 90 || 48 <= n <= 57 || n == 45 || n == 47
        } by {
            assert(is_name_char(name[i]));
        }
    }
}

/// A name is free exactly if it is a route name and neither a route nor an alias has it; the
/// answer says which of these fails.
pub proof fn free_names_are_new(core: RouterCore, name: Seq<char>)
    ensures
        core.name_fault(name) is None <==> is_name(name) && !core.routes@.contains_key(name)
            && !core.aliases@.contains_key(name),
        core.name_fault(name) == Some(RouterError::InvalidRouteName) <==> !is_name(name),
        core.name_fault(name) == Some(RouterError::RouteAlreadyExists) <==> is_name(name) && (
        core.routes@.contains_key(name) || core.aliases@.contains_key(name)),
{
}

/// A route can be registered exactly under a free name, with an address that is not the zero
/// address, and with metadata whose description has at most 256 characters and which have at
/// most five tags.
pub proof fn registrable_routes(
    core: RouterCore,
    name: Seq<char>,
    address: Seq<char>,
    metadata: Option<RouteMetadata>,
)
    ensures
        core.registration_fault(name, address, metadata) is None <==> core.name_fault(name) is None
            && address != "GAAAAAAAAAAAAAAAAAAAAAAAAAAAAAAAAAAAAAAAAAAAAAAAAAAAAWHF"@ && (
        metadata is Some ==> metadata->0.description@.len() <= 256 && metadata->0.tags@.len() <= 5),
        core.name_fault(name) is Some ==> core.registration_fault(name, address, metadata)
            == core.name_fault(name),
        core.name_fault(name) is None && address
            == "GAAAAAAAAAAAAAAAAAAAAAAAAAAAAAAAAAAAAAAAAAAAAAAAAAAAAWHF"@
            ==> core.registration_fault(name, address, metadata) == Some(
            RouterError::InvalidAddress,
        ),
        metadata is Some ==> (valid_metadata(metadata->0) <==> metadata->0.description@.len() <= 256
            && metadata->0.tags@.len() <= 5),
        core.registration_fault(name, address, metadata) is Some && core.name_fault(name) is None
            && address != "GAAAAAAAAAAAAAAAAAAAAAAAAAAAAAAAAAAAAAAAAAAAAAAAAAAAAWHF"@
            ==> core.registration_fault(name, address, metadata) == Some(
            RouterError::InvalidMetadata,
        ),
{
}

/// A registered route is there under its name, with its address, unpaused; it is listed last
/// and counted; every other route, its metadata and everything else stays as it was.
pub proof fn registration_adds_one_route(
    before: RouterCore,
    caller: Address,
    name: String,
    address: Address,
    metadata: Option<RouteMetadata>,
    expires_at: Option<u32>,
    after: RouterCore,
    other: Seq<char>,
)
    requires
        before.is_registered(caller, name, address, metadata, expires_at, after),
        before.route_count < u32::MAX,
        other != name@,
    ensures
        ({
            let entry = after.routes@[name@];
            &&& after.routes@.contains_key(name@)
            &&& entry.address == address && entry.name == name && !entry.paused
            &&& entry.updated_by == caller && entry.expires_at == expires_at
        }),
        after.route_names@.len() == before.route_names@.len() + 1,
        after.route_names@.last() == name,
        after.route_names@.drop_last() == before.route_names@,
        after.route_count == before.route_count + 1,
        metadata matches Some(m) ==> after.metadata@.contains_key(name@) && after.metadata@[name@]
            == m,
        metadata is None ==> after.metadata@ == before.metadata@,
        after.routes@.contains_key(other) == before.routes@.contains_key(other),
        before.routes@.contains_key(other) ==> after.routes@[other] == before.routes@[other],
        after.metadata@.contains_key(other) == before.metadata@.contains_key(other),
        before.metadata@.contains_key(other) ==> after.metadata@[other] == before.metadata@[other],
        after.aliases == before.aliases && after.scores == before.scores,
        after.dependencies == before.dependencies && after.best_route == before.best_route,
        after.paused == before.paused && after.total_routed == before.total_routed,
        after.events@ == before.events@.push(RouterEvent::RouteRegistered { name, address }),
{
    assert(after.route_names@.drop_last() =~= before.route_names@);
}

/// Updating the entry of a route touches no other route.
pub proof fn update_touches_one_route(
    before: RouterCore,
    name: String,
    entry: RouteEntry,
    after: RouterCore,
    other: Seq<char>,
)
    requires
        before.is_updated(name, entry, after),
    ensures
        after.routes@[name@] == entry,
        other != name@ ==> after.routes@.contains_key(other) == before.routes@.contains_key(other),
        other != name@ && before.routes@.contains_key(other) ==> after.routes@[other]
            == before.routes@[other],
        after.route_names == before.route_names && after.aliases == before.aliases,
        after.best_route == before.best_route && after.scores == before.scores,
{
}

/// A ledger number that is moved on moves by exactly as much, and stops at the largest one.
pub proof fn expiry_moves_by_as_much(a: u32, b: u32)
    ensures
        a + b <= u32::MAX ==> saturating_sum(a, b) == a + b,
        a + b > u32::MAX ==> saturating_sum(a, b) == u32::MAX,
{
}

/// A route can be removed exactly if it is registered and no other registered route lists it
/// among its dependencies.
pub proof fn removable_routes(core: RouterCore, name: Seq<char>)
    ensures
        core.removal_fault(name) == Some(RouterError::RouteNotFound) <==> !core.routes@.contains_key(
            name,
        ),
        core.removal_fault(name) == Some(RouterError::RouteInUse) <==> core.routes@.contains_key(
            name,
        ) && exists|i: int, k: int|
            {
                &&& 0 <= i < core.route_names@.len()
                &&& core.route_names@[i]@ != name
                &&& core.dependencies@.contains_key(core.route_names@[i]@)
                &&& 0 <= k < core.dependencies@[core.route_names@[i]@]@.len()
                &&& (#[trigger] core.dependencies@[(#[trigger] core.route_names@[i])@]@[k])@ == name
            },
        core.removal_fault(name) is Some ==> core.removal_fault(name)->0
            == RouterError::RouteNotFound || core.removal_fault(name)->0 == RouterError::RouteInUse,
{
    if core.is_needed(name) {
        let i = choose|i: int|
            0 <= i < core.route_names@.len() && (#[trigger] core.route_names@[i])@ != name && lists(
                core.dependencies_of(core.route_names@[i]@),
                name,
            );
        let deps = core.dependencies_of(core.route_names@[i]@);
        let k = choose|k: int| 0 <= k < deps.len() && (#[trigger] deps[k])@ == name;
        assert(core.dependencies@[core.route_names@[i]@]@[k]@ == name);
    }
    if exists|i: int, k: int|
        {
            &&& 0 <= i < core.route_names@.len()
            &&& core.route_names@[i]@ != name
            &&& core.dependencies@.contains_key(core.route_names@[i]@)
            &&& 0 <= k < core.dependencies@[core.route_names@[i]@]@.len()
            &&& (#[trigger] core.dependencies@[(#[trigger] core.route_names@[i])@]@[k])@ == name
        } {
        let (i, k) = choose|i: int, k: int|
            {
                &&& 0 <= i < core.route_names@.len()
                &&& core.route_names@[i]@ != name
                &&& core.dependencies@.contains_key(core.route_names@[i]@)
                &&& 0 <= k < core.dependencies@[core.route_names@[i]@]@.len()
                &&& (#[trigger] core.dependencies@[(#[trigger] core.route_names@[i])@]@[k])@ == name
            };
        let deps = core.dependencies_of(core.route_names@[i]@);
        assert(deps[k]@ == name);
        assert(lists(core.dependencies_of(core.route_names@[i]@), name));
        assert(core.is_needed(name));
    }
}

/// Removing a route takes away its entry, its metadata, its name in the list and the aliases
/// that point to it, and leaves every other route, alias and name as it was.
pub proof fn removal_takes_one_route(
    before: RouterCore,
    name: Seq<char>,
    after: RouterCore,
    other: Seq<char>,
)
    requires
        before.is_detached(name, after),
        other != name,
    ensures
        !after.routes@.contains_key(name),
        !after.metadata@.contains_key(name),
        !lists(after.route_names@, name),
        before.route_count > 0 ==> after.route_count == before.route_count - 1,
        before.route_count == 0 ==> after.route_count == 0,
        after.routes@.contains_key(other) == before.routes@.contains_key(other),
        before.routes@.contains_key(other) ==> after.routes@[other] == before.routes@[other],
        after.metadata@.contains_key(other) == before.metadata@.contains_key(other),
        before.metadata@.contains_key(other) ==> after.metadata@[other] == before.metadata@[other],
        lists(after.route_names@, other) == lists(before.route_names@, other),
        forall|alias: Seq<char>| #[trigger]
            after.aliases@.contains_key(alias) <==> before.aliases@.contains_key(alias)
                && before.aliases@[alias]@ != name,
        forall|alias: Seq<char>| #[trigger]
            after.aliases@.contains_key(alias) ==> after.aliases@[alias] == before.aliases@[alias],
        after.scores == before.scores && after.paused == before.paused,
        after.total_routed == before.total_routed && after.admin == before.admin,
{
    crate::text::lemma_others(before.route_names@, name);
}

/// In a batch every entry is tried as it would be alone, on what the entries before it have
/// left: where it would fail, nothing changes.
pub proof fn batch_steps_are_single_operations(
    before: RouterCore,
    caller: Address,
    route: RouteRegisterInput,
    name: String,
    after: RouterCore,
)
    ensures
        registration_step(before, caller, route, after) && before.registration_fault(
            route.name@,
            route.address@,
            None,
        ) is Some ==> after == before,
        registration_step(before, caller, route, after) && before.registration_fault(
            route.name@,
            route.address@,
            None,
        ) is None ==> after.routes@.contains_key(route.name@) && after.routes@[route.name@].address
            == route.address && after.routes@[route.name@].expires_at is None
            && after.routes@.dom() == before.routes@.dom().insert(route.name@),
        removal_step(before, name, after) && before.removal_fault(name@) is Some ==> after == before,
        removal_step(before, name, after) && before.removal_fault(name@) is None
            ==> after.routes@.dom() == before.routes@.dom().remove(name@)
            && !after.dependencies@.contains_key(name@),
{
    if registration_step(before, caller, route, after) && before.registration_fault(
        route.name@,
        route.address@,
        None,
    ) is None {
        assert(after.routes@.dom() =~= before.routes@.dom().insert(route.name@));
    }
    if removal_step(before, name, after) && before.removal_fault(name@) is None {
        assert(after.routes@.dom() =~= before.routes@.dom().remove(name@));
    }
}

/// A route can be made to depend on another exactly if both are registered and the other does
/// not need the route already: neither is it the route, nor does a path of dependencies, each
/// listing the next, lead from it to the route.
pub proof fn dependencies_never_close_a_circle(
    core: RouterCore,
    route: Seq<char>,
    depends_on: Seq<char>,
    path: Seq<Seq<char>>,
)
    requires
        acyclic(core.dependencies@),
        core.routes@.contains_key(route),
        core.routes@.contains_key(depends_on),
    ensures
        path.len() > 0 && path.first() == depends_on && path.last() == route && (forall|i: int|
            0 <= i < path.len() - 1 ==> {
                &&& core.dependencies@.contains_key(#[trigger] path[i])
                &&& exists|k: int|
                    0 <= k < core.dependencies@[path[i]]@.len() && (
                    #[trigger] core.dependencies@[path[i]]@[k])@ == path[i + 1]
            }) ==> core.dependency_fault(route, depends_on) == Some(
            RouterError::CircularDependency,
        ),
        core.dependency_fault(route, depends_on) is Some ==> core.dependency_fault(route, depends_on)
            == Some(RouterError::CircularDependency) && reaches(
            core.dependencies@,
            depends_on,
            route,
        ),
{
    let known = core.dependencies@;
    circle_needs_the_route(known, route, depends_on);
    if path.len() > 0 && path.first() == depends_on && path.last() == route && (forall|i: int|
        0 <= i < path.len() - 1 ==> {
            &&& known.contains_key(#[trigger] path[i])
            &&& exists|k: int|
                0 <= k < known[path[i]]@.len() && (#[trigger] known[path[i]]@[k])@ == path[i + 1]
        }) {
        assert forall|i: int| 0 <= i < path.len() - 1 implies lists(
            dependencies_in(known, #[trigger] path[i]),
            path[i + 1],
        ) by {
            let k = choose|k: int|
                0 <= k < known[path[i]]@.len() && (#[trigger] known[path[i]]@[k])@ == path[i + 1];
            assert(dependencies_in(known, path[i])[k]@ == path[i + 1]);
        }
        assert(is_walk(known, path));
    }
}

/// One route leads to another exactly along a path of registered dependencies, each listing
/// the next.
pub proof fn reaching_follows_listed_dependencies(
    core: RouterCore,
    from: Seq<char>,
    next: Seq<char>,
    to: Seq<char>,
    k: int,
)
    requires
        core.dependencies@.contains_key(from),
        0 <= k < core.dependencies@[from]@.len(),
        core.dependencies@[from]@[k]@ == next,
    ensures
        reaches(core.dependencies@, to, to),
        reaches(core.dependencies@, from, next),
        reaches(core.dependencies@, next, to) ==> reaches(core.dependencies@, from, to),
{
    let known = core.dependencies@;
    assert(is_walk(known, seq![to]));
    assert(seq![to].first() == to && seq![to].last() == to);
    assert(dependencies_in(known, from)[k]@ == next);
    assert(lists(dependencies_in(known, from), next));
    let direct = seq![from, next];
    assert(is_walk(known, direct));
    assert(direct.first() == from && direct.last() == next);
    if reaches(known, next, to) {
        let path = choose|path: Seq<Seq<char>>|
            #[trigger] is_walk(known, path) && path.first() == next && path.last() == to;
        let longer = seq![from] + path;
        assert forall|i: int| 0 <= i < longer.len() - 1 implies lists(
            dependencies_in(known, #[trigger] longer[i]),
            longer[i + 1],
        ) by {
            if i > 0 {
                assert(longer[i] == path[i - 1]);
                assert(longer[i + 1] == path[i]);
            }
        }
        assert(is_walk(known, longer));
        assert(longer.first() == from && longer.last() == to);
    }
}

/// What is resolved with a route holds each of its direct dependencies, with the address of its
/// route, before the route itself, which comes once; and it fails exactly if one of what is
/// needed is not registered or paused.
pub proof fn route_is_resolved_behind_its_dependencies(core: RouterCore, name: String, k: int)
    requires
        core.wf(),
        core.dependencies@.contains_key(name@),
        0 <= k < core.dependencies@[name@]@.len(),
    ensures
        ({
            let order = with_new(seq![], core.with_dependencies(name));
            let needed = core.dependencies@[name@]@[k]@;
            &&& exists|i: int, j: int|
                0 <= i < j < order.len() && (#[trigger] order[i])@ == needed && (
                #[trigger] order[j])@ == name@
            &&& core.addressed(order).len() == order.len()
            &&& forall|i: int|
                0 <= i < order.len() ==> (#[trigger] core.addressed(order)[i]).0 == order[i]
                    && core.addressed(order)[i].1 == core.routes@[order[i]@].address
        }),
{
    let order = with_new(seq![], core.with_dependencies(name));
    let needed = core.dependencies@[name@]@[k]@;
    reaching_follows_listed_dependencies(core, name@, needed, name@, k);
    resolves_all_that_is_needed(core, name, name@);
    dependencies_come_first(core, name);
    let j = choose|j: int| 0 <= j < order.len() && (#[trigger] order[j])@ == name@;
    let deps = dependencies_in(core.dependencies@, order[j]@);
    assert(deps[k]@ == needed);
    assert(lists(order.take(j), needed));
    let i = choose|i: int| 0 <= i < order.take(j).len() && (#[trigger] order.take(j)[i])@ == needed;
    assert(order[i]@ == needed);
}

/// The fault of a list of routes is that of the first that has one: not found where it is not
/// registered, else paused.
pub proof fn first_unusable_route_decides(core: RouterCore, names: Seq<String>, k: int)
    ensures
        (forall|j: int|
            0 <= j < names.len() ==> core.routes@.contains_key((#[trigger] names[j])@)
                && !core.routes@[names[j]@].paused) ==> core.first_fault(names) is None,
        0 <= k < names.len() && (forall|j: int|
            0 <= j < k ==> core.routes@.contains_key((#[trigger] names[j])@)
                && !core.routes@[names[j]@].paused) ==> {
            &&& !core.routes@.contains_key(names[k]@) ==> core.first_fault(names) == Some(
                RouterError::RouteNotFound,
            )
            &&& core.routes@.contains_key(names[k]@) && core.routes@[names[k]@].paused
                ==> core.first_fault(names) == Some(RouterError::RoutePaused)
        },
    decreases names.len(),
{
    if names.len() > 0 {
        let rest = names.drop_last();
        assert forall|j: int| 0 <= j < rest.len() implies #[trigger] rest[j] == names[j] by {}
        first_unusable_route_decides(core, rest, k);
        assert(core.routes@.contains_key(names[names.len() - 1]@)
            || !core.routes@.contains_key(names[names.len() - 1]@));
    }
}

/// A route is found by a tag exactly if its metadata list the tag; of two lists of routes in a
/// row first those of the first are found.
pub proof fn routes_are_found_by_their_tags(
    core: RouterCore,
    a: Seq<String>,
    b: Seq<String>,
    one: String,
    tag: Seq<char>,
)
    ensures
        core.tagged(a + b, tag) == core.tagged(a, tag) + core.tagged(b, tag),
        core.tagged(seq![one], tag) == if core.metadata@.contains_key(one@) && exists|k: int|
            0 <= k < core.metadata@[one@].tags@.len() && (
            #[trigger] core.metadata@[one@].tags@[k])@ == tag {
            seq![one]
        } else {
            Seq::<String>::empty()
        },
        core.tagged(seq![], tag) == Seq::<String>::empty(),
    decreases b.len(),
{
    let single = seq![one];
    assert(single.drop_last() =~= Seq::<String>::empty());
    assert(core.tagged(single.drop_last(), tag) =~= Seq::<String>::empty());
    assert(core.tagged(single, tag) =~= if lists(core.tags_of(one@), tag) {
        single
    } else {
        Seq::<String>::empty()
    });
    if b.len() == 0 {
        assert(a + b =~= a);
        assert(core.tagged(a, tag) + core.tagged(b, tag) =~= core.tagged(a, tag));
    } else {
        routes_are_found_by_their_tags(core, a, b.drop_last(), one, tag);
        assert((a + b).drop_last() =~= a + b.drop_last());
        assert((a + b).last() == b.last());
        assert(core.tagged(a + b, tag) =~= core.tagged(a, tag) + core.tagged(b, tag));
    }
}

/// A tag is reported for a list of routes exactly if the metadata of one of them list it.
pub proof fn all_tags_are_those_of_the_routes(core: RouterCore, names: Seq<String>, tag: Seq<char>)
    ensures
        lists(core.tags_of_all(names), tag) <==> exists|i: int|
            0 <= i < names.len() && core.metadata@.contains_key((#[trigger] names[i])@) && lists(
                core.metadata@[names[i]@].tags@,
                tag,
            ),
    decreases names.len(),
{
    if names.len() > 0 {
        let rest = names.drop_last();
        all_tags_are_those_of_the_routes(core, rest, tag);
        lemma_with_new(core.tags_of_all(rest), core.tags_of(names.last()@), tag);
        if lists(core.tags_of_all(rest), tag) {
            let i = choose|i: int|
                0 <= i < rest.len() && core.metadata@.contains_key((#[trigger] rest[i])@) && lists(
                    core.metadata@[rest[i]@].tags@,
                    tag,
                );
            assert(core.metadata@.contains_key(names[i]@));
        }
        if lists(core.tags_of(names.last()@), tag) {
            assert(core.metadata@.contains_key(names[names.len() - 1]@));
        }
        if exists|i: int|
            0 <= i < names.len() && core.metadata@.contains_key((#[trigger] names[i])@) && lists(
                core.metadata@[names[i]@].tags@,
                tag,
            ) {
            let i = choose|i: int|
                0 <= i < names.len() && core.metadata@.contains_key((#[trigger] names[i])@)
                    && lists(core.metadata@[names[i]@].tags@, tag);
            if i < rest.len() {
                assert(core.metadata@.contains_key(rest[i]@));
            }
        }
    }
}

/// A registered route takes one more tag unless it would then have more than five, or its
/// description is too long; a tag that it has already is no fault.
pub proof fn routes_take_five_tags(
    core: RouterCore,
    name: Seq<char>,
    caller: Address,
    tag: Seq<char>,
)
    requires
        core.routes@.contains_key(name),
    ensures
        !core.metadata@.contains_key(name) ==> core.tag_fault(name, caller, tag) is None,
        core.metadata@.contains_key(name) ==> {
            let (tags, description) = (
                core.metadata@[name].tags@,
                core.metadata@[name].description@,
            );
            &&& lists(tags, tag) ==> core.tag_fault(name, caller, tag) is None
            &&& !lists(tags, tag) && tags.len() < 5 && description.len() <= 256 ==> core.tag_fault(
                name,
                caller,
                tag,
            ) is None
            &&& !lists(tags, tag) && (tags.len() >= 5 || description.len() > 256)
                ==> core.tag_fault(name, caller, tag) == Some(RouterError::InvalidMetadata)
        },
{
    reveal_strlit("");
}

/// A route that is not registered takes no tag.
pub proof fn unknown_routes_take_no_tag(
    core: RouterCore,
    name: Seq<char>,
    caller: Address,
    tag: Seq<char>,
)
    requires
        !core.routes@.contains_key(name),
    ensures
        core.tag_fault(name, caller, tag) == Some(RouterError::RouteNotFound),
{
}

/// A first tag brings metadata with it that are empty but for their owner, who is the caller.
pub proof fn first_tag_brings_empty_metadata(core: RouterCore, name: Seq<char>, caller: Address)
    ensures
        core.metadata@.contains_key(name) ==> core.metadata_or_new(name, caller)
            == core.metadata@[name]@,
        !core.metadata@.contains_key(name) ==> core.metadata_or_new(name, caller).tags.len() == 0
            && core.metadata_or_new(name, caller).description.len() == 0 && core.metadata_or_new(
            name,
            caller,
        ).owner == caller@,
{
    reveal_strlit("");
}

/// In a batch that is to be registered as a whole, an entry is refused exactly if its name is
/// not free, or an entry before it has the same.
pub proof fn repeated_names_are_refused(core: RouterCore, routes: Seq<RouteRegisterInput>, i: int)
    requires
        0 <= i < routes.len(),
    ensures
        core.entry_fault(routes, i) is None <==> core.name_fault(routes[i].name@) is None
            && forall|j: int| 0 <= j < i ==> (#[trigger] routes[j]).name@ != routes[i].name@,
        (exists|j: int| 0 <= j < i && (#[trigger] routes[j]).name@ == routes[i].name@)
            ==> core.entry_fault(routes, i) == Some(RouterError::RouteAlreadyExists),
{
    let names = super::batch::requested_names(routes.take(i));
    assert(names.len() == i);
    assert forall|j: int| 0 <= j < i implies #[trigger] names[j] == routes[j].name by {}
    if lists(names, routes[i].name@) {
        let j = choose|j: int| 0 <= j < names.len() && (#[trigger] names[j])@ == routes[i].name@;
        assert(routes[j].name@ == routes[i].name@);
    }
    if exists|j: int| 0 <= j < i && (#[trigger] routes[j]).name@ == routes[i].name@ {
        let j = choose|j: int| 0 <= j < i && (#[trigger] routes[j]).name@ == routes[i].name@;
        assert(names[j]@ == routes[i].name@);
    }
}

/// In a batch that is to be removed as a whole, an entry clashes exactly if an entry before it
/// has the same name, or a route that is not removed before it lists it as a dependency.
pub proof fn removals_clash_with_what_stays(core: RouterCore, names: Seq<String>, i: int)
    requires
        0 <= i < names.len(),
    ensures
        core.removal_clash(names, i) == Some(RouterError::RouteNotFound) <==> exists|j: int|
            0 <= j < i && (#[trigger] names[j])@ == names[i]@,
        core.removal_clash(names, i) == Some(RouterError::RouteInUse) <==> (forall|j: int|
            0 <= j < i ==> (#[trigger] names[j])@ != names[i]@) && exists|k: int|
            {
                &&& 0 <= k < core.route_names@.len()
                &&& (#[trigger] core.route_names@[k])@ != names[i]@
                &&& forall|j: int|
                    0 <= j < i ==> (#[trigger] names[j])@ != core.route_names@[k]@
                &&& core.dependencies@.contains_key(core.route_names@[k]@)
                &&& lists(core.dependencies@[core.route_names@[k]@]@, names[i]@)
            },
{
    let gone = names.take(i);
    assert forall|j: int| 0 <= j < i implies #[trigger] names[j] == gone[j] by {}
    assert forall|text: Seq<char>| lists(gone, text) == exists|j: int|
        0 <= j < i && (#[trigger] names[j])@ == text by {
        if lists(gone, text) {
            let j = choose|j: int| 0 <= j < gone.len() && (#[trigger] gone[j])@ == text;
            assert(names[j]@ == text);
        }
        if exists|j: int| 0 <= j < i && (#[trigger] names[j])@ == text {
            let j = choose|j: int| 0 <= j < i && (#[trigger] names[j])@ == text;
            assert(gone[j]@ == text);
        }
    }
    assert(lists(gone, names[i]@) == exists|j: int| 0 <= j < i && (#[trigger] names[j])@ == names[i]@);
    if core.is_needed_beyond(gone, names[i]@) {
        let k = choose|k: int|
            0 <= k < core.route_names@.len() && (#[trigger] core.route_names@[k])@ != names[i]@
                && !lists(gone, core.route_names@[k]@) && lists(
                core.dependencies_of(core.route_names@[k]@),
                names[i]@,
            );
        assert forall|j: int| 0 <= j < i implies (#[trigger] names[j])@ != core.route_names@[k]@ by {
            assert(lists(gone, gone[j]@)) by {
                assert(gone[j]@ == gone[j]@);
            }
        }
        assert(core.route_names@[k]@ != names[i]@);
    }
    if exists|k: int|
        {
            &&& 0 <= k < core.route_names@.len()
            &&& (#[trigger] core.route_names@[k])@ != names[i]@
            &&& forall|j: int| 0 <= j < i ==> (#[trigger] names[j])@ != core.route_names@[k]@
            &&& core.dependencies@.contains_key(core.route_names@[k]@)
            &&& lists(core.dependencies@[core.route_names@[k]@]@, names[i]@)
        } {
        let k = choose|k: int|
            {
                &&& 0 <= k < core.route_names@.len()
                &&& (#[trigger] core.route_names@[k])@ != names[i]@
                &&& forall|j: int| 0 <= j < i ==> (#[trigger] names[j])@ != core.route_names@[k]@
                &&& core.dependencies@.contains_key(core.route_names@[k]@)
                &&& lists(core.dependencies@[core.route_names@[k]@]@, names[i]@)
            };
        assert(!lists(gone, core.route_names@[k]@));
        assert(lists(core.dependencies_of(core.route_names@[k]@), names[i]@));
        assert(core.is_needed_beyond(gone, names[i]@));
    }
}

/// Nobody but the admin passes, and nobody at all before there is one; a route can only depend on
/// a route.
pub proof fn only_routes_depend_and_only_the_admin_says(
    core: RouterCore,
    caller: Address,
    route: Seq<char>,
    depends_on: Seq<char>,
)
    ensures
        core.admin is None ==> core.admin_fault(caller) == Some(RouterError::NotInitialized),
        core.admin is Some && core.admin->0@ != caller@ ==> core.admin_fault(caller) == Some(
            RouterError::Unauthorized,
        ),
        core.admin is Some && core.admin->0@ == caller@ ==> core.admin_fault(caller) is None,
        core.dependency_fault(route, depends_on) == Some(RouterError::RouteNotFound)
            <==> !core.routes@.contains_key(route) || !core.routes@.contains_key(depends_on),
{
}

} // verus!
