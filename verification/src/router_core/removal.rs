//! Removal of routes, and what goes with them.

use super::contract::{is_name, valid_metadata};
use super::dependencies::{dependencies_in, lemma_fewer_acyclic};
use super::scoring::{best_events, best_name, lemma_best_depends_on_routes, recompute_best_route};
use super::types::{RouterCore, RouterError, RouterEvent};
use crate::common::Address;
use crate::store::{lemma_first_value_witness, StoreKey};
use crate::text::{
    lemma_lists_push, lemma_others, lemma_others_distinct, list_contains, lists, others, same_text, without_text,
};
use vstd::prelude::*;

verus! {

/// The aliases that do not point to `route`.
pub open spec fn aliases_without(aliases: Map<Seq<char>, String>, route: Seq<char>) -> Map<
    Seq<char>,
    String,
> {
    Map::new(
        |alias: Seq<char>| aliases.contains_key(alias) && aliases[alias]@ != route,
        |alias: Seq<char>| aliases[alias],
    )
}

impl RouterCore {
    /// The direct dependencies of a route.
    pub open spec fn dependencies_of(self, route: Seq<char>) -> Seq<String> {
        dependencies_in(self.dependencies@, route)
    }

    /// Whether another registered route depends on `name`.
    pub open spec fn is_needed(self, name: Seq<char>) -> bool {
        exists|i: int|
            0 <= i < self.route_names@.len() && (#[trigger] self.route_names@[i])@ != name && lists(
                self.dependencies_of(self.route_names@[i]@),
                name,
            )
    }

    /// Why a route cannot be removed.
    pub open spec fn removal_fault(self, name: Seq<char>) -> Option<RouterError> {
        if !self.routes@.contains_key(name) {
            Some(RouterError::RouteNotFound)
        } else if self.is_needed(name) {
            Some(RouterError::RouteInUse)
        } else {
            None
        }
    }

    /// Whether `after` is `self` without a route: its entry, its metadata, its name and
    /// the aliases that point to it are gone.
    pub open spec fn is_detached(self, name: Seq<char>, after: RouterCore) -> bool {
        &&& after == (RouterCore {
            routes: after.routes,
            metadata: after.metadata,
            route_names: after.route_names,
            route_count: if self.route_count > 0 {
                (self.route_count - 1) as u32
            } else {
                0
            },
            aliases: after.aliases,
            ..self
        })
        &&& after.routes@ == self.routes@.remove(name)
        &&& after.metadata@ == self.metadata@.remove(name)
        &&& after.route_names@ == others(self.route_names@, name)
        &&& after.aliases@ == aliases_without(self.aliases@, name)
    }

    /// Checks that a route can be removed.
    fn check_removal(&self, name: &String) -> (r: Result<(), RouterError>)
        ensures
            r == (match self.removal_fault(name@) {
                Some(e) => Err(e),
                None => Ok(()),
            }),
    {
        if !self.routes.contains(name) {
            return Err(RouterError::RouteNotFound);
        }
        let mut i: usize = 0;
        while i < self.route_names.len()
            invariant
                i <= self.route_names@.len(),
                forall|j: int|
                    0 <= j < i && (#[trigger] self.route_names@[j])@ != name@ ==> !lists(
                        self.dependencies_of(self.route_names@[j]@),
                        name@,
                    ),
                self.routes@.contains_key(name@),
            decreases self.route_names@.len() - i,
        {
            if !same_text(self.route_names[i].as_str(), name.as_str()) {
                match self.dependencies.get(&self.route_names[i]) {
                    Some(dependencies) => {
                        if list_contains(dependencies, name.as_str()) {
                            proof {
                                assert(self.route_names@[i as int]@ != name@);
                                assert(self.is_needed(name@));
                            }
                            return Err(RouterError::RouteInUse);
                        }
                    },
                    None => {},
                }
            }
            i = i + 1;
        }
        Ok(())
    }

    /// Removes all aliases of a route.
    fn remove_aliases_for_route(&mut self, route: &str)
        ensures
            *final(self) == (RouterCore { aliases: final(self).aliases, ..*old(self) }),
            final(self).aliases@ == aliases_without(old(self).aliases@, route@),
    {
        let ghost before = self.aliases@;
        let mut doomed: Vec<String> = Vec::new();
        let mut i: usize = 0;
        while i < self.aliases.entries.len()
            invariant
                i <= self.aliases.entries@.len(),
                *self == *old(self),
                before == self.aliases@,
                forall|j: int|
                    0 <= j < doomed@.len() ==> before.contains_key((#[trigger] doomed@[j])@)
                        && before[doomed@[j]@]@ == route@,
                forall|j: int|
                    0 <= j < i ==> {
                        let alias = (#[trigger] self.aliases.entries@[j]).0@;
                        before.contains_key(alias) && before[alias]@ == route@ ==> lists(
                            doomed@,
                            alias,
                        )
                    },
            decreases self.aliases.entries@.len() - i,
        {
            let alias: String = self.aliases.entries[i].0.clone();
            let ghost listed = doomed@;
            let points_here: bool = match self.aliases.get(&alias) {
                Some(target) => same_text(target.as_str(), route),
                None => false,
            };
            if points_here {
                doomed.push(alias);
                proof {
                    assert forall|a: Seq<char>| lists(listed, a) implies lists(doomed@, a) by {
                        lemma_lists_push(listed, alias, a);
                    }
                    lemma_lists_push(listed, alias, alias@);
                }
            }
            i = i + 1;
        }
        let ghost names = doomed@;
        proof {
            assert forall|alias: Seq<char>|
                before.contains_key(alias) && before[alias]@ == route@ implies lists(names, alias) by {
                lemma_first_value_witness(self.aliases.entries@, alias);
                let j = choose|j: int|
                    0 <= j < self.aliases.entries@.len() && (
                    #[trigger] self.aliases.entries@[j]).0.id() == alias;
                assert(self.aliases.entries@[j].0@ == alias);
            }
        }
        let mut k: usize = 0;
        while k < doomed.len()
            invariant
                k <= doomed@.len(),
                doomed@ == names,
                *self == (RouterCore { aliases: self.aliases, ..*old(self) }),
                before == old(self).aliases@,
                forall|alias: Seq<char>| #[trigger]
                    self.aliases@.contains_key(alias) <==> before.contains_key(alias) && !lists(
                        names.take(k as int),
                        alias,
                    ),
                forall|alias: Seq<char>|
                    self.aliases@.contains_key(alias) ==> #[trigger] self.aliases@[alias]
                        == before[alias],
            decreases doomed@.len() - k,
        {
            let ghost earlier = self.aliases@;
            self.aliases.remove(&doomed[k]);
            proof {
                assert(names.take(k + 1) =~= names.take(k as int).push(names[k as int]));
                assert(self.aliases@ == earlier.remove(names[k as int]@));
                assert forall|alias: Seq<char>| #[trigger]
                    self.aliases@.contains_key(alias) <==> before.contains_key(alias) && !lists(
                        names.take(k + 1),
                        alias,
                    ) by {
                    lemma_lists_push(names.take(k as int), names[k as int], alias);
                    assert(earlier.contains_key(alias) <==> before.contains_key(alias) && !lists(
                        names.take(k as int),
                        alias,
                    ));
                }
            }
            k = k + 1;
        }
        proof {
            assert(names.take(k as int) =~= names);
            assert(self.aliases@ =~= aliases_without(before, route@));
        }
    }

    /// Takes a route out of all tables.
    fn detach(&mut self, name: &String)
        ensures
            old(self).is_detached(name@, *final(self)),
            old(self).tables_agree() && old(self).routes@.contains_key(name@)
                ==> final(self).tables_agree(),
    {
        self.routes.remove(name);
        self.metadata.remove(name);
        self.route_names = without_text(&self.route_names, name.as_str());
        self.route_count = self.route_count.saturating_sub(1);
        self.remove_aliases_for_route(name.as_str());
        proof {
            if old(self).tables_agree() && old(self).routes@.contains_key(name@) {
                lemma_detached_agree(*old(self), name@, *self);
            }
        }
    }

    /// Removes a route, and with it its aliases.
    ///
    /// # Errors
    /// * [`RouterError::NotInitialized`] if there is no admin.
    /// * [`RouterError::Unauthorized`] if the caller is not the admin.
    /// * [`RouterError::RouteNotFound`] if there is no such route.
    /// * [`RouterError::RouteInUse`] if another route depends on it.
    pub fn remove_route(&mut self, caller: &Address, name: String, sequence: u32) -> (r: Result<
        (),
        RouterError,
    >)
        ensures
            r == (match old(self).admin_fault(*caller) {
                Some(e) => Err(e),
                None => match old(self).removal_fault(name@) {
                    Some(e) => Err(e),
                    None => Ok(()),
                },
            }),
            r is Err ==> *final(self) == *old(self),
            r is Ok ==> {
                &&& old(self).is_detached(
                    name@,
                    RouterCore {
                        best_route: old(self).best_route,
                        events: old(self).events,
                        ..*final(self)
                    },
                )
                &&& final(self).best_route == best_name(*final(self), sequence)
                &&& final(self).events@ == (old(self).events@ + best_events(
                    *final(self),
                    sequence,
                )).push(RouterEvent::RouteRemoved { name })
            },
            old(self).wf() ==> final(self).wf(),
    {
        match self.require_admin(caller) {
            Err(e) => {
                return Err(e);
            },
            Ok(()) => {},
        }
        match self.check_removal(&name) {
            Err(e) => {
                return Err(e);
            },
            Ok(()) => {},
        }
        self.detach(&name);
        let ghost before = *self;
        recompute_best_route(self, sequence);
        self.events.push(RouterEvent::RouteRemoved { name });
        proof {
            lemma_best_depends_on_routes(before, *self, sequence);
        }
        Ok(())
    }

    /// Whether `after` is `self` without a route and its dependencies.
    pub open spec fn is_removed(self, name: String, after: RouterCore) -> bool {
        &&& self.is_detached(
            name@,
            RouterCore { dependencies: self.dependencies, events: self.events, ..after },
        )
        &&& after.dependencies@ == self.dependencies@.remove(name@)
        &&& after.events@ == self.events@.push(RouterEvent::RouteRemoved { name })
    }

    pub(crate) fn remove_route_internal(&mut self, name: &String) -> (r: Result<(), RouterError>)
        ensures
            r == (match old(self).removal_fault(name@) {
                Some(e) => Err(e),
                None => Ok(()),
            }),
            r is Err ==> *final(self) == *old(self),
            r is Ok ==> old(self).is_removed(*name, *final(self)),
            old(self).tables_agree() ==> final(self).tables_agree(),
    {
        match self.check_removal(name) {
            Err(e) => {
                return Err(e);
            },
            Ok(()) => {},
        }
        self.detach(name);
        self.dependencies.remove(name);
        self.events.push(RouterEvent::RouteRemoved { name: name.clone() });
        proof {
            if old(self).tables_agree() {
                lemma_fewer_acyclic(old(self).dependencies@, name@);
            }
        }
        Ok(())
    }
}

/// Taking a route out keeps the tables in agreement.
proof fn lemma_detached_agree(before: RouterCore, name: Seq<char>, after: RouterCore)
    requires
        before.tables_agree(),
        before.routes@.contains_key(name),
        before.is_detached(name, after),
    ensures
        after.tables_agree(),
{
    lemma_others(before.route_names@, name);
    lemma_others_distinct(before.route_names@, name);
    assert(lists(before.route_names@, name));
    assert forall|n: Seq<char>| #[trigger] after.routes@.contains_key(n) <==> lists(
        after.route_names@,
        n,
    ) by {
        if n != name {
            assert(lists(others(before.route_names@, name), n) == lists(before.route_names@, n));
            assert(before.routes@.contains_key(n) <==> lists(before.route_names@, n));
        }
    }
    assert forall|n: Seq<char>| #[trigger] after.routes@.contains_key(n) implies after.routes@[n].name@
        == n && is_name(n) by {
        assert(before.routes@.contains_key(n));
    }
    assert forall|alias: Seq<char>| #[trigger] after.aliases@.contains_key(
        alias,
    ) implies is_name(alias) && !after.routes@.contains_key(alias)
        && after.routes@.contains_key(after.aliases@[alias]@) by {
        assert(before.aliases@.contains_key(alias));
    }
    assert forall|n: Seq<char>| #[trigger] after.metadata@.contains_key(
        n,
    ) implies after.routes@.contains_key(n) && valid_metadata(
        after.metadata@[n],
    ) by {
        assert(before.metadata@.contains_key(n));
    }
}

} // verus!
