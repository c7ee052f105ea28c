//! Registration and removal of many routes at once.

use super::contract::ZERO_ADDRESS;
use super::scoring::{best_events, best_name, recompute_best_route};
use super::types::{RouteRegisterInput, RouterCore, RouterError};
use crate::common::{failure_views, failures_of, successes_of, Address, BatchResult};
use crate::text::{lemma_lists_push, lemma_others, list_contains, lists, same_text};
use vstd::prelude::*;

verus! {

/// The names of faults.
pub open spec fn fault_names(faults: Seq<Option<RouterError>>) -> Seq<Option<Seq<char>>> {
    faults.map_values(
        |fault: Option<RouterError>|
            match fault {
                Some(e) => Some(e.name()),
                None => None,
            },
    )
}

/// The name of what went wrong with an entry.
fn fault_name(outcome: &Result<(), RouterError>) -> (r: Option<&'static str>)
    ensures
        match (*outcome, r) {
            (Ok(()), None) => true,
            (Err(e), Some(name)) => name@ == e.name(),
            _ => false,
        },
{
    match outcome {
        Ok(()) => None,
        Err(e) => Some(e.router_error_message()),
    }
}

/// Whether `after` is `before` once its best route has been found anew.
pub open spec fn is_refreshed(before: RouterCore, sequence: u32, after: RouterCore) -> bool {
    &&& after == (RouterCore {
        best_route: best_name(before, sequence),
        events: after.events,
        ..before
    })
    &&& after.events@ == before.events@ + best_events(before, sequence)
}

/// Whether `after` is `before` once a route was removed, or nothing was changed where
/// the route could not be removed.
pub open spec fn removal_step(before: RouterCore, name: String, after: RouterCore) -> bool {
    if before.removal_fault(name@) is Some {
        after == before
    } else {
        before.is_removed(name, after)
    }
}

/// Whether `states` are those that a router goes through as routes are removed one
/// after the other.
pub open spec fn removal_run(states: Seq<RouterCore>, names: Seq<String>) -> bool {
    &&& states.len() == names.len() + 1
    &&& forall|i: int|
        0 <= i < names.len() ==> removal_step(states[i], #[trigger] names[i], states[i + 1])
}

/// Why each of the names could not be removed when its turn came.
pub open spec fn removal_faults(states: Seq<RouterCore>, names: Seq<String>) -> Seq<
    Option<RouterError>,
> {
    Seq::new(names.len(), |i: int| states[i].removal_fault(names[i]@))
}

/// Whether `after` is `before` once a route was registered, or nothing was changed
/// where the route could not be registered.
pub open spec fn registration_step(
    before: RouterCore,
    caller: Address,
    route: RouteRegisterInput,
    after: RouterCore,
) -> bool {
    if before.registration_fault(route.name@, route.address@, None) is Some {
        after == before
    } else {
        before.is_registered(caller, route.name, route.address, None, None, after)
    }
}

/// Whether `states` are those that a router goes through as routes are registered one
/// after the other.
pub open spec fn registration_run(
    states: Seq<RouterCore>,
    caller: Address,
    routes: Seq<RouteRegisterInput>,
) -> bool {
    &&& states.len() == routes.len() + 1
    &&& forall|i: int|
        0 <= i < routes.len() ==> registration_step(
            states[i],
            caller,
            #[trigger] routes[i],
            states[i + 1],
        )
}

/// Why each of the routes could not be registered when its turn came.
pub open spec fn registration_faults(
    states: Seq<RouterCore>,
    routes: Seq<RouteRegisterInput>,
) -> Seq<Option<RouterError>> {
    Seq::new(
        routes.len(),
        |i: int| states[i].registration_fault(routes[i].name@, routes[i].address@, None),
    )
}

/// The names of registration requests.
pub open spec fn requested_names(routes: Seq<RouteRegisterInput>) -> Seq<String> {
    routes.map_values(|route: RouteRegisterInput| route.name)
}

/// Whether a registration request holds the zero address.
pub open spec fn names_zero_address(routes: Seq<RouteRegisterInput>) -> bool {
    exists|i: int| 0 <= i < routes.len() && (#[trigger] routes[i]).address@ == ZERO_ADDRESS@
}

impl RouterCore {
    /// What is wrong with the name of entry `i` before anything of the batch is
    /// registered.
    pub open spec fn entry_fault(self, routes: Seq<RouteRegisterInput>, i: int) -> Option<
        RouterError,
    > {
        if lists(requested_names(routes.take(i)), routes[i].name@) {
            Some(RouterError::RouteAlreadyExists)
        } else {
            self.name_fault(routes[i].name@)
        }
    }

    /// Whether entry `i` is the first whose name cannot be registered.
    pub open spec fn first_refused(self, routes: Seq<RouteRegisterInput>, i: int) -> bool {
        &&& 0 <= i < routes.len()
        &&& self.entry_fault(routes, i) is Some
        &&& forall|j: int| 0 <= j < i ==> #[trigger] self.entry_fault(routes, j) is None
    }

    /// Whether entry `i` is the first that is no route.
    pub open spec fn first_missing(self, names: Seq<String>, i: int) -> bool {
        &&& 0 <= i < names.len()
        &&& !self.routes@.contains_key(names[i]@)
        &&& forall|j: int| 0 <= j < i ==> self.routes@.contains_key((#[trigger] names[j])@)
    }

    /// Whether a route other than those of `gone` depends on `name`.
    pub open spec fn is_needed_beyond(self, gone: Seq<String>, name: Seq<char>) -> bool {
        exists|i: int|
            0 <= i < self.route_names@.len() && (#[trigger] self.route_names@[i])@ != name
                && !lists(gone, self.route_names@[i]@) && lists(
                self.dependencies_of(self.route_names@[i]@),
                name,
            )
    }

    /// Why entry `i` cannot be removed once the entries before it are: it is one of them,
    /// or a route that is still there depends on it.
    pub open spec fn removal_clash(self, names: Seq<String>, i: int) -> Option<RouterError> {
        if lists(names.take(i), names[i]@) {
            Some(RouterError::RouteNotFound)
        } else if self.is_needed_beyond(names.take(i), names[i]@) {
            Some(RouterError::RouteInUse)
        } else {
            None
        }
    }

    /// Whether entry `i` is the first that cannot be removed once the entries before it
    /// are.
    pub open spec fn first_removal_clash(self, names: Seq<String>, i: int) -> bool {
        &&& 0 <= i < names.len()
        &&& self.removal_clash(names, i) is Some
        &&& forall|j: int| 0 <= j < i ==> #[trigger] self.removal_clash(names, j) is None
    }

    /// Whether every name is that of a route.
    pub open spec fn misses_none(self, names: Seq<String>) -> bool {
        forall|i: int| 0 <= i < names.len() ==> self.routes@.contains_key((#[trigger] names[i])@)
    }

    /// Whether the routes can be removed as a whole, one after the other.
    pub open spec fn removes_all(self, names: Seq<String>) -> bool {
        &&& self.misses_none(names)
        &&& forall|i: int|
            0 <= i < names.len() ==> #[trigger] self.removal_clash(names, i) is None
    }

    /// Finds out why an entry cannot be removed once those before it are.
    fn find_removal_clash(&self, names: &Vec<String>, gone: &Vec<String>, i: usize) -> (r: Option<
        RouterError,
    >)
        requires
            i < names@.len(),
            gone@ == names@.take(i as int),
        ensures
            r == self.removal_clash(names@, i as int),
    {
        if list_contains(gone, names[i].as_str()) {
            return Some(RouterError::RouteNotFound);
        }
        let mut j: usize = 0;
        while j < self.route_names.len()
            invariant
                j <= self.route_names@.len(),
                i < names@.len(),
                gone@ == names@.take(i as int),
                !lists(gone@, names@[i as int]@),
                forall|k: int|
                    0 <= k < j && (#[trigger] self.route_names@[k])@ != names@[i as int]@ && !lists(
                        gone@,
                        self.route_names@[k]@,
                    ) ==> !lists(
                        self.dependencies_of(self.route_names@[k]@),
                        names@[i as int]@,
                    ),
            decreases self.route_names@.len() - j,
        {
            let other: &String = &self.route_names[j];
            if !same_text(other.as_str(), names[i].as_str()) && !list_contains(gone, other.as_str()) {
                match self.dependencies.get(other) {
                    Some(dependencies) => {
                        if list_contains(dependencies, names[i].as_str()) {
                            proof {
                                assert(self.route_names@[j as int]@ != names@[i as int]@);
                                assert(self.is_needed_beyond(gone@, names@[i as int]@));
                            }
                            return Some(RouterError::RouteInUse);
                        }
                    },
                    None => {},
                }
            }
            j = j + 1;
        }
        None
    }

    /// Whether `self` is what is left of `before` once the routes `gone` were removed, as
    /// far as routes and dependencies go.
    spec fn is_rest_of(self, before: RouterCore, gone: Seq<String>) -> bool {
        &&& forall|name: Seq<char>|
            !lists(gone, name) && before.routes@.contains_key(name)
                ==> #[trigger] self.routes@.contains_key(name)
        &&& forall|name: Seq<char>| #[trigger]
            lists(self.route_names@, name) ==> lists(before.route_names@, name) && !lists(
                gone,
                name,
            ) && self.dependencies_of(name) == before.dependencies_of(name)
    }

    /// Removes many routes, and with each its aliases and dependencies.
    ///
    /// Without `fail_fast` every name is tried, and the result says which were removed.
    /// With `fail_fast` all routes are removed or none: if one of the names is no route,
    /// the result reports the first such name; if a route is named twice, or is in use
    /// when its turn comes, that is returned as an error.
    ///
    /// # Errors
    /// * [`RouterError::NotInitialized`] if there is no admin.
    /// * [`RouterError::Unauthorized`] if the caller is not the admin.
    /// * With `fail_fast`, [`RouterError::RouteInUse`] and [`RouterError::RouteNotFound`]
    ///   as above.
    pub fn remove_routes_batch(
        &mut self,
        caller: &Address,
        names: &Vec<String>,
        fail_fast: bool,
        sequence: u32,
    ) -> (r: Result<BatchResult, RouterError>)
        requires
            names.len() <= u32::MAX,
        ensures
            old(self).admin_fault(*caller) matches Some(e) ==> r == Err::<BatchResult, _>(e)
                && *final(self) == *old(self),
            old(self).admin_fault(*caller) is None && (!fail_fast || old(self).removes_all(names@))
                ==> r is Ok && exists|states: Seq<RouterCore>|
                {
                    &&& #[trigger] removal_run(states, names@)
                    &&& states.first() == *old(self)
                    &&& (r->Ok_0).reports(fault_names(removal_faults(states, names@)))
                    &&& fail_fast ==> forall|i: int|
                        0 <= i < names@.len() ==> (
                        #[trigger] removal_faults(states, names@)[i]) is None
                    &&& is_refreshed(states.last(), sequence, *final(self))
                },
            forall|i: int| #[trigger]
                old(self).first_missing(names@, i) && old(self).admin_fault(*caller) is None
                    && fail_fast ==> r is Ok && (r->Ok_0).reports_only(
                    i,
                    RouterError::RouteNotFound.name(),
                ) && *final(self) == *old(self),
            forall|i: int| #[trigger]
                old(self).first_removal_clash(names@, i) && old(self).admin_fault(*caller) is None
                    && fail_fast && old(self).misses_none(names@) ==> r == Err::<BatchResult, _>(
                    old(self).removal_clash(names@, i)->0,
                ),
            r is Err ==> *final(self) == *old(self),
            old(self).wf() ==> final(self).wf(),
    {
        match self.require_admin(caller) {
            Err(e) => {
                return Err(e);
            },
            Ok(()) => {},
        }
        let mut result: BatchResult = BatchResult::new();
        if fail_fast {
            let mut i: usize = 0;
            while i < names.len()
                invariant
                    i <= names@.len(),
                    names.len() <= u32::MAX,
                    result.successes@.len() == 0,
                    result.failures@.len() == 0,
                    forall|j: int|
                        0 <= j < i ==> self.routes@.contains_key((#[trigger] names@[j])@),
                    *self == *old(self),
                    fail_fast,
                    self.admin_fault(*caller) is None,
                decreases names@.len() - i,
            {
                if !self.routes.contains(&names[i]) {
                    result.record_failure(i as u32, RouterError::RouteNotFound.router_error_message());
                    proof {
                        assert(failure_views(result.failures@) =~= seq![
                            (i as u32, RouterError::RouteNotFound.name()),
                        ]);
                        assert(!self.routes@.contains_key(names@[i as int]@));
                        assert forall|k: int| #[trigger] self.first_missing(names@, k) implies k == i by {
                            assert(k < i ==> self.routes@.contains_key(names@[k]@));
                            assert(i < k ==> self.routes@.contains_key(names@[i as int]@));
                        }
                    }
                    return Ok(result);
                }
                i = i + 1;
            }
            let mut gone: Vec<String> = Vec::new();
            let mut k: usize = 0;
            proof {
                assert(gone@ =~= names@.take(0));
            }
            while k < names.len()
                invariant
                    k <= names@.len(),
                    gone@ == names@.take(k as int),
                    forall|j: int| 0 <= j < k ==> #[trigger] self.removal_clash(names@, j) is None,
                    *self == *old(self),
                    self.misses_none(names@),
                    fail_fast,
                    self.admin_fault(*caller) is None,
                decreases names@.len() - k,
            {
                match self.find_removal_clash(names, &gone, k) {
                    Some(e) => {
                        proof {
                            assert forall|j: int| #[trigger]
                                self.first_removal_clash(names@, j) implies j == k by {
                                assert(j < k ==> self.removal_clash(names@, j) is None);
                                assert(k < j ==> self.removal_clash(names@, k as int) is None);
                            }
                            assert forall|j: int| #[trigger] self.first_missing(names@, j) implies false by {
                                assert(self.routes@.contains_key(names@[j]@));
                            }
                            assert(self.removal_clash(names@, k as int) is Some);
                        }
                        return Err(e);
                    },
                    None => {},
                }
                gone.push(names[k].clone());
                proof {
                    assert(gone@ =~= names@.take(k + 1));
                }
                k = k + 1;
            }
            proof {
                assert(self.is_rest_of(*self, names@.take(0)));
            }
        }
        let ghost mut states: Seq<RouterCore> = seq![*self];
        let ghost mut faults: Seq<Option<RouterError>> = seq![];
        proof {
            assert(result.successes@ =~= successes_of(fault_names(faults)));
            assert(failure_views(result.failures@) =~= failures_of(fault_names(faults)));
        }
        let mut i: usize = 0;
        while i < names.len()
            invariant
                i <= names@.len(),
                names.len() <= u32::MAX,
                removal_run(states, names@.take(i as int)),
                states.first() == *old(self),
                states.last() == *self,
                faults == removal_faults(states, names@.take(i as int)),
                fail_fast ==> forall|j: int| 0 <= j < i ==> (#[trigger] faults[j]) is None,
                result.reports(fault_names(faults)),
                old(self).wf() ==> self.tables_agree(),
                self.admin == old(self).admin,
                old(self).admin_fault(*caller) is None,
                fail_fast ==> old(self).removes_all(names@),
                fail_fast ==> self.is_rest_of(*old(self), names@.take(i as int)),
            decreases names@.len() - i,
        {
            let ghost before = *self;
            proof {
                if fail_fast {
                    assert(old(self).removal_clash(names@, i as int) is None);
                    assert(old(self).routes@.contains_key(names@[i as int]@));
                    lemma_rest_removable(before, *old(self), names@, i as int);
                }
            }
            let outcome: Result<(), RouterError> = self.remove_route_internal(&names[i]);
            let ghost fault = before.removal_fault(names@[i as int]@);
            proof {
                if fail_fast {
                    lemma_rest_after_removal(before, *old(self), names@, i as int, *self);
                }
            }
            result.record(i as u32, fault_name(&outcome), Ghost(fault_names(faults)));
            proof {
                let longer = states.push(*self);
                let done = names@.take(i + 1);
                assert(done =~= names@.take(i as int).push(names@[i as int]));
                assert forall|j: int| 0 <= j < done.len() implies removal_step(
                    longer[j],
                    #[trigger] done[j],
                    longer[j + 1],
                ) by {
                    if j < i {
                        assert(names@.take(i as int)[j] == done[j]);
                        assert(longer[j] == states[j] && longer[j + 1] == states[j + 1]);
                    } else {
                        assert(longer[j] == before);
                    }
                }
                assert(removal_faults(longer, done) =~= faults.push(fault));
                states = longer;
                assert(fault_names(faults.push(fault)) =~= fault_names(faults).push(
                    match fault {
                        Some(e) => Some(e.name()),
                        None => None,
                    },
                ));
                faults = faults.push(fault);
            }
            i = i + 1;
        }
        let ghost last = *self;
        recompute_best_route(self, sequence);
        proof {
            assert(names@.take(i as int) =~= names@);
            assert(removal_run(states, names@));
            assert(is_refreshed(last, sequence, *self));
            assert forall|k: int| #[trigger]
                old(self).first_missing(names@, k) && fail_fast implies false by {
                assert(old(self).routes@.contains_key(names@[k]@));
            }
            assert forall|k: int| #[trigger]
                old(self).first_removal_clash(names@, k) && fail_fast implies false by {
                assert(old(self).removal_clash(names@, k) is None);
            }
        }
        Ok(result)
    }

    /// Whether every name can be registered as things are.
    pub open spec fn refuses_none(self, routes: Seq<RouteRegisterInput>) -> bool {
        forall|i: int| 0 <= i < routes.len() ==> #[trigger] self.entry_fault(routes, i) is None
    }

    /// Whether the routes can be registered as a whole.
    pub open spec fn registers_all(self, routes: Seq<RouteRegisterInput>) -> bool {
        self.refuses_none(routes) && !names_zero_address(routes)
    }

    /// Registers many routes, none of them with metadata or an expiry.
    ///
    /// Without `fail_fast` every route is tried, and the result says which were
    /// registered. With `fail_fast` all routes are registered or none: if one of the names
    /// cannot be registered, the result reports the first such name; if one of the
    /// addresses is the zero address, that is returned as an error.
    ///
    /// # Errors
    /// * [`RouterError::NotInitialized`] if there is no admin.
    /// * [`RouterError::Unauthorized`] if the caller is not the admin.
    /// * With `fail_fast`, [`RouterError::InvalidAddress`] as above.
    pub fn register_routes_batch(
        &mut self,
        caller: &Address,
        routes: &Vec<RouteRegisterInput>,
        fail_fast: bool,
    ) -> (r: Result<BatchResult, RouterError>)
        requires
            old(self).admin_fault(*caller) is None ==> old(self).route_count + routes.len()
                <= u32::MAX,
        ensures
            old(self).admin_fault(*caller) matches Some(e) ==> r == Err::<BatchResult, _>(e)
                && *final(self) == *old(self),
            old(self).admin_fault(*caller) is None && (!fail_fast || old(self).registers_all(
                routes@,
            )) ==> r is Ok && exists|states: Seq<RouterCore>|
                {
                    &&& #[trigger] registration_run(states, *caller, routes@)
                    &&& states.first() == *old(self)
                    &&& states.last() == *final(self)
                    &&& (r->Ok_0).reports(fault_names(registration_faults(states, routes@)))
                    &&& fail_fast ==> forall|i: int|
                        0 <= i < routes@.len() ==> (
                        #[trigger] registration_faults(states, routes@)[i]) is None
                },
            forall|i: int| #[trigger]
                old(self).first_refused(routes@, i) && old(self).admin_fault(*caller) is None
                    && fail_fast ==> r is Ok && (r->Ok_0).reports_only(
                    i,
                    (old(self).entry_fault(routes@, i)->0).name(),
                ) && *final(self) == *old(self),
            old(self).admin_fault(*caller) is None && fail_fast && old(self).refuses_none(routes@)
                && names_zero_address(routes@) ==> r == Err::<BatchResult, _>(
                RouterError::InvalidAddress,
            ),
            r is Err ==> *final(self) == *old(self),
            old(self).wf() ==> final(self).wf(),
    {
        match self.require_admin(caller) {
            Err(e) => {
                return Err(e);
            },
            Ok(()) => {},
        }
        let mut result: BatchResult = BatchResult::new();
        if fail_fast {
            let mut seen: Vec<String> = Vec::new();
            let mut i: usize = 0;
            proof {
                assert(seen@ =~= requested_names(routes@.take(0)));
            }
            while i < routes.len()
                invariant
                    i <= routes@.len(),
                    old(self).route_count + routes.len() <= u32::MAX,
                    seen@ == requested_names(routes@.take(i as int)),
                    result.successes@.len() == 0,
                    result.failures@.len() == 0,
                    forall|j: int| 0 <= j < i ==> #[trigger] self.entry_fault(routes@, j) is None,
                    *self == *old(self),
                    fail_fast,
                    self.admin_fault(*caller) is None,
                decreases routes@.len() - i,
            {
                let fault: Option<RouterError> = if list_contains(&seen, routes[i].name.as_str()) {
                    Some(RouterError::RouteAlreadyExists)
                } else {
                    match self.validate_route_name(&routes[i].name) {
                        Err(e) => Some(e),
                        Ok(()) => None,
                    }
                };
                proof {
                    assert(fault == self.entry_fault(routes@, i as int));
                }
                match fault {
                    Some(e) => {
                        result.record_failure(i as u32, e.router_error_message());
                        proof {
                            assert(failure_views(result.failures@) =~= seq![(i as u32, e.name())]);
                            assert forall|k: int| #[trigger]
                                self.first_refused(routes@, k) implies k == i by {
                                assert(k < i ==> self.entry_fault(routes@, k) is None);
                                assert(i < k ==> self.entry_fault(routes@, i as int) is None);
                            }
                        }
                        return Ok(result);
                    },
                    None => {},
                }
                seen.push(routes[i].name.clone());
                proof {
                    assert(seen@ =~= requested_names(routes@.take(i + 1)));
                }
                i = i + 1;
            }
            let mut k: usize = 0;
            while k < routes.len()
                invariant
                    k <= routes@.len(),
                    forall|j: int| 0 <= j < k ==> (#[trigger] routes@[j]).address@ != ZERO_ADDRESS@,
                    *self == *old(self),
                    self.refuses_none(routes@),
                    fail_fast,
                    self.admin_fault(*caller) is None,
                decreases routes@.len() - k,
            {
                if same_text(routes[k].address.as_str(), ZERO_ADDRESS) {
                    proof {
                        assert(routes@[k as int].address@ == ZERO_ADDRESS@);
                        assert forall|j: int| #[trigger] self.first_refused(routes@, j) implies false by {
                            assert(self.entry_fault(routes@, j) is None);
                        }
                    }
                    return Err(RouterError::InvalidAddress);
                }
                k = k + 1;
            }
            proof {
                assert forall|j: int| 0 <= j < routes@.len() implies self.registration_fault(
                    (#[trigger] routes@[j]).name@,
                    routes@[j].address@,
                    None,
                ) is None by {
                    assert(self.entry_fault(routes@, j) is None);
                }
            }
        }
        let ghost mut states: Seq<RouterCore> = seq![*self];
        let ghost mut faults: Seq<Option<RouterError>> = seq![];
        proof {
            assert(result.successes@ =~= successes_of(fault_names(faults)));
            assert(failure_views(result.failures@) =~= failures_of(fault_names(faults)));
        }
        let mut i: usize = 0;
        while i < routes.len()
            invariant
                i <= routes@.len(),
                self.route_count + routes.len() - i <= u32::MAX,
                routes.len() <= u32::MAX,
                registration_run(states, *caller, routes@.take(i as int)),
                states.first() == *old(self),
                states.last() == *self,
                faults == registration_faults(states, routes@.take(i as int)),
                fail_fast ==> forall|j: int| 0 <= j < i ==> (#[trigger] faults[j]) is None,
                result.reports(fault_names(faults)),
                old(self).wf() ==> self.wf(),
                self.admin == old(self).admin,
                old(self).admin_fault(*caller) is None,
                fail_fast ==> old(self).registers_all(routes@),
                fail_fast ==> forall|j: int|
                    i <= j < routes@.len() ==> self.registration_fault(
                        (#[trigger] routes@[j]).name@,
                        routes@[j].address@,
                        None,
                    ) is None,
            decreases routes@.len() - i,
        {
            let ghost before = *self;
            let outcome: Result<(), RouterError> = self.register_route_internal(
                caller,
                routes[i].name.clone(),
                routes[i].address.clone(),
                None,
                None,
            );
            let ghost fault = before.registration_fault(
                routes@[i as int].name@,
                routes@[i as int].address@,
                None,
            );
            proof {
                if fail_fast {
                    assert forall|k: int| i < k < routes@.len() implies self.registration_fault(
                        (#[trigger] routes@[k]).name@,
                        routes@[k].address@,
                        None,
                    ) is None by {
                        assert(old(self).entry_fault(routes@, k) is None);
                        let earlier = requested_names(routes@.take(k));
                        assert(earlier[i as int]@ == routes@[i as int].name@);
                        assert(routes@[i as int].name@ != routes@[k].name@);
                        assert(before.registration_fault(
                            routes@[k].name@,
                            routes@[k].address@,
                            None,
                        ) is None);
                    }
                }
            }
            result.record(i as u32, fault_name(&outcome), Ghost(fault_names(faults)));
            proof {
                let longer = states.push(*self);
                let done = routes@.take(i + 1);
                assert(done =~= routes@.take(i as int).push(routes@[i as int]));
                assert forall|j: int| 0 <= j < done.len() implies registration_step(
                    longer[j],
                    *caller,
                    #[trigger] done[j],
                    longer[j + 1],
                ) by {
                    if j < i {
                        assert(routes@.take(i as int)[j] == done[j]);
                        assert(longer[j] == states[j] && longer[j + 1] == states[j + 1]);
                    } else {
                        assert(longer[j] == before);
                    }
                }
                assert(registration_faults(longer, done) =~= faults.push(fault));
                states = longer;
                assert(fault_names(faults.push(fault)) =~= fault_names(faults).push(
                    match fault {
                        Some(e) => Some(e.name()),
                        None => None,
                    },
                ));
                faults = faults.push(fault);
            }
            i = i + 1;
        }
        proof {
            assert(routes@.take(i as int) =~= routes@);
            assert(registration_run(states, *caller, routes@));
            assert forall|k: int| #[trigger] old(self).first_refused(routes@, k) && fail_fast implies false by {
                assert(old(self).entry_fault(routes@, k) is None);
            }
        }
        Ok(result)
    }
}

/// What is left can be removed next unless it clashes with what is gone.
proof fn lemma_rest_removable(
    rest: RouterCore,
    before: RouterCore,
    names: Seq<String>,
    i: int,
)
    requires
        0 <= i < names.len(),
        rest.is_rest_of(before, names.take(i)),
        before.routes@.contains_key(names[i]@),
        before.removal_clash(names, i) is None,
    ensures
        rest.removal_fault(names[i]@) is None,
{
    let gone = names.take(i);
    let name = names[i]@;
    assert(rest.routes@.contains_key(name));
    assert forall|k: int| 0 <= k < rest.route_names@.len() && (
    #[trigger] rest.route_names@[k])@ != name implies !lists(
        rest.dependencies_of(rest.route_names@[k]@),
        name,
    ) by {
        let other = rest.route_names@[k]@;
        assert(lists(rest.route_names@, other));
        let j = choose|j: int|
            0 <= j < before.route_names@.len() && (#[trigger] before.route_names@[j])@ == other;
        assert(before.route_names@[j]@ == other);
    }
}

/// Removal of the next route leaves the rest.
proof fn lemma_rest_after_removal(
    rest: RouterCore,
    before: RouterCore,
    names: Seq<String>,
    i: int,
    after: RouterCore,
)
    requires
        0 <= i < names.len(),
        rest.is_rest_of(before, names.take(i)),
        rest.is_removed(names[i], after),
    ensures
        after.is_rest_of(before, names.take(i + 1)),
{
    let gone = names.take(i);
    let removed = names[i]@;
    assert(names.take(i + 1) =~= gone.push(names[i]));
    lemma_others(rest.route_names@, removed);
    assert forall|name: Seq<char>|
        !lists(names.take(i + 1), name) && before.routes@.contains_key(name) implies
        #[trigger] after.routes@.contains_key(name) by {
        lemma_lists_push(gone, names[i], name);
        assert(rest.routes@.contains_key(name));
    }
    assert forall|name: Seq<char>| #[trigger] lists(after.route_names@, name) implies lists(
        before.route_names@,
        name,
    ) && !lists(names.take(i + 1), name) && after.dependencies_of(name) == before.dependencies_of(
        name,
    ) by {
        assert(name != removed);
        assert(lists(rest.route_names@, name));
        lemma_lists_push(gone, names[i], name);
    }
}

} // verus!
