//! Resolution, aliases, scores, listings and removal of routes.

use super::scoring::{
    best_events, best_name, best_position, composite, lemma_best_depends_on_routes,
    lemma_best_position, recompute_best_route, select_best,
};
use super::types::{
    expired, is_route_expired, BatchResolveResult, ResolveError, RouteScore, RouterCore,
    RouterError, RouterEvent,
};
use crate::common::Address;
use vstd::prelude::*;

verus! {

/// The more names, the more of them resolve.
proof fn lemma_resolved_count_grows(
    core: RouterCore,
    names: Seq<String>,
    sequence: u32,
    m: nat,
    n: nat,
)
    requires
        m <= n,
    ensures
        core.resolved_count(names, sequence, m) <= core.resolved_count(names, sequence, n),
    decreases n,
{
    if m < n {
        lemma_resolved_count_grows(core, names, sequence, m, (n - 1) as nat);
    }
}

impl RouterCore {
    /// The route that a name stands for: the best route while there is one that has not
    /// expired, else the target of the alias, else the name itself.
    pub open spec fn selected(self, name: String, sequence: u32) -> String {
        if self.best_route matches Some(best) && self.routes@.contains_key(best@) && !expired(
            self.routes@[best@],
            sequence,
        ) {
            self.best_route->0
        } else if self.aliases@.contains_key(name@) {
            self.aliases@[name@]
        } else {
            name
        }
    }

    /// What a name resolves to.
    pub open spec fn resolution(self, name: String, sequence: u32) -> Result<Address, RouterError> {
        let selected = self.selected(name, sequence)@;
        if self.paused {
            Err(RouterError::RouterPaused)
        } else if !self.routes@.contains_key(selected) {
            Err(RouterError::RouteNotFound)
        } else if expired(self.routes@[selected], sequence) {
            Err(RouterError::RouteExpired)
        } else if self.routes@[selected].paused {
            Err(RouterError::RoutePaused)
        } else {
            Ok(self.routes@[selected].address)
        }
    }

    /// What resolving a name publishes.
    pub open spec fn resolution_events(self, name: String, sequence: u32) -> Seq<RouterEvent> {
        let selected = self.selected(name, sequence);
        match self.resolution(name, sequence) {
            Ok(address) => seq![RouterEvent::Routed { name, address }],
            Err(RouterError::RouteExpired) => seq![
                RouterEvent::RouteResolveExpired { name: selected },
            ],
            Err(RouterError::RoutePaused) => seq![
                RouterEvent::RouteResolvePaused { name: selected },
            ],
            Err(_) => seq![],
        }
    }

    /// The route that a name stands for.
    fn select(&self, name: &String, sequence: u32) -> (r: String)
        ensures
            r == self.selected(*name, sequence),
    {
        let requested: String = match self.aliases.get(name) {
            Some(original) => original.clone(),
            None => name.clone(),
        };
        match &self.best_route {
            Some(best) => match self.routes.get(best) {
                Some(entry) => {
                    if !is_route_expired(entry, sequence) {
                        best.clone()
                    } else {
                        requested
                    }
                },
                None => requested,
            },
            None => requested,
        }
    }

    /// What a name resolves to, with nothing counted or published.
    ///
    /// # Errors
    /// As [`RouterCore::resolve`].
    pub fn check_resolution(&self, name: &String, sequence: u32) -> (r: Result<
        Address,
        RouterError,
    >)
        ensures
            r == self.resolution(*name, sequence),
    {
        if self.paused {
            return Err(RouterError::RouterPaused);
        }
        match self.routes.get(&self.select(name, sequence)) {
            Some(entry) => {
                if is_route_expired(entry, sequence) {
                    Err(RouterError::RouteExpired)
                } else if entry.paused {
                    Err(RouterError::RoutePaused)
                } else {
                    Ok(entry.address.clone())
                }
            },
            None => Err(RouterError::RouteNotFound),
        }
    }

    /// Resolves a name to the address of its route, and counts it.
    ///
    /// # Errors
    /// * [`RouterError::RouterPaused`] if the whole router is paused.
    /// * [`RouterError::RouteNotFound`] if there is no such route.
    /// * [`RouterError::RouteExpired`] if the route has expired.
    /// * [`RouterError::RoutePaused`] if the route is paused.
    pub fn resolve(&mut self, name: &String, sequence: u32) -> (r: Result<Address, RouterError>)
        requires
            old(self).resolution(*name, sequence) is Ok ==> old(self).total_routed < u64::MAX,
        ensures
            r == old(self).resolution(*name, sequence),
            *final(self) == (RouterCore {
                total_routed: if r is Ok {
                    (old(self).total_routed + 1) as u64
                } else {
                    old(self).total_routed
                },
                events: final(self).events,
                ..*old(self)
            }),
            final(self).events@ == old(self).events@ + old(self).resolution_events(*name, sequence),
            old(self).wf() ==> final(self).wf(),
    {
        let answer: Result<Address, RouterError> = self.check_resolution(name, sequence);
        match &answer {
            Ok(address) => {
                self.total_routed = self.total_routed + 1;
                self.events.push(
                    RouterEvent::Routed { name: name.clone(), address: address.clone() },
                );
            },
            Err(RouterError::RouteExpired) => {
                let selected: String = self.select(name, sequence);
                self.events.push(RouterEvent::RouteResolveExpired { name: selected });
            },
            Err(RouterError::RoutePaused) => {
                let selected: String = self.select(name, sequence);
                self.events.push(RouterEvent::RouteResolvePaused { name: selected });
            },
            Err(_) => {},
        }
        proof {
            assert(self.events@ =~= old(self).events@ + old(self).resolution_events(
                *name,
                sequence,
            ));
        }
        answer
    }

    /// What one name of a batch is answered.
    pub open spec fn batch_answer(self, name: String, sequence: u32) -> BatchResolveResult {
        match self.resolution(name, sequence) {
            Ok(address) => BatchResolveResult::Resolved(address),
            Err(RouterError::RouterPaused) => BatchResolveResult::Failed(
                ResolveError::RouterPaused,
            ),
            Err(RouterError::RoutePaused) => BatchResolveResult::Failed(ResolveError::RoutePaused),
            Err(_) => BatchResolveResult::Failed(ResolveError::RouteNotFound),
        }
    }

    /// How many of the first `n` names resolve.
    pub open spec fn resolved_count(self, names: Seq<String>, sequence: u32, n: nat) -> nat
        decreases n,
    {
        if n == 0 {
            0
        } else if self.resolution(names[n - 1], sequence) is Ok {
            self.resolved_count(names, sequence, (n - 1) as nat) + 1
        } else {
            self.resolved_count(names, sequence, (n - 1) as nat)
        }
    }

    /// What resolving the first `n` names publishes.
    pub open spec fn batch_events(self, names: Seq<String>, sequence: u32, n: nat) -> Seq<
        RouterEvent,
    >
        decreases n,
    {
        if n == 0 {
            seq![]
        } else {
            self.batch_events(names, sequence, (n - 1) as nat) + self.resolution_events(
                names[n - 1],
                sequence,
            )
        }
    }

    /// Resolves several names, each answered in its place.
    pub fn batch_resolve(&mut self, names: &Vec<String>, sequence: u32) -> (r: Vec<
        BatchResolveResult,
    >)
        requires
            old(self).total_routed + old(self).resolved_count(names@, sequence, names@.len())
                <= u64::MAX,
        ensures
            r@.len() == names@.len(),
            forall|i: int|
                0 <= i < names@.len() ==> #[trigger] r@[i] == old(self).batch_answer(
                    names@[i],
                    sequence,
                ),
            *final(self) == (RouterCore {
                total_routed: (old(self).total_routed + old(self).resolved_count(
                    names@,
                    sequence,
                    names@.len(),
                )) as u64,
                events: final(self).events,
                ..*old(self)
            }),
            final(self).events@ == old(self).events@ + old(self).batch_events(
                names@,
                sequence,
                names@.len(),
            ),
            old(self).wf() ==> final(self).wf(),
    {
        let mut results: Vec<BatchResolveResult> = Vec::new();
        let mut i: usize = 0;
        proof {
            assert(self.events@ =~= old(self).events@ + Seq::<RouterEvent>::empty());
        }
        while i < names.len()
            invariant
                i <= names@.len(),
                old(self).total_routed + old(self).resolved_count(names@, sequence, names@.len())
                    <= u64::MAX,
                results@.len() == i,
                forall|j: int|
                    0 <= j < i ==> #[trigger] results@[j] == old(self).batch_answer(
                        names@[j],
                        sequence,
                    ),
                *self == (RouterCore {
                    total_routed: self.total_routed,
                    events: self.events,
                    ..*old(self)
                }),
                self.total_routed == old(self).total_routed + old(self).resolved_count(
                    names@,
                    sequence,
                    i as nat,
                ),
                self.events@ == old(self).events@ + old(self).batch_events(
                    names@,
                    sequence,
                    i as nat,
                ),
                old(self).wf() ==> self.wf(),
            decreases names@.len() - i,
        {
            let ghost before = *self;
            proof {
                let name = names@[i as int];
                assert(before.selected(name, sequence) == old(self).selected(name, sequence));
                assert(before.resolution(name, sequence) == old(self).resolution(name, sequence));
                lemma_resolved_count_grows(
                    *old(self),
                    names@,
                    sequence,
                    (i + 1) as nat,
                    names@.len(),
                );
            }
            let answer: BatchResolveResult = match self.resolve(&names[i], sequence) {
                Ok(address) => BatchResolveResult::Resolved(address),
                Err(RouterError::RouterPaused) => BatchResolveResult::Failed(
                    ResolveError::RouterPaused,
                ),
                Err(RouterError::RoutePaused) => BatchResolveResult::Failed(
                    ResolveError::RoutePaused,
                ),
                Err(_) => BatchResolveResult::Failed(ResolveError::RouteNotFound),
            };
            proof {
                let name = names@[i as int];
                assert(before.resolution_events(name, sequence) == old(self).resolution_events(
                    name,
                    sequence,
                ));
                assert(self.events@ =~= old(self).events@ + old(self).batch_events(
                    names@,
                    sequence,
                    (i + 1) as nat,
                ));
            }
            results.push(answer);
            i = i + 1;
        }
        results
    }

    /// Makes `alias_name` another name of a registered route.
    ///
    /// # Errors
    /// * [`RouterError::NotInitialized`] if there is no admin.
    /// * [`RouterError::Unauthorized`] if the caller is not the admin.
    /// * [`RouterError::RouteNotFound`] if there is no such route.
    /// * [`RouterError::InvalidRouteName`] if the alias cannot be a name.
    /// * [`RouterError::RouteAlreadyExists`] if a route or alias has the name.
    pub fn add_alias(&mut self, caller: &Address, existing_name: String, alias_name: String) -> (r:
        Result<(), RouterError>)
        ensures
            r == (match old(self).admin_fault(*caller) {
                Some(e) => Err(e),
                None => if !old(self).routes@.contains_key(existing_name@) {
                    Err(RouterError::RouteNotFound)
                } else {
                    match old(self).name_fault(alias_name@) {
                        Some(e) => Err(e),
                        None => Ok(()),
                    }
                },
            }),
            r is Err ==> *final(self) == *old(self),
            r is Ok ==> *final(self) == (RouterCore {
                aliases: final(self).aliases,
                events: final(self).events,
                ..*old(self)
            }) && final(self).aliases@ == old(self).aliases@.insert(alias_name@, existing_name)
                && final(self).events@ == old(self).events@.push(
                RouterEvent::AliasAdded { existing_name, alias_name },
            ),
            old(self).wf() ==> final(self).wf(),
    {
        match self.require_admin(caller) {
            Err(e) => {
                return Err(e);
            },
            Ok(()) => {},
        }
        if !self.routes.contains(&existing_name) {
            return Err(RouterError::RouteNotFound);
        }
        match self.validate_route_name(&alias_name) {
            Err(e) => {
                return Err(e);
            },
            Ok(()) => {},
        }
        self.aliases.insert(alias_name.clone(), existing_name.clone());
        self.events.push(RouterEvent::AliasAdded { existing_name, alias_name });
        Ok(())
    }

    /// Removes an alias.
    ///
    /// # Errors
    /// * [`RouterError::NotInitialized`] if there is no admin.
    /// * [`RouterError::Unauthorized`] if the caller is not the admin.
    /// * [`RouterError::RouteNotFound`] if there is no such alias.
    pub fn remove_alias(&mut self, caller: &Address, alias_name: String) -> (r: Result<
        (),
        RouterError,
    >)
        ensures
            r == (match old(self).admin_fault(*caller) {
                Some(e) => Err(e),
                None => if !old(self).aliases@.contains_key(alias_name@) {
                    Err(RouterError::RouteNotFound)
                } else {
                    Ok(())
                },
            }),
            r is Err ==> *final(self) == *old(self),
            r is Ok ==> *final(self) == (RouterCore {
                aliases: final(self).aliases,
                events: final(self).events,
                ..*old(self)
            }) && final(self).aliases@ == old(self).aliases@.remove(alias_name@)
                && final(self).events@ == old(self).events@.push(
                RouterEvent::AliasRemoved { alias_name },
            ),
            old(self).wf() ==> final(self).wf(),
    {
        match self.require_admin(caller) {
            Err(e) => {
                return Err(e);
            },
            Ok(()) => {},
        }
        if !self.aliases.contains(&alias_name) {
            return Err(RouterError::RouteNotFound);
        }
        self.aliases.remove(&alias_name);
        self.events.push(RouterEvent::AliasRemoved { alias_name });
        Ok(())
    }

    /// The route that an alias stands for.
    pub fn get_alias_target(&self, alias_name: &String) -> (r: Option<String>)
        ensures
            r == (if self.aliases@.contains_key(alias_name@) {
                Some(self.aliases@[alias_name@])
            } else {
                None
            }),
    {
        match self.aliases.get(alias_name) {
            Some(name) => Some(name.clone()),
            None => None,
        }
    }

    /// Scores a route.
    ///
    /// # Errors
    /// * [`RouterError::NotInitialized`] if there is no admin.
    /// * [`RouterError::Unauthorized`] if the caller is not the admin.
    /// * [`RouterError::RouteNotFound`] if there is no such route.
    pub fn set_route_score(
        &mut self,
        caller: &Address,
        name: String,
        score: RouteScore,
        sequence: u32,
    ) -> (r: Result<(), RouterError>)
        ensures
            r == (match old(self).admin_fault(*caller) {
                Some(e) => Err(e),
                None => if !old(self).routes@.contains_key(name@) {
                    Err(RouterError::RouteNotFound)
                } else {
                    Ok(())
                },
            }),
            r is Err ==> *final(self) == *old(self),
            r is Ok ==> {
                &&& *final(self) == (RouterCore {
                    scores: final(self).scores,
                    best_route: final(self).best_route,
                    events: final(self).events,
                    ..*old(self)
                })
                &&& final(self).scores@ == old(self).scores@.insert(name@, score)
                &&& final(self).best_route == best_name(*final(self), sequence)
                &&& final(self).events@ == old(self).events@.push(
                    RouterEvent::RouteScored { name, score },
                ) + best_events(*final(self), sequence)
            },
            old(self).wf() ==> final(self).wf(),
    {
        match self.require_admin(caller) {
            Err(e) => {
                return Err(e);
            },
            Ok(()) => {},
        }
        if !self.routes.contains(&name) {
            return Err(RouterError::RouteNotFound);
        }
        self.scores.insert(name.clone(), score);
        self.events.push(RouterEvent::RouteScored { name, score });
        let ghost before = *self;
        recompute_best_route(self, sequence);
        proof {
            lemma_best_depends_on_routes(before, *self, sequence);
        }
        Ok(())
    }

    /// The score of a route.
    pub fn get_route_score(&self, name: &String) -> (r: Option<RouteScore>)
        ensures
            r == (if self.scores@.contains_key(name@) {
                Some(self.scores@[name@])
            } else {
                None
            }),
    {
        match self.scores.get(name) {
            Some(score) => Some(*score),
            None => None,
        }
    }

    /// The position of the best candidate, if there is one whose composite score is at
    /// least `min_score`.
    pub open spec fn winner(
        self,
        candidates: Seq<String>,
        min_score: int,
        sequence: u32,
    ) -> Option<int> {
        match best_position(self, candidates, sequence) {
            Some(i) => if composite(self.scores@[candidates[i]@]) >= min_score {
                Some(i)
            } else {
                None
            },
            None => None,
        }
    }

    /// Selects the best of some candidates: the earliest of those with the highest
    /// composite score. Where that score is below `min_score`, or no candidate can be
    /// selected, the fallback is returned.
    ///
    /// # Errors
    /// * [`RouterError::RouterPaused`] if the whole router is paused.
    pub fn get_best_route(
        &mut self,
        candidates: &Vec<String>,
        min_score: i64,
        fallback_name: Option<String>,
        sequence: u32,
    ) -> (r: Result<Option<String>, RouterError>)
        ensures
            old(self).paused ==> r == Err::<Option<String>, _>(RouterError::RouterPaused)
                && *final(self) == *old(self),
            !old(self).paused ==> {
                let winner = old(self).winner(candidates@, min_score as int, sequence);
                &&& r == Ok::<_, RouterError>(
                    match winner {
                        Some(i) => Some(candidates@[i]),
                        None => fallback_name,
                    },
                )
                &&& *final(self) == (RouterCore { events: final(self).events, ..*old(self) })
                &&& final(self).events@ == match winner {
                    Some(i) => old(self).events@.push(
                        RouterEvent::BestRouteSelected {
                            name: candidates@[i],
                            composite: composite(old(self).scores@[candidates@[i]@]) as i64,
                        },
                    ),
                    None => old(self).events@,
                }
            },
            old(self).wf() ==> final(self).wf(),
    {
        if self.paused {
            return Err(RouterError::RouterPaused);
        }
        match select_best(self, candidates, sequence) {
            Some((i, score)) => {
                proof {
                    lemma_best_position(*self, candidates@, i as int, sequence);
                }
                if score >= min_score {
                    let name: String = candidates[i].clone();
                    self.events.push(
                        RouterEvent::BestRouteSelected { name: name.clone(), composite: score },
                    );
                    Ok(Some(name))
                } else {
                    Ok(fallback_name)
                }
            },
            None => Ok(fallback_name),
        }
    }

    /// Whether a listed route has not expired.
    pub open spec fn is_listed(self, name: Seq<char>, sequence: u32) -> bool {
        !(self.routes@.contains_key(name) && expired(self.routes@[name], sequence))
    }

    /// Those of the names whose routes have not expired, in order.
    pub open spec fn unexpired(self, names: Seq<String>, sequence: u32) -> Seq<String>
        decreases names.len(),
    {
        if names.len() == 0 {
            seq![]
        } else if self.is_listed(names.last()@, sequence) {
            self.unexpired(names.drop_last(), sequence).push(names.last())
        } else {
            self.unexpired(names.drop_last(), sequence)
        }
    }

    /// The names of all routes that have not expired.
    pub fn get_all_routes(&self, sequence: u32) -> (r: Vec<String>)
        ensures
            r@ == self.unexpired(self.route_names@, sequence),
    {
        let mut routes: Vec<String> = Vec::new();
        let mut i: usize = 0;
        while i < self.route_names.len()
            invariant
                i <= self.route_names@.len(),
                routes@ == self.unexpired(self.route_names@.take(i as int), sequence),
            decreases self.route_names@.len() - i,
        {
            proof {
                assert(self.route_names@.take(i + 1).drop_last() =~= self.route_names@.take(
                    i as int,
                ));
            }
            let expired: bool = match self.routes.get(&self.route_names[i]) {
                Some(entry) => is_route_expired(entry, sequence),
                None => false,
            };
            if !expired {
                routes.push(self.route_names[i].clone());
            }
            i = i + 1;
        }
        proof {
            assert(self.route_names@.take(i as int) =~= self.route_names@);
        }
        routes
    }

    /// Up to `limit` of the registered names from position `start` on.
    pub fn get_routes_paginated(&self, start: u32, limit: u32) -> (r: Vec<String>)
        ensures
            r@ == (if start >= self.route_names@.len() {
                Seq::<String>::empty()
            } else if start + limit >= self.route_names@.len() {
                self.route_names@.skip(start as int)
            } else {
                self.route_names@.subrange(start as int, start + limit)
            }),
    {
        let total: usize = self.route_names.len();
        let mut page: Vec<String> = Vec::new();
        if start as usize >= total || limit == 0 {
            proof {
                if (start as usize) < total {
                    assert(page@ =~= self.route_names@.subrange(start as int, start + limit));
                }
            }
            return page;
        }
        let end: usize = if total as u64 - start as u64 <= limit as u64 {
            total
        } else {
            start as usize + limit as usize
        };
        let mut i: usize = start as usize;
        proof {
            assert(page@ =~= self.route_names@.subrange(start as int, i as int));
        }
        while i < end
            invariant
                start <= i <= end <= self.route_names@.len(),
                page@ == self.route_names@.subrange(start as int, i as int),
            decreases end - i,
        {
            proof {
                assert(self.route_names@.subrange(start as int, i + 1) =~= page@.push(
                    self.route_names@[i as int],
                ));
            }
            page.push(self.route_names[i].clone());
            i = i + 1;
        }
        proof {
            if end == total {
                assert(page@ =~= self.route_names@.skip(start as int));
            }
        }
        page
    }
}

} // verus!
