//! Registration, resolution and administration of routes.

use super::dependencies::{acyclic, lemma_nothing_acyclic};
use super::scoring::{
    best_events, best_name, lemma_best_depends_on_routes, recompute_best_route,
};
use super::types::{
    expired, is_route_expired, RouteEntry, RouteMetadata, RouteScore, RouterCore, RouterError,
    RouterEvent,
};
use crate::common::{admin_check, require_admin, Address};
use crate::store::KeyedStore;
use crate::text::{chars_of, lemma_lists_push, lists, same_text};
use vstd::prelude::*;

verus! {

/// The address that no route may point to.
pub const ZERO_ADDRESS: &'static str = "GAAAAAAAAAAAAAAAAAAAAAAAAAAAAAAAAAAAAAAAAAAAAAAAAAAAAWHF";

/// The longest route name.
pub const MAX_NAME_LEN: usize = 64;

/// The longest description, in characters.
pub const MAX_DESCRIPTION_LEN: usize = 256;

/// The largest number of tags of a route.
pub const MAX_TAGS: usize = 5;

/// Whether a character can stand in a route name.
pub open spec fn is_name_char(c: char) -> bool {
    ('a' <= c <= 'z') || ('A' <= c <= 'Z') || ('0' <= c <= '9') || c == '-' || c == '/'
}

/// Whether a text can be a route name: 1 to 64 ASCII letters, digits, hyphens and
/// slashes.
pub open spec fn is_name(text: Seq<char>) -> bool {
    &&& 0 < text.len() <= MAX_NAME_LEN
    &&& forall|i: int| 0 <= i < text.len() ==> is_name_char(#[trigger] text[i])
}

/// Whether metadata are within their limits.
pub open spec fn valid_metadata(metadata: RouteMetadata) -> bool {
    &&& metadata.description@.len() <= MAX_DESCRIPTION_LEN
    &&& metadata.tags@.len() <= MAX_TAGS
}

fn is_name_text(text: &str) -> (r: bool)
    ensures
        r == is_name(text@),
{
    let chars: Vec<char> = chars_of(text);
    if chars.len() == 0 || chars.len() > MAX_NAME_LEN {
        return false;
    }
    let mut i: usize = 0;
    while i < chars.len()
        invariant
            chars@ == text@,
            i <= chars@.len(),
            forall|j: int| 0 <= j < i ==> is_name_char(#[trigger] text@[j]),
        decreases chars@.len() - i,
    {
        let c: char = chars[i];
        if !(('a' <= c && c <= 'z') || ('A' <= c && c <= 'Z') || ('0' <= c && c <= '9') || c == '-'
            || c == '/') {
            proof {
                assert(!is_name_char(text@[i as int]));
            }
            return false;
        }
        i = i + 1;
    }
    true
}

/// Checks that metadata are within their limits.
pub fn validate_metadata(metadata: &RouteMetadata) -> (r: Result<(), RouterError>)
    ensures
        r == (if valid_metadata(*metadata) {
            Ok(())
        } else {
            Err(RouterError::InvalidMetadata)
        }),
{
    let description: Vec<char> = chars_of(metadata.description.as_str());
    if description.len() > MAX_DESCRIPTION_LEN || metadata.tags.len() > MAX_TAGS {
        return Err(RouterError::InvalidMetadata);
    }
    Ok(())
}

impl RouterCore {
    /// What holds of the router between any two operations: its tables agree, the best
    /// route, if there is one, is registered, scored and not paused, and nothing is
    /// registered before there is an admin.
    pub open spec fn wf(self) -> bool {
        &&& self.tables_agree()
        &&& self.admin is None ==> self.route_names@.len() == 0
        &&& self.best_route matches Some(best) ==> self.routes@.contains_key(best@)
            && !self.routes@[best@].paused && self.scores@.contains_key(best@)
    }

    /// How the tables of the router agree:
    /// - the registered names are listed once each and counted;
    /// - every entry carries its own name, which is a valid one;
    /// - an alias is no route name, and points to a registered route;
    /// - metadata are within their limits and belong to registered routes;
    /// - no route depends on itself, directly or through others.
    pub open spec fn tables_agree(self) -> bool {
        &&& self.route_count == self.route_names@.len()
        &&& forall|i: int, j: int|
            0 <= i < j < self.route_names@.len() ==> (#[trigger] self.route_names@[i])@ != (
            #[trigger] self.route_names@[j])@
        &&& forall|name: Seq<char>| #[trigger]
            self.routes@.contains_key(name) <==> lists(self.route_names@, name)
        &&& forall|name: Seq<char>| #[trigger]
            self.routes@.contains_key(name) ==> self.routes@[name].name@ == name && is_name(name)
        &&& forall|alias: Seq<char>| #[trigger]
            self.aliases@.contains_key(alias) ==> is_name(alias) && !self.routes@.contains_key(
                alias,
            ) && self.routes@.contains_key(self.aliases@[alias]@)
        &&& forall|name: Seq<char>| #[trigger]
            self.metadata@.contains_key(name) ==> self.routes@.contains_key(name)
                && valid_metadata(self.metadata@[name])
        &&& acyclic(self.dependencies@)
    }

    /// Why a text cannot become the name of a route or alias.
    pub open spec fn name_fault(self, name: Seq<char>) -> Option<RouterError> {
        if !is_name(name) {
            Some(RouterError::InvalidRouteName)
        } else if self.routes@.contains_key(name) || self.aliases@.contains_key(name) {
            Some(RouterError::RouteAlreadyExists)
        } else {
            None
        }
    }

    /// What an admin check answers.
    pub open spec fn admin_fault(self, caller: Address) -> Option<RouterError> {
        match admin_check(
            self.admin,
            caller,
            RouterError::NotInitialized,
            RouterError::Unauthorized,
        ) {
            Ok(()) => None,
            Err(e) => Some(e),
        }
    }

    /// Why a route cannot be registered.
    pub open spec fn registration_fault(
        self,
        name: Seq<char>,
        address: Seq<char>,
        metadata: Option<RouteMetadata>,
    ) -> Option<RouterError> {
        if self.name_fault(name) is Some {
            self.name_fault(name)
        } else if address == ZERO_ADDRESS@ {
            Some(RouterError::InvalidAddress)
        } else if metadata matches Some(m) && !valid_metadata(m) {
            Some(RouterError::InvalidMetadata)
        } else {
            None
        }
    }

    /// Whether `after` is `self` with a new route.
    pub open spec fn is_registered(
        self,
        caller: Address,
        name: String,
        address: Address,
        metadata: Option<RouteMetadata>,
        expires_at: Option<u32>,
        after: RouterCore,
    ) -> bool {
        &&& after == (RouterCore {
            routes: after.routes,
            metadata: after.metadata,
            route_names: after.route_names,
            route_count: (self.route_count + 1) as u32,
            events: after.events,
            ..self
        })
        &&& after.routes@ == self.routes@.insert(
            name@,
            RouteEntry { address, name, paused: false, updated_by: caller, expires_at },
        )
        &&& after.metadata@ == match metadata {
            Some(m) => self.metadata@.insert(name@, m),
            None => self.metadata@,
        }
        &&& after.route_names@ == self.route_names@.push(name)
        &&& after.events@ == self.events@.push(RouterEvent::RouteRegistered { name, address })
    }

    pub fn new() -> (r: Self)
        ensures
            r.wf(),
            r.admin is None,
            r.routes@ == Map::<Seq<char>, RouteEntry>::empty(),
            r.route_names@.len() == 0,
            r.route_count == 0,
            !r.paused,
            r.total_routed == 0,
            r.aliases@ == Map::<Seq<char>, String>::empty(),
            r.scores@ == Map::<Seq<char>, RouteScore>::empty(),
            r.metadata@ == Map::<Seq<char>, RouteMetadata>::empty(),
            r.dependencies@ == Map::<Seq<char>, Vec<String>>::empty(),
            r.best_route is None,
            r.events@.len() == 0,
    {
        proof {
            lemma_nothing_acyclic();
        }
        RouterCore {
            admin: None,
            routes: KeyedStore::new(),
            route_names: Vec::new(),
            route_count: 0,
            paused: false,
            total_routed: 0,
            aliases: KeyedStore::new(),
            scores: KeyedStore::new(),
            metadata: KeyedStore::new(),
            dependencies: KeyedStore::new(),
            best_route: None,
            events: Vec::new(),
        }
    }

    /// Sets the admin of a new router, which is not paused, has routed nothing and lists no
    /// route and no alias.
    ///
    /// # Errors
    /// * [`RouterError::AlreadyInitialized`] if there is an admin already.
    pub fn initialize(&mut self, admin: Address) -> (r: Result<(), RouterError>)
        ensures
            r == (if old(self).admin is Some {
                Err(RouterError::AlreadyInitialized)
            } else {
                Ok(())
            }),
            r is Err ==> *final(self) == *old(self),
            r is Ok ==> {
                &&& *final(self) == (RouterCore {
                    admin: Some(admin),
                    route_names: final(self).route_names,
                    aliases: final(self).aliases,
                    paused: false,
                    total_routed: 0,
                    route_count: 0,
                    ..*old(self)
                })
                &&& final(self).route_names@.len() == 0
                &&& final(self).aliases.wf()
                &&& final(self).aliases@ == Map::<Seq<char>, String>::empty()
            },
            old(self).wf() ==> final(self).wf(),
    {
        if self.admin.is_some() {
            return Err(RouterError::AlreadyInitialized);
        }
        self.admin = Some(admin);
        self.route_names = Vec::new();
        self.aliases = KeyedStore::new();
        self.paused = false;
        self.total_routed = 0;
        self.route_count = 0;
        proof {
            assert(old(self).wf() ==> forall|name: Seq<char>| #[trigger]
                lists(self.route_names@, name) == lists(old(self).route_names@, name));
        }
        Ok(())
    }

    /// Checks that the caller is the admin.
    ///
    /// # Errors
    /// * [`RouterError::NotInitialized`] if there is no admin.
    /// * [`RouterError::Unauthorized`] if the caller is not the admin.
    pub fn require_admin(&self, caller: &Address) -> (r: Result<(), RouterError>)
        ensures
            r == (match self.admin_fault(*caller) {
                Some(e) => Err(e),
                None => Ok(()),
            }),
    {
        require_admin(
            &self.admin,
            caller,
            RouterError::NotInitialized,
            RouterError::Unauthorized,
        )
    }

    /// Checks that a text can become the name of a route or alias.
    pub(crate) fn validate_route_name(&self, name: &String) -> (r: Result<(), RouterError>)
        ensures
            r == (match self.name_fault(name@) {
                Some(e) => Err(e),
                None => Ok(()),
            }),
    {
        if !is_name_text(name.as_str()) {
            return Err(RouterError::InvalidRouteName);
        }
        if self.routes.contains(name) {
            return Err(RouterError::RouteAlreadyExists);
        }
        if self.aliases.contains(name) {
            return Err(RouterError::RouteAlreadyExists);
        }
        Ok(())
    }

    /// Checks that a route can be registered like this.
    fn check_new_route(
        &self,
        name: &String,
        address: &Address,
        metadata: &Option<RouteMetadata>,
    ) -> (r: Result<(), RouterError>)
        ensures
            r == (match self.registration_fault(name@, address@, *metadata) {
                Some(e) => Err(e),
                None => Ok(()),
            }),
    {
        match self.validate_route_name(name) {
            Err(e) => {
                return Err(e);
            },
            Ok(()) => {},
        }
        if same_text(address.as_str(), ZERO_ADDRESS) {
            return Err(RouterError::InvalidAddress);
        }
        match metadata {
            Some(m) => validate_metadata(m),
            None => Ok(()),
        }
    }

    /// Checks that a caller can register a route like this: what
    /// [`RouterCore::register_route`] answers, with nothing registered.
    ///
    /// # Errors
    /// As [`RouterCore::register_route`].
    pub fn check_registration(
        &self,
        caller: &Address,
        name: &String,
        address: &Address,
        metadata: &Option<RouteMetadata>,
    ) -> (r: Result<(), RouterError>)
        ensures
            r == (match self.admin_fault(*caller) {
                Some(e) => Err(e),
                None => match self.registration_fault(name@, address@, *metadata) {
                    Some(e) => Err(e),
                    None => Ok(()),
                },
            }),
    {
        match self.require_admin(caller) {
            Err(e) => Err(e),
            Ok(()) => self.check_new_route(name, address, metadata),
        }
    }

    pub(crate) fn register_route_internal(
        &mut self,
        caller: &Address,
        name: String,
        address: Address,
        metadata: Option<RouteMetadata>,
        expires_at: Option<u32>,
    ) -> (r: Result<(), RouterError>)
        requires
            old(self).registration_fault(name@, address@, metadata) is None ==> old(
                self,
            ).route_count < u32::MAX,
        ensures
            r == (match old(self).registration_fault(name@, address@, metadata) {
                Some(e) => Err(e),
                None => Ok(()),
            }),
            r is Err ==> *final(self) == *old(self),
            r is Ok ==> old(self).is_registered(
                *caller,
                name,
                address,
                metadata,
                expires_at,
                *final(self),
            ),
            old(self).wf() && old(self).admin is Some ==> final(self).wf(),
    {
        match self.check_new_route(&name, &address, &metadata) {
            Err(e) => {
                return Err(e);
            },
            Ok(()) => {},
        }
        let entry = RouteEntry {
            address: address.clone(),
            name: name.clone(),
            paused: false,
            updated_by: caller.clone(),
            expires_at,
        };
        self.routes.insert(name.clone(), entry);
        match metadata {
            Some(m) => self.metadata.insert(name.clone(), m),
            None => {},
        }
        self.route_names.push(name.clone());
        self.route_count = self.route_count + 1;
        self.events.push(RouterEvent::RouteRegistered { name, address });
        proof {
            if old(self).wf() && old(self).admin is Some {
                lemma_registered_wf(
                    *old(self),
                    *caller,
                    name,
                    address,
                    metadata,
                    expires_at,
                    *self,
                );
            }
        }
        Ok(())
    }

    /// Registers a route under a new name.
    ///
    /// # Errors
    /// * [`RouterError::NotInitialized`] if there is no admin.
    /// * [`RouterError::Unauthorized`] if the caller is not the admin.
    /// * [`RouterError::InvalidRouteName`] if the name is not 1 to 64 ASCII letters,
    ///   digits, hyphens and slashes.
    /// * [`RouterError::RouteAlreadyExists`] if a route or alias has the name.
    /// * [`RouterError::InvalidAddress`] if the address is the zero address.
    /// * [`RouterError::InvalidMetadata`] if the metadata are beyond their limits.
    pub fn register_route(
        &mut self,
        caller: &Address,
        name: String,
        address: Address,
        metadata: Option<RouteMetadata>,
    ) -> (r: Result<(), RouterError>)
        requires
            old(self).admin_fault(*caller) is None && old(self).registration_fault(
                name@,
                address@,
                metadata,
            ) is None ==> old(self).route_count < u32::MAX,
        ensures
            r == (match old(self).admin_fault(*caller) {
                Some(e) => Err(e),
                None => match old(self).registration_fault(name@, address@, metadata) {
                    Some(e) => Err(e),
                    None => Ok(()),
                },
            }),
            r is Err ==> *final(self) == *old(self),
            r is Ok ==> old(self).is_registered(
                *caller,
                name,
                address,
                metadata,
                None,
                *final(self),
            ),
            old(self).wf() ==> final(self).wf(),
    {
        match self.require_admin(caller) {
            Err(e) => {
                return Err(e);
            },
            Ok(()) => {},
        }
        self.register_route_internal(caller, name, address, metadata, None)
    }

    /// Registers a route that expires `ttl_ledgers` ledgers from now, or never.
    ///
    /// # Errors
    /// As [`RouterCore::register_route`].
    pub fn register_route_with_ttl(
        &mut self,
        caller: &Address,
        name: String,
        address: Address,
        ttl_ledgers: Option<u32>,
        sequence: u32,
    ) -> (r: Result<(), RouterError>)
        requires
            old(self).admin_fault(*caller) is None && old(self).registration_fault(
                name@,
                address@,
                None,
            ) is None ==> old(self).route_count < u32::MAX,
        ensures
            r == (match old(self).admin_fault(*caller) {
                Some(e) => Err(e),
                None => match old(self).registration_fault(name@, address@, None) {
                    Some(e) => Err(e),
                    None => Ok(()),
                },
            }),
            r is Err ==> *final(self) == *old(self),
            r is Ok ==> {
                let expires_at = match ttl_ledgers {
                    Some(ttl) => Some(saturating_sum(sequence, ttl)),
                    None => None,
                };
                &&& final(self).routes@ == old(self).routes@.insert(
                    name@,
                    RouteEntry { address, name, paused: false, updated_by: *caller, expires_at },
                )
                &&& final(self).route_names@ == old(self).route_names@.push(name)
                &&& *final(self) == (RouterCore {
                    routes: final(self).routes,
                    metadata: final(self).metadata,
                    route_names: final(self).route_names,
                    route_count: (old(self).route_count + 1) as u32,
                    events: final(self).events,
                    ..*old(self)
                })
                &&& final(self).metadata@ == old(self).metadata@
                &&& final(self).events@ == match expires_at {
                    Some(expires_at) => old(self).events@.push(
                        RouterEvent::RouteRegistered { name, address },
                    ).push(RouterEvent::RouteTtlSet { name, expires_at }),
                    None => old(self).events@.push(
                        RouterEvent::RouteRegistered { name, address },
                    ),
                }
            },
            old(self).wf() ==> final(self).wf(),
    {
        match self.require_admin(caller) {
            Err(e) => {
                return Err(e);
            },
            Ok(()) => {},
        }
        let expires_at: Option<u32> = match ttl_ledgers {
            Some(ttl) => Some(sequence.saturating_add(ttl)),
            None => None,
        };
        match self.register_route_internal(caller, name.clone(), address, None, expires_at) {
            Err(e) => {
                return Err(e);
            },
            Ok(()) => {},
        }
        match expires_at {
            Some(expires_at) => {
                self.events.push(RouterEvent::RouteTtlSet { name, expires_at });
            },
            None => {},
        }
        Ok(())
    }

    /// The ledger after which a route is expired, if it has one.
    pub fn get_route_expiry(&self, name: &String) -> (r: Option<u32>)
        ensures
            r == (if self.routes@.contains_key(name@) {
                self.routes@[name@].expires_at
            } else {
                None
            }),
    {
        match self.routes.get(name) {
            Some(entry) => entry.expires_at,
            None => None,
        }
    }

    /// Whether `after` is `self` with another entry for a registered route.
    pub open spec fn is_updated(self, name: String, entry: RouteEntry, after: RouterCore) -> bool {
        &&& after == (RouterCore { routes: after.routes, events: after.events, ..self })
        &&& after.routes@ == self.routes@.insert(name@, entry)
    }

    /// Extends the lifetime of a route that has not expired: from its expiry on, or
    /// from now on where it has none.
    ///
    /// # Errors
    /// * [`RouterError::NotInitialized`] if there is no admin.
    /// * [`RouterError::Unauthorized`] if the caller is not the admin.
    /// * [`RouterError::RouteNotFound`] if there is no such route.
    /// * [`RouterError::RouteExpired`] if the route has expired.
    pub fn extend_route_ttl(
        &mut self,
        caller: &Address,
        name: String,
        additional_ledgers: u32,
        sequence: u32,
    ) -> (r: Result<(), RouterError>)
        ensures
            r == (match old(self).admin_fault(*caller) {
                Some(e) => Err(e),
                None => if !old(self).routes@.contains_key(name@) {
                    Err(RouterError::RouteNotFound)
                } else if expired(old(self).routes@[name@], sequence) {
                    Err(RouterError::RouteExpired)
                } else {
                    Ok(())
                },
            }),
            r is Err ==> *final(self) == *old(self),
            r is Ok ==> {
                let entry = old(self).routes@[name@];
                let base = match entry.expires_at {
                    Some(expires_at) => expires_at,
                    None => sequence,
                };
                let expires_at = saturating_sum(base, additional_ledgers);
                &&& old(self).is_updated(
                    name,
                    RouteEntry { expires_at: Some(expires_at), updated_by: *caller, ..entry },
                    *final(self),
                )
                &&& final(self).events@ == old(self).events@.push(
                    RouterEvent::RouteTtlExtended { name, expires_at },
                )
            },
            old(self).wf() ==> final(self).wf(),
    {
        match self.require_admin(caller) {
            Err(e) => {
                return Err(e);
            },
            Ok(()) => {},
        }
        let mut entry: RouteEntry = match self.routes.get(&name) {
            Some(entry) => entry.clone(),
            None => {
                return Err(RouterError::RouteNotFound);
            },
        };
        if is_route_expired(&entry, sequence) {
            return Err(RouterError::RouteExpired);
        }
        let base: u32 = match entry.expires_at {
            Some(expires_at) => expires_at,
            None => sequence,
        };
        let expires_at: u32 = base.saturating_add(additional_ledgers);
        entry.expires_at = Some(expires_at);
        entry.updated_by = caller.clone();
        self.routes.insert(name.clone(), entry);
        self.events.push(RouterEvent::RouteTtlExtended { name, expires_at });
        Ok(())
    }

    /// Points a route to a new address.
    ///
    /// # Errors
    /// * [`RouterError::NotInitialized`] if there is no admin.
    /// * [`RouterError::Unauthorized`] if the caller is not the admin.
    /// * [`RouterError::RouteNotFound`] if there is no such route.
    pub fn update_route(&mut self, caller: &Address, name: String, new_address: Address) -> (r:
        Result<(), RouterError>)
        ensures
            r == (match old(self).admin_fault(*caller) {
                Some(e) => Err(e),
                None => if !old(self).routes@.contains_key(name@) {
                    Err(RouterError::RouteNotFound)
                } else {
                    Ok(())
                },
            }),
            r is Err ==> *final(self) == *old(self),
            r is Ok ==> {
                let entry = old(self).routes@[name@];
                &&& old(self).is_updated(
                    name,
                    RouteEntry { address: new_address, updated_by: *caller, ..entry },
                    *final(self),
                )
                &&& final(self).events@ == old(self).events@.push(
                    RouterEvent::RouteUpdated { name },
                ).push(
                    RouterEvent::RouteOverwritten {
                        name,
                        old_address: entry.address,
                        new_address,
                    },
                )
            },
            old(self).wf() ==> final(self).wf(),
    {
        match self.require_admin(caller) {
            Err(e) => {
                return Err(e);
            },
            Ok(()) => {},
        }
        let mut entry: RouteEntry = match self.routes.get(&name) {
            Some(entry) => entry.clone(),
            None => {
                return Err(RouterError::RouteNotFound);
            },
        };
        let old_address: Address = entry.address.clone();
        entry.address = new_address.clone();
        entry.updated_by = caller.clone();
        self.routes.insert(name.clone(), entry);
        self.events.push(RouterEvent::RouteUpdated { name: name.clone() });
        self.events.push(RouterEvent::RouteOverwritten { name, old_address, new_address });
        Ok(())
    }

    /// Pauses or unpauses a route.
    ///
    /// # Errors
    /// * [`RouterError::NotInitialized`] if there is no admin.
    /// * [`RouterError::Unauthorized`] if the caller is not the admin.
    /// * [`RouterError::RouteNotFound`] if there is no such route.
    pub fn set_route_paused(
        &mut self,
        caller: &Address,
        name: String,
        paused: bool,
        sequence: u32,
    ) -> (r: Result<(), RouterError>)
        ensures
            r == (match old(self).admin_fault(*caller) {
                Some(e) => Err(e),
                None => if !old(self).routes@.contains_key(name@) {
                    Err(RouterError::RouteNotFound)
                } else {
                    Ok(())
                },
            }),
            r is Err ==> *final(self) == *old(self),
            r is Ok ==> {
                let entry = old(self).routes@[name@];
                &&& *final(self) == (RouterCore {
                    routes: final(self).routes,
                    best_route: final(self).best_route,
                    events: final(self).events,
                    ..*old(self)
                })
                &&& final(self).routes@ == old(self).routes@.insert(
                    name@,
                    RouteEntry { paused, updated_by: *caller, ..entry },
                )
                &&& final(self).best_route == best_name(*final(self), sequence)
                &&& final(self).events@ == old(self).events@.push(
                    RouterEvent::RoutePaused { name, paused },
                ) + best_events(*final(self), sequence)
            },
            old(self).wf() ==> final(self).wf(),
    {
        match self.require_admin(caller) {
            Err(e) => {
                return Err(e);
            },
            Ok(()) => {},
        }
        let mut entry: RouteEntry = match self.routes.get(&name) {
            Some(entry) => entry.clone(),
            None => {
                return Err(RouterError::RouteNotFound);
            },
        };
        entry.paused = paused;
        entry.updated_by = caller.clone();
        self.routes.insert(name.clone(), entry);
        self.events.push(RouterEvent::RoutePaused { name, paused });
        let ghost before = *self;
        recompute_best_route(self, sequence);
        proof {
            lemma_best_depends_on_routes(before, *self, sequence);
        }
        Ok(())
    }

    /// Pauses or unpauses the whole router.
    ///
    /// # Errors
    /// * [`RouterError::NotInitialized`] if there is no admin.
    /// * [`RouterError::Unauthorized`] if the caller is not the admin.
    pub fn set_paused(&mut self, caller: &Address, paused: bool) -> (r: Result<(), RouterError>)
        ensures
            r == (match old(self).admin_fault(*caller) {
                Some(e) => Err(e),
                None => Ok(()),
            }),
            r is Err ==> *final(self) == *old(self),
            r is Ok ==> *final(self) == (RouterCore {
                paused,
                events: final(self).events,
                ..*old(self)
            }) && final(self).events@ == old(self).events@.push(
                RouterEvent::RouterPaused { paused },
            ),
            old(self).wf() ==> final(self).wf(),
    {
        match self.require_admin(caller) {
            Err(e) => {
                return Err(e);
            },
            Ok(()) => {},
        }
        self.paused = paused;
        self.events.push(RouterEvent::RouterPaused { paused });
        Ok(())
    }

    /// The entry of a route.
    pub fn get_route(&self, name: &String) -> (r: Option<RouteEntry>)
        ensures
            r == (if self.routes@.contains_key(name@) {
                Some(self.routes@[name@])
            } else {
                None
            }),
    {
        match self.routes.get(name) {
            Some(entry) => Some(entry.clone()),
            None => None,
        }
    }

    /// How many resolutions have succeeded.
    pub fn total_routed(&self) -> (r: u64)
        ensures
            r == self.total_routed,
    {
        self.total_routed
    }

    /// How many routes are registered, aliases not counted.
    pub fn route_count(&self) -> (r: u32)
        ensures
            r == self.route_count,
    {
        self.route_count
    }

    /// The admin address.
    ///
    /// # Errors
    /// * [`RouterError::NotInitialized`] if there is no admin.
    pub fn admin(&self) -> (r: Result<Address, RouterError>)
        ensures
            r == (match self.admin {
                Some(admin) => Ok(admin),
                None => Err(RouterError::NotInitialized),
            }),
    {
        match &self.admin {
            Some(admin) => Ok(admin.clone()),
            None => Err(RouterError::NotInitialized),
        }
    }

    /// Hands the admin role to `new_admin`.
    ///
    /// # Errors
    /// * [`RouterError::NotInitialized`] if there is no admin.
    /// * [`RouterError::Unauthorized`] if `current` is not the admin.
    pub fn transfer_admin(&mut self, current: Address, new_admin: Address) -> (r: Result<
        (),
        RouterError,
    >)
        ensures
            r == (match old(self).admin_fault(current) {
                Some(e) => Err(e),
                None => Ok(()),
            }),
            r is Err ==> *final(self) == *old(self),
            r is Ok ==> *final(self) == (RouterCore {
                admin: Some(new_admin),
                events: final(self).events,
                ..*old(self)
            }) && final(self).events@ == old(self).events@.push(
                RouterEvent::AdminTransferred { old_admin: current, new_admin },
            ),
            old(self).wf() ==> final(self).wf(),
    {
        match self.require_admin(&current) {
            Err(e) => {
                return Err(e);
            },
            Ok(()) => {},
        }
        self.admin = Some(new_admin.clone());
        self.events.push(RouterEvent::AdminTransferred { old_admin: current, new_admin });
        Ok(())
    }
}

/// A sum that stops at the largest value.
pub open spec fn saturating_sum(a: u32, b: u32) -> u32 {
    if a + b <= u32::MAX {
        (a + b) as u32
    } else {
        u32::MAX
    }
}

/// Registering a route keeps what holds of the router.
proof fn lemma_registered_wf(
    before: RouterCore,
    caller: Address,
    name: String,
    address: Address,
    metadata: Option<RouteMetadata>,
    expires_at: Option<u32>,
    after: RouterCore,
)
    requires
        before.wf(),
        before.admin is Some,
        before.route_count < u32::MAX,
        before.registration_fault(name@, address@, metadata) is None,
        before.is_registered(caller, name, address, metadata, expires_at, after),
    ensures
        after.wf(),
{
    assert forall|n: Seq<char>| #[trigger] after.routes@.contains_key(n) <==> lists(
        after.route_names@,
        n,
    ) by {
        lemma_lists_push(before.route_names@, name, n);
        assert(before.routes@.contains_key(n) <==> lists(before.route_names@, n));
    }
    assert forall|i: int, j: int| 0 <= i < j < after.route_names@.len() implies (
    #[trigger] after.route_names@[i])@ != (#[trigger] after.route_names@[j])@ by {
        if j == before.route_names@.len() {
            assert(!before.routes@.contains_key(name@));
            assert(before.route_names@[i]@ != name@);
        } else {
            assert(before.route_names@[i]@ != before.route_names@[j]@);
        }
    }
    assert forall|n: Seq<char>| #[trigger] after.routes@.contains_key(n) implies after.routes@[n].name@
        == n && is_name(n) by {
        if n != name@ {
            assert(before.routes@.contains_key(n));
        }
    }
    assert forall|alias: Seq<char>| #[trigger] after.aliases@.contains_key(alias) implies is_name(
        alias,
    ) && !after.routes@.contains_key(alias) && after.routes@.contains_key(
        after.aliases@[alias]@,
    ) by {
        assert(before.aliases@.contains_key(alias));
    }
    assert forall|n: Seq<char>| #[trigger] after.metadata@.contains_key(
        n,
    ) implies after.routes@.contains_key(n) && valid_metadata(after.metadata@[n]) by {
        if n != name@ {
            assert(before.metadata@.contains_key(n));
        }
    }
}

} // verus!
