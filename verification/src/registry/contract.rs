//! Registration, lookup and deprecation of contracts.

use super::constraint::{
    all_allow, constraints_of, match_version, parse_constraints, Constraint,
};
use super::types::{ContractEntry, RegistryError, RegistryEvent, RouterRegistry};
use crate::common::{admin_check, require_admin, Address};
use crate::store::{KeyedStore, StoreKey};
use crate::text::{copy_strings, lemma_lists_push, list_contains, lists};
use vstd::prelude::*;

verus! {

/// Whether versions stand in ascending order, without repetitions.
pub open spec fn ascending(versions: Seq<u32>) -> bool {
    forall|i: int, j: int| 0 <= i < j < versions.len() ==> #[trigger] versions[i] < #[trigger] versions[j]
}

/// Those of the versions that meet all constraints.
pub open spec fn allowed(versions: Seq<u32>, constraints: Seq<Constraint>) -> Seq<u32>
    decreases versions.len(),
{
    if versions.len() == 0 {
        seq![]
    } else if all_allow(constraints, versions.last()) {
        allowed(versions.drop_last(), constraints).push(versions.last())
    } else {
        allowed(versions.drop_last(), constraints)
    }
}

impl RouterRegistry {
    /// The versions of a name, in the order of registration.
    pub open spec fn versions_of(self, name: Seq<char>) -> Seq<u32> {
        if self.versions@.contains_key(name) {
            self.versions@[name]@
        } else {
            seq![]
        }
    }

    /// What holds of the registry between any two operations:
    /// - the versions of a name ascend, are not zero, and all have entries;
    /// - every entry carries its own name and version, which is listed;
    /// - the names are listed once each, and are those that have versions;
    /// - an address that is looked up leads to an entry with that address.
    pub open spec fn wf(self) -> bool {
        &&& forall|name: Seq<char>| ascending(#[trigger] self.versions_of(name))
        &&& forall|name: Seq<char>, version: u32| #[trigger]
            self.entries@.contains_key((name, version)) <==> self.versions_of(name).contains(
                version,
            )
        &&& forall|name: Seq<char>, version: u32| #[trigger]
            self.entries@.contains_key((name, version)) ==> version > 0
                && self.entries@[(name, version)].name@ == name
                && self.entries@[(name, version)].version == version
        &&& forall|i: int, j: int|
            0 <= i < j < self.names@.len() ==> (#[trigger] self.names@[i])@ != (
            #[trigger] self.names@[j])@
        &&& forall|name: Seq<char>| #[trigger]
            lists(self.names@, name) <==> self.versions_of(name).len() > 0
        &&& forall|address: Seq<char>| #[trigger]
            self.addresses@.contains_key(address) ==> self.entries@.contains_key(
                self.addresses@[address].id(),
            ) && self.entries@[self.addresses@[address].id()].address@ == address
    }

    /// What an admin check answers.
    pub open spec fn admin_fault(self, caller: Address) -> Option<RegistryError> {
        match admin_check(
            self.admin,
            caller,
            RegistryError::NotInitialized,
            RegistryError::Unauthorized,
        ) {
            Ok(()) => None,
            Err(e) => Some(e),
        }
    }

    /// Why a version cannot be registered.
    pub open spec fn registration_fault(self, name: Seq<char>, version: u32) -> Option<
        RegistryError,
    > {
        if version == 0 {
            Some(RegistryError::InvalidVersion)
        } else if self.entries@.contains_key((name, version)) {
            Some(RegistryError::AlreadyRegistered)
        } else if exists|i: int|
            0 <= i < self.versions_of(name).len() && version <= #[trigger] self.versions_of(
                name,
            )[i] {
            Some(RegistryError::InvalidVersion)
        } else {
            None
        }
    }

    /// Whether `after` is `self` with a new entry.
    pub open spec fn is_registered(
        self,
        caller: Address,
        name: String,
        address: Address,
        version: u32,
        after: RouterRegistry,
    ) -> bool {
        &&& after == (RouterRegistry {
            entries: after.entries,
            versions: after.versions,
            names: after.names,
            addresses: after.addresses,
            events: after.events,
            ..self
        })
        &&& after.entries@ == self.entries@.insert(
            (name@, version),
            ContractEntry {
                address,
                name,
                version,
                deprecated: false,
                registered_by: caller,
                deprecation_reason: None,
            },
        )
        &&& after.versions@ == self.versions@.insert(name@, after.versions@[name@])
        &&& after.versions@[name@]@ == self.versions_of(name@).push(version)
        &&& after.names@ == if lists(self.names@, name@) {
            self.names@
        } else {
            self.names@.push(name)
        }
        &&& after.addresses@ == self.addresses@.insert(address@, (name, version))
        &&& after.events@ == self.events@.push(RegistryEvent::ContractRegistered { name, version })
    }

    pub fn new() -> (r: Self)
        ensures
            r.wf(),
            r.admin is None,
            r.entries@ == Map::<(Seq<char>, u32), ContractEntry>::empty(),
            r.versions@ == Map::<Seq<char>, Vec<u32>>::empty(),
            r.names@.len() == 0,
            r.addresses@ == Map::<Seq<char>, (String, u32)>::empty(),
            r.events@.len() == 0,
    {
        RouterRegistry {
            admin: None,
            entries: KeyedStore::new(),
            versions: KeyedStore::new(),
            names: Vec::new(),
            addresses: KeyedStore::new(),
            events: Vec::new(),
        }
    }

    /// Sets the admin of a new registry.
    ///
    /// # Errors
    /// * [`RegistryError::AlreadyInitialized`] if there is an admin already.
    pub fn initialize(&mut self, admin: Address) -> (r: Result<(), RegistryError>)
        ensures
            r == (if old(self).admin is Some {
                Err(RegistryError::AlreadyInitialized)
            } else {
                Ok(())
            }),
            r is Err ==> *final(self) == *old(self),
            r is Ok ==> *final(self) == (RouterRegistry { admin: Some(admin), ..*old(self) }),
            old(self).wf() ==> final(self).wf(),
    {
        if self.admin.is_some() {
            return Err(RegistryError::AlreadyInitialized);
        }
        self.admin = Some(admin);
        proof {
            lemma_same_tables_wf(*old(self), *self);
        }
        Ok(())
    }

    /// Checks that the caller is the admin.
    ///
    /// # Errors
    /// * [`RegistryError::NotInitialized`] if there is no admin.
    /// * [`RegistryError::Unauthorized`] if the caller is not the admin.
    pub fn require_admin(&self, caller: &Address) -> (r: Result<(), RegistryError>)
        ensures
            r == (match self.admin_fault(*caller) {
                Some(e) => Err(e),
                None => Ok(()),
            }),
    {
        require_admin(
            &self.admin,
            caller,
            RegistryError::NotInitialized,
            RegistryError::Unauthorized,
        )
    }

    fn get_versions_list(&self, name: &String) -> (r: Vec<u32>)
        ensures
            r@ == self.versions_of(name@),
    {
        let mut copy: Vec<u32> = Vec::new();
        match self.versions.get(name) {
            Some(versions) => {
                let mut i: usize = 0;
                while i < versions.len()
                    invariant
                        i <= versions@.len(),
                        copy@ == versions@.take(i as int),
                    decreases versions@.len() - i,
                {
                    proof {
                        assert(versions@.take(i + 1) =~= copy@.push(versions@[i as int]));
                    }
                    copy.push(versions[i]);
                    i = i + 1;
                }
                proof {
                    assert(versions@.take(i as int) =~= versions@);
                }
            },
            None => {},
        }
        copy
    }

    /// Checks that a version can be registered.
    pub(crate) fn validate_registration(&self, name: &String, version: u32) -> (r: Result<
        (),
        RegistryError,
    >)
        ensures
            r == (match self.registration_fault(name@, version) {
                Some(e) => Err(e),
                None => Ok(()),
            }),
    {
        if version == 0 {
            return Err(RegistryError::InvalidVersion);
        }
        if self.entries.contains(&(name.clone(), version)) {
            return Err(RegistryError::AlreadyRegistered);
        }
        let versions: Vec<u32> = self.get_versions_list(name);
        let mut i: usize = 0;
        while i < versions.len()
            invariant
                i <= versions@.len(),
                versions@ == self.versions_of(name@),
                version > 0,
                !self.entries@.contains_key((name@, version)),
                forall|j: int| 0 <= j < i ==> version > #[trigger] self.versions_of(name@)[j],
            decreases versions@.len() - i,
        {
            if version <= versions[i] {
                proof {
                    assert(version <= self.versions_of(name@)[i as int]);
                }
                return Err(RegistryError::InvalidVersion);
            }
            i = i + 1;
        }
        Ok(())
    }

    pub(crate) fn register_entry(
        &mut self,
        caller: &Address,
        name: String,
        address: Address,
        version: u32,
    ) -> (r: Result<(), RegistryError>)
        ensures
            r == (match old(self).registration_fault(name@, version) {
                Some(e) => Err(e),
                None => Ok(()),
            }),
            r is Err ==> *final(self) == *old(self),
            r is Ok ==> old(self).is_registered(*caller, name, address, version, *final(self)),
            old(self).wf() ==> final(self).wf(),
    {
        match self.validate_registration(&name, version) {
            Err(e) => {
                return Err(e);
            },
            Ok(()) => {},
        }
        let entry = ContractEntry {
            address: address.clone(),
            name: name.clone(),
            version,
            deprecated: false,
            registered_by: caller.clone(),
            deprecation_reason: None,
        };
        self.entries.insert((name.clone(), version), entry);
        let mut versions: Vec<u32> = self.get_versions_list(&name);
        versions.push(version);
        self.versions.insert(name.clone(), versions);
        if !list_contains(&self.names, name.as_str()) {
            self.names.push(name.clone());
        }
        self.addresses.insert(address, (name.clone(), version));
        self.events.push(RegistryEvent::ContractRegistered { name, version });
        proof {
            if old(self).wf() {
                lemma_registered_wf(*old(self), *caller, name, address, version, *self);
            }
        }
        Ok(())
    }

    /// Registers a contract under a name and a version that is higher than all before.
    ///
    /// # Errors
    /// * [`RegistryError::NotInitialized`] if there is no admin.
    /// * [`RegistryError::Unauthorized`] if the caller is not the admin.
    /// * [`RegistryError::InvalidVersion`] if the version is 0 or not higher than all
    ///   others of the name.
    /// * [`RegistryError::AlreadyRegistered`] if the version is registered already.
    pub fn register(
        &mut self,
        caller: &Address,
        name: String,
        address: Address,
        version: u32,
    ) -> (r: Result<(), RegistryError>)
        ensures
            r == (match old(self).admin_fault(*caller) {
                Some(e) => Err(e),
                None => match old(self).registration_fault(name@, version) {
                    Some(e) => Err(e),
                    None => Ok(()),
                },
            }),
            r is Err ==> *final(self) == *old(self),
            r is Ok ==> old(self).is_registered(*caller, name, address, version, *final(self)),
            old(self).wf() ==> final(self).wf(),
    {
        match self.require_admin(caller) {
            Err(e) => {
                return Err(e);
            },
            Ok(()) => {},
        }
        self.register_entry(caller, name, address, version)
    }

    /// Registers a contract if it answers: `reachable` is whether a call of its health
    /// function went through, or `None` where no such call was asked for.
    ///
    /// # Errors
    /// * [`RegistryError::ContractUnreachable`] if the call failed.
    /// * As [`RouterRegistry::register`].
    pub fn register_with_check(
        &mut self,
        caller: &Address,
        name: String,
        version: u32,
        address: Address,
        reachable: Option<bool>,
    ) -> (r: Result<(), RegistryError>)
        ensures
            r == (match old(self).admin_fault(*caller) {
                Some(e) => Err(e),
                None => if reachable == Some(false) {
                    Err(RegistryError::ContractUnreachable)
                } else {
                    match old(self).registration_fault(name@, version) {
                        Some(e) => Err(e),
                        None => Ok(()),
                    }
                },
            }),
            r is Err ==> *final(self) == *old(self),
            r is Ok ==> old(self).is_registered(*caller, name, address, version, *final(self)),
            old(self).wf() ==> final(self).wf(),
    {
        match self.require_admin(caller) {
            Err(e) => {
                return Err(e);
            },
            Ok(()) => {},
        }
        match reachable {
            Some(false) => {
                return Err(RegistryError::ContractUnreachable);
            },
            _ => {},
        }
        self.register_entry(caller, name, address, version)
    }

    /// The entry of a name and version.
    ///
    /// # Errors
    /// * [`RegistryError::NotFound`] if there is none.
    pub fn get(&self, name: &String, version: u32) -> (r: Result<ContractEntry, RegistryError>)
        ensures
            r == (if self.entries@.contains_key((name@, version)) {
                Ok(self.entries@[(name@, version)])
            } else {
                Err(RegistryError::NotFound)
            }),
    {
        match self.entries.get(&(name.clone(), version)) {
            Some(entry) => Ok(entry.clone()),
            None => Err(RegistryError::NotFound),
        }
    }

    /// The last of the versions whose entry is not deprecated.
    pub open spec fn last_live(self, name: Seq<char>, versions: Seq<u32>) -> Option<ContractEntry>
        decreases versions.len(),
    {
        if versions.len() == 0 {
            None
        } else if !self.entries@[(name, versions.last())].deprecated {
            Some(self.entries@[(name, versions.last())])
        } else {
            self.last_live(name, versions.drop_last())
        }
    }

    /// What looking for the latest of some versions answers.
    pub open spec fn latest_among(self, name: Seq<char>, versions: Seq<u32>) -> Result<
        ContractEntry,
        RegistryError,
    > {
        if versions.len() == 0 {
            Err(RegistryError::NotFound)
        } else {
            match self.last_live(name, versions) {
                Some(entry) => Ok(entry),
                None => Err(RegistryError::AllVersionsDeprecated),
            }
        }
    }

    /// The entry of the highest version of a name that is not deprecated.
    ///
    /// # Errors
    /// * [`RegistryError::NotFound`] if the name has no versions.
    /// * [`RegistryError::AllVersionsDeprecated`] if all of them are deprecated.
    pub fn get_latest(&self, name: &String) -> (r: Result<ContractEntry, RegistryError>)
        ensures
            self.wf() ==> r == self.latest_among(name@, self.versions_of(name@)),
    {
        let versions: Vec<u32> = self.get_versions_list(name);
        self.latest_of(name, &versions)
    }

    /// The entry of the last of the versions that is not deprecated.
    fn latest_of(&self, name: &String, versions: &Vec<u32>) -> (r: Result<
        ContractEntry,
        RegistryError,
    >)
        ensures
            (forall|i: int|
                0 <= i < versions@.len() ==> self.entries@.contains_key(
                    (name@, #[trigger] versions@[i]),
                )) ==> r == self.latest_among(name@, versions@),
    {
        if versions.len() == 0 {
            return Err(RegistryError::NotFound);
        }
        let mut i: usize = versions.len();
        proof {
            assert(versions@.take(i as int) =~= versions@);
        }
        while i > 0
            invariant
                i <= versions@.len(),
                versions@.len() > 0,
                (forall|j: int|
                    0 <= j < versions@.len() ==> self.entries@.contains_key(
                        (name@, #[trigger] versions@[j]),
                    )) ==> self.last_live(name@, versions@) == self.last_live(
                    name@,
                    versions@.take(i as int),
                ),
            decreases i,
        {
            i = i - 1;
            proof {
                assert(versions@.take(i + 1).drop_last() =~= versions@.take(i as int));
            }
            match self.entries.get(&(name.clone(), versions[i])) {
                Some(entry) => {
                    if !entry.deprecated {
                        return Ok(entry.clone());
                    }
                },
                None => {
                    return Err(RegistryError::NotFound);
                },
            }
        }
        Err(RegistryError::AllVersionsDeprecated)
    }

    /// The entry of the highest version of a name that meets a constraint and is not
    /// deprecated. Without a constraint, as [`RouterRegistry::get_latest`].
    ///
    /// A constraint is a version number behind `>=`, `<=`, `>`, `<`, `^`, `~` or nothing, as
    /// in `^2`; or several of them with commas in between, as in `>=2.0,<3.0`, which are all
    /// to be met.
    ///
    /// # Errors
    /// * [`RegistryError::NotFound`] if the name has no versions, or none that meets the
    ///   constraint.
    /// * [`RegistryError::InvalidConstraint`] if the constraint is no such text.
    /// * [`RegistryError::AllVersionsDeprecated`] if all versions that meet the constraint
    ///   are deprecated.
    pub fn get_latest_with_constraint(&self, name: &String, constraint: Option<String>) -> (r:
        Result<ContractEntry, RegistryError>)
        ensures
            self.wf() ==> r == (match constraint {
                None => self.latest_among(name@, self.versions_of(name@)),
                Some(text) => if self.versions_of(name@).len() == 0 {
                    Err(RegistryError::NotFound)
                } else {
                    match constraints_of(text@) {
                        None => Err(RegistryError::InvalidConstraint),
                        Some(c) => self.latest_among(
                            name@,
                            allowed(self.versions_of(name@), c),
                        ),
                    }
                },
            }),
    {
        let versions: Vec<u32> = self.get_versions_list(name);
        match constraint {
            None => self.latest_of(name, &versions),
            Some(text) => {
                if versions.len() == 0 {
                    return Err(RegistryError::NotFound);
                }
                match parse_constraints(text.as_str()) {
                    None => Err(RegistryError::InvalidConstraint),
                    Some(c) => {
                        let matching: Vec<u32> = allowed_versions(&versions, &c);
                        proof {
                            assert forall|i: int| 0 <= i < matching@.len() && self.wf() implies
                                self.entries@.contains_key((name@, #[trigger] matching@[i])) by {
                                lemma_allowed(versions@, c@, i);
                            }
                        }
                        self.latest_of(name, &matching)
                    },
                }
            },
        }
    }

    /// Why an entry cannot be deprecated.
    pub open spec fn deprecation_fault(self, name: Seq<char>, version: u32) -> Option<
        RegistryError,
    > {
        if !self.entries@.contains_key((name, version)) {
            Some(RegistryError::VersionNotFound)
        } else if self.entries@[(name, version)].deprecated {
            Some(RegistryError::AlreadyDeprecated)
        } else {
            None
        }
    }

    /// Whether `after` is `self` with an entry deprecated.
    pub open spec fn is_deprecated(
        self,
        name: String,
        version: u32,
        reason: Option<String>,
        after: RouterRegistry,
    ) -> bool {
        &&& after == (RouterRegistry { entries: after.entries, events: after.events, ..self })
        &&& after.entries@ == self.entries@.insert(
            (name@, version),
            ContractEntry {
                deprecated: true,
                deprecation_reason: reason,
                ..self.entries@[(name@, version)]
            },
        )
        &&& after.events@ == self.events@.push(RegistryEvent::ContractDeprecated { name, version })
    }

    pub(crate) fn deprecate_one(&mut self, name: String, version: u32, reason: Option<String>) -> (r:
        Result<(), RegistryError>)
        ensures
            r == (match old(self).deprecation_fault(name@, version) {
                Some(e) => Err(e),
                None => Ok(()),
            }),
            r is Err ==> *final(self) == *old(self),
            r is Ok ==> old(self).is_deprecated(name, version, reason, *final(self)),
            old(self).wf() ==> final(self).wf(),
    {
        let mut entry: ContractEntry = match self.entries.get(&(name.clone(), version)) {
            Some(entry) => entry.clone(),
            None => {
                return Err(RegistryError::VersionNotFound);
            },
        };
        if entry.deprecated {
            return Err(RegistryError::AlreadyDeprecated);
        }
        entry.deprecated = true;
        entry.deprecation_reason = reason;
        self.entries.insert((name.clone(), version), entry);
        self.events.push(RegistryEvent::ContractDeprecated { name, version });
        proof {
            if old(self).wf() {
                lemma_deprecated_wf(*old(self), name, version, reason, *self);
            }
        }
        Ok(())
    }

    /// Deprecates a version, so that it is no longer found as the latest.
    ///
    /// # Errors
    /// * [`RegistryError::NotInitialized`] if there is no admin.
    /// * [`RegistryError::Unauthorized`] if the caller is not the admin.
    /// * [`RegistryError::VersionNotFound`] if there is no such version.
    /// * [`RegistryError::AlreadyDeprecated`] if it is deprecated already.
    pub fn deprecate(
        &mut self,
        caller: &Address,
        name: String,
        version: u32,
        reason: Option<String>,
    ) -> (r: Result<(), RegistryError>)
        ensures
            r == (match old(self).admin_fault(*caller) {
                Some(e) => Err(e),
                None => match old(self).deprecation_fault(name@, version) {
                    Some(e) => Err(e),
                    None => Ok(()),
                },
            }),
            r is Err ==> *final(self) == *old(self),
            r is Ok ==> old(self).is_deprecated(name, version, reason, *final(self)),
            old(self).wf() ==> final(self).wf(),
    {
        match self.require_admin(caller) {
            Err(e) => {
                return Err(e);
            },
            Ok(()) => {},
        }
        self.deprecate_one(name, version, reason)
    }

    /// Hands the registry over to a new admin.
    ///
    /// # Errors
    /// * [`RegistryError::NotInitialized`] if there is no admin.
    /// * [`RegistryError::Unauthorized`] if `current` is not the admin.
    pub fn transfer_admin(&mut self, current: Address, new_admin: Address) -> (r: Result<
        (),
        RegistryError,
    >)
        ensures
            r == (match old(self).admin_fault(current) {
                Some(e) => Err(e),
                None => Ok(()),
            }),
            r is Err ==> *final(self) == *old(self),
            r is Ok ==> *final(self) == (RouterRegistry {
                admin: Some(new_admin),
                events: final(self).events,
                ..*old(self)
            }) && final(self).events@ == old(self).events@.push(
                RegistryEvent::AdminTransferred { old_admin: current, new_admin },
            ),
            old(self).wf() ==> final(self).wf(),
    {
        match self.require_admin(&current) {
            Err(e) => {
                return Err(e);
            },
            Ok(()) => {},
        }
        self.admin = Some(new_admin.clone());
        self.events.push(RegistryEvent::AdminTransferred { old_admin: current, new_admin });
        proof {
            lemma_same_tables_wf(*old(self), *self);
        }
        Ok(())
    }

    /// The current admin.
    ///
    /// # Errors
    /// * [`RegistryError::NotInitialized`] if there is none.
    pub fn admin(&self) -> (r: Result<Address, RegistryError>)
        ensures
            r == (match self.admin {
                Some(admin) => Ok(admin),
                None => Err(RegistryError::NotInitialized),
            }),
    {
        match &self.admin {
            Some(admin) => Ok(admin.clone()),
            None => Err(RegistryError::NotInitialized),
        }
    }

    /// The versions of a name, in the order of registration.
    pub fn versions(&self, name: &String) -> (r: Vec<u32>)
        ensures
            r@ == self.versions_of(name@),
    {
        self.get_versions_list(name)
    }

    /// The entries of those of the versions that have one.
    pub open spec fn entries_of(self, name: Seq<char>, versions: Seq<u32>) -> Seq<ContractEntry>
        decreases versions.len(),
    {
        if versions.len() == 0 {
            seq![]
        } else if self.entries@.contains_key((name, versions.last())) {
            self.entries_of(name, versions.drop_last()).push(
                self.entries@[(name, versions.last())],
            )
        } else {
            self.entries_of(name, versions.drop_last())
        }
    }

    /// All entries of a name, deprecated ones too, in the order of their versions.
    pub fn get_all_versions(&self, name: &String) -> (r: Vec<ContractEntry>)
        ensures
            r@ == self.entries_of(name@, self.versions_of(name@)),
    {
        let versions: Vec<u32> = self.get_versions_list(name);
        let mut entries: Vec<ContractEntry> = Vec::new();
        let mut i: usize = 0;
        while i < versions.len()
            invariant
                i <= versions@.len(),
                entries@ == self.entries_of(name@, versions@.take(i as int)),
            decreases versions@.len() - i,
        {
            proof {
                assert(versions@.take(i + 1).drop_last() =~= versions@.take(i as int));
            }
            match self.entries.get(&(name.clone(), versions[i])) {
                Some(entry) => {
                    entries.push(entry.clone());
                },
                None => {},
            }
            i = i + 1;
        }
        proof {
            assert(versions@.take(i as int) =~= versions@);
        }
        entries
    }

    /// All registered names, in the order of their first registration.
    pub fn get_all_names(&self) -> (r: Vec<String>)
        ensures
            r@ == self.names@,
    {
        copy_strings(&self.names)
    }

    /// The entry that was registered last for an address.
    pub fn get_entry_by_address(&self, address: &Address) -> (r: Option<ContractEntry>)
        ensures
            r == (if self.addresses@.contains_key(address@) && self.entries@.contains_key(
                self.addresses@[address@].id(),
            ) {
                Some(self.entries@[self.addresses@[address@].id()])
            } else {
                None
            }),
    {
        match self.addresses.get(address) {
            Some(key) => match self.entries.get(key) {
                Some(entry) => Some(entry.clone()),
                None => None,
            },
            None => None,
        }
    }
}

/// Those of the versions that meet all constraints.
fn allowed_versions(versions: &Vec<u32>, constraints: &Vec<Constraint>) -> (r: Vec<u32>)
    ensures
        r@ == allowed(versions@, constraints@),
{
    let mut matching: Vec<u32> = Vec::new();
    let mut i: usize = 0;
    while i < versions.len()
        invariant
            i <= versions@.len(),
            matching@ == allowed(versions@.take(i as int), constraints@),
        decreases versions@.len() - i,
    {
        proof {
            assert(versions@.take(i + 1).drop_last() =~= versions@.take(i as int));
        }
        if match_version(constraints, versions[i]) {
            matching.push(versions[i]);
        }
        i = i + 1;
    }
    proof {
        assert(versions@.take(i as int) =~= versions@);
    }
    matching
}

/// What meets all constraints is one of the versions.
pub proof fn lemma_allowed(versions: Seq<u32>, constraints: Seq<Constraint>, i: int)
    requires
        0 <= i < allowed(versions, constraints).len(),
    ensures
        versions.contains(allowed(versions, constraints)[i]),
        all_allow(constraints, allowed(versions, constraints)[i]),
    decreases versions.len(),
{
    if versions.len() > 0 {
        let rest = versions.drop_last();
        if i < allowed(rest, constraints).len() {
            lemma_allowed(rest, constraints, i);
            let version = allowed(rest, constraints)[i];
            let j = choose|j: int| 0 <= j < rest.len() && rest[j] == version;
            assert(versions[j] == version);
        } else {
            assert(versions[versions.len() - 1] == allowed(versions, constraints)[i]);
        }
    }
}

/// What holds of the registry does not depend on its admin or its events.
proof fn lemma_same_tables_wf(before: RouterRegistry, after: RouterRegistry)
    requires
        after == (RouterRegistry { admin: after.admin, events: after.events, ..before }),
    ensures
        before.wf() ==> after.wf(),
{
    if before.wf() {
        assert forall|name: Seq<char>| after.versions_of(name) == before.versions_of(name) by {}
        assert forall|name: Seq<char>| ascending(#[trigger] after.versions_of(name)) by {
            assert(ascending(before.versions_of(name)));
        }
        assert forall|name: Seq<char>| #[trigger] lists(after.names@, name) <==> after.versions_of(
            name,
        ).len() > 0 by {
            assert(lists(before.names@, name) <==> before.versions_of(name).len() > 0);
        }
    }
}

/// Deprecating an entry keeps what holds of the registry.
proof fn lemma_deprecated_wf(
    before: RouterRegistry,
    name: String,
    version: u32,
    reason: Option<String>,
    after: RouterRegistry,
)
    requires
        before.wf(),
        before.deprecation_fault(name@, version) is None,
        before.is_deprecated(name, version, reason, after),
    ensures
        after.wf(),
{
    assert forall|n: Seq<char>| after.versions_of(n) == before.versions_of(n) by {}
    assert forall|n: Seq<char>| ascending(#[trigger] after.versions_of(n)) by {
        assert(ascending(before.versions_of(n)));
    }
    assert forall|n: Seq<char>, v: u32| #[trigger]
        after.entries@.contains_key((n, v)) <==> before.entries@.contains_key((n, v)) by {}
    assert forall|n: Seq<char>, v: u32| #[trigger]
        after.entries@.contains_key((n, v)) <==> after.versions_of(n).contains(v) by {
        assert(before.entries@.contains_key((n, v)) <==> before.versions_of(n).contains(v));
    }
    assert forall|n: Seq<char>| #[trigger] lists(after.names@, n) <==> after.versions_of(n).len()
        > 0 by {
        assert(lists(before.names@, n) <==> before.versions_of(n).len() > 0);
    }
    assert forall|n: Seq<char>, v: u32| #[trigger] after.entries@.contains_key((n, v)) implies v > 0
        && after.entries@[(n, v)].name@ == n && after.entries@[(n, v)].version == v by {
        assert(before.entries@.contains_key((n, v)));
    }
}

/// Registering an entry keeps what holds of the registry.
proof fn lemma_registered_wf(
    before: RouterRegistry,
    caller: Address,
    name: String,
    address: Address,
    version: u32,
    after: RouterRegistry,
)
    requires
        before.wf(),
        before.registration_fault(name@, version) is None,
        before.is_registered(caller, name, address, version, after),
    ensures
        after.wf(),
{
    let earlier = before.versions_of(name@);
    assert forall|n: Seq<char>| n != name@ implies after.versions_of(n) == before.versions_of(n) by {}
    assert(after.versions_of(name@) == earlier.push(version));
    assert forall|n: Seq<char>| ascending(#[trigger] after.versions_of(n)) by {
        assert(ascending(before.versions_of(n)));
        if n == name@ {
            assert forall|i: int, j: int| 0 <= i < j < earlier.push(version).len() implies
                #[trigger] earlier.push(version)[i] < #[trigger] earlier.push(version)[j] by {
                if j == earlier.len() {
                    assert(!(version <= before.versions_of(name@)[i]));
                } else {
                    assert(earlier[i] < earlier[j]);
                }
            }
        }
    }
    assert forall|n: Seq<char>, v: u32| #[trigger]
        after.entries@.contains_key((n, v)) <==> after.versions_of(n).contains(v) by {
        assert(before.entries@.contains_key((n, v)) <==> before.versions_of(n).contains(v));
        if n == name@ {
            let now = earlier.push(version);
            if v == version {
                assert(now[earlier.len() as int] == v);
            } else {
                if earlier.contains(v) {
                    let i = choose|i: int| 0 <= i < earlier.len() && earlier[i] == v;
                    assert(now[i] == v);
                }
                if now.contains(v) {
                    let i = choose|i: int| 0 <= i < now.len() && now[i] == v;
                    assert(earlier[i] == v);
                }
            }
        }
    }
    assert forall|n: Seq<char>, v: u32| #[trigger] after.entries@.contains_key((n, v)) implies v > 0
        && after.entries@[(n, v)].name@ == n && after.entries@[(n, v)].version == v by {
        if (n, v) != (name@, version) {
            assert(before.entries@.contains_key((n, v)));
        }
    }
    assert forall|n: Seq<char>| #[trigger] lists(after.names@, n) <==> after.versions_of(n).len()
        > 0 by {
        assert(lists(before.names@, n) <==> before.versions_of(n).len() > 0);
        lemma_lists_push(before.names@, name, n);
    }
    assert forall|i: int, j: int| 0 <= i < j < after.names@.len() implies (
    #[trigger] after.names@[i])@ != (#[trigger] after.names@[j])@ by {
        if j < before.names@.len() {
            assert(before.names@[i]@ != before.names@[j]@);
        } else {
            assert(!lists(before.names@, name@));
            assert(before.names@[i]@ != name@);
        }
    }
    assert forall|a: Seq<char>| #[trigger] after.addresses@.contains_key(
        a,
    ) implies after.entries@.contains_key(after.addresses@[a].id())
        && after.entries@[after.addresses@[a].id()].address@ == a by {
        if a != address@ {
            assert(before.addresses@.contains_key(a));
        }
    }
}

} // verus!
