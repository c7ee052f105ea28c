//! Registration and deprecation of many entries at once.

use super::types::{BulkRegistrationInput, RegistryError, RouterRegistry};
use crate::common::{failure_views, failures_of, successes_of, Address, BatchResult};
use crate::text::same_text;
use vstd::prelude::*;

verus! {

/// The names of faults.
pub open spec fn fault_names(faults: Seq<Option<RegistryError>>) -> Seq<Option<Seq<char>>> {
    faults.map_values(
        |fault: Option<RegistryError>|
            match fault {
                Some(e) => Some(e.name()),
                None => None,
            },
    )
}

/// The name of what went wrong with an entry.
fn fault_name(outcome: &Result<(), RegistryError>) -> (r: Option<&'static str>)
    ensures
        match (*outcome, r) {
            (Ok(()), None) => true,
            (Err(e), Some(name)) => name@ == e.name(),
            _ => false,
        },
{
    match outcome {
        Ok(()) => None,
        Err(e) => Some(e.registry_error_message()),
    }
}

/// Whether `after` is `before` once an entry was registered, or nothing was changed where
/// it could not be registered.
pub open spec fn registration_step(
    before: RouterRegistry,
    caller: Address,
    entry: BulkRegistrationInput,
    after: RouterRegistry,
) -> bool {
    if before.registration_fault(entry.name@, entry.version) is Some {
        after == before
    } else {
        before.is_registered(caller, entry.name, entry.address, entry.version, after)
    }
}

/// Whether `states` are those that a registry goes through as entries are registered one
/// after the other.
pub open spec fn registration_run(
    states: Seq<RouterRegistry>,
    caller: Address,
    entries: Seq<BulkRegistrationInput>,
) -> bool {
    &&& states.len() == entries.len() + 1
    &&& forall|i: int|
        0 <= i < entries.len() ==> registration_step(
            states[i],
            caller,
            #[trigger] entries[i],
            states[i + 1],
        )
}

/// Why each of the entries could not be registered when its turn came.
pub open spec fn registration_faults(
    states: Seq<RouterRegistry>,
    entries: Seq<BulkRegistrationInput>,
) -> Seq<Option<RegistryError>> {
    Seq::new(
        entries.len(),
        |i: int| states[i].registration_fault(entries[i].name@, entries[i].version),
    )
}

/// Whether `after` is `before` once an entry was deprecated, or nothing was changed where
/// it could not be deprecated.
pub open spec fn deprecation_step(
    before: RouterRegistry,
    entry: (String, u32),
    after: RouterRegistry,
) -> bool {
    if before.deprecation_fault(entry.0@, entry.1) is Some {
        after == before
    } else {
        before.is_deprecated(entry.0, entry.1, None, after)
    }
}

/// Whether `states` are those that a registry goes through as entries are deprecated one
/// after the other.
pub open spec fn deprecation_run(
    states: Seq<RouterRegistry>,
    entries: Seq<(String, u32)>,
) -> bool {
    &&& states.len() == entries.len() + 1
    &&& forall|i: int|
        0 <= i < entries.len() ==> deprecation_step(
            states[i],
            #[trigger] entries[i],
            states[i + 1],
        )
}

/// Why each of the entries could not be deprecated when its turn came.
pub open spec fn deprecation_faults(
    states: Seq<RouterRegistry>,
    entries: Seq<(String, u32)>,
) -> Seq<Option<RegistryError>> {
    Seq::new(
        entries.len(),
        |i: int| states[i].deprecation_fault(entries[i].0@, entries[i].1),
    )
}

/// How entry `i` clashes with an entry before it: the same version of a name occurs
/// twice, or a lower version comes after a higher one.
pub open spec fn clash(entries: Seq<BulkRegistrationInput>, i: int) -> Option<RegistryError> {
    if exists|j: int|
        0 <= j < i && (#[trigger] entries[j]).name@ == entries[i].name@ && entries[j].version
            == entries[i].version {
        Some(RegistryError::AlreadyRegistered)
    } else if exists|j: int|
        0 <= j < i && (#[trigger] entries[j]).name@ == entries[i].name@ && entries[j].version
            > entries[i].version {
        Some(RegistryError::InvalidVersion)
    } else {
        None
    }
}

/// Whether entry `i` is the first that clashes with an entry before it.
pub open spec fn first_clash(entries: Seq<BulkRegistrationInput>, i: int) -> bool {
    &&& 0 <= i < entries.len()
    &&& clash(entries, i) is Some
    &&& forall|j: int| 0 <= j < i ==> #[trigger] clash(entries, j) is None
}

/// Whether no entry clashes with an entry before it.
pub open spec fn no_clash(entries: Seq<BulkRegistrationInput>) -> bool {
    forall|i: int| 0 <= i < entries.len() ==> #[trigger] clash(entries, i) is None
}

/// Finds out how an entry clashes with an entry before it.
fn find_clash(entries: &Vec<BulkRegistrationInput>, i: usize) -> (r: Option<RegistryError>)
    requires
        i < entries@.len(),
    ensures
        r == clash(entries@, i as int),
{
    let mut lower: bool = false;
    let mut j: usize = 0;
    while j < i
        invariant
            j <= i < entries@.len(),
            forall|k: int|
                0 <= k < j ==> !((#[trigger] entries@[k]).name@ == entries@[i as int].name@
                    && entries@[k].version == entries@[i as int].version),
            lower == exists|k: int|
                0 <= k < j && (#[trigger] entries@[k]).name@ == entries@[i as int].name@
                    && entries@[k].version > entries@[i as int].version,
        decreases i - j,
    {
        if same_text(entries[j].name.as_str(), entries[i].name.as_str()) {
            if entries[j].version == entries[i].version {
                proof {
                    assert(entries@[j as int].name@ == entries@[i as int].name@);
                }
                return Some(RegistryError::AlreadyRegistered);
            }
            if entries[j].version > entries[i].version {
                proof {
                    assert(entries@[j as int].name@ == entries@[i as int].name@);
                }
                lower = true;
            }
        }
        j = j + 1;
    }
    if lower {
        Some(RegistryError::InvalidVersion)
    } else {
        None
    }
}

/// What can be registered still can be after a lower version, or another name, was.
proof fn lemma_registrable_kept(
    before: RouterRegistry,
    caller: Address,
    entry: BulkRegistrationInput,
    after: RouterRegistry,
    name: Seq<char>,
    version: u32,
)
    requires
        before.is_registered(caller, entry.name, entry.address, entry.version, after),
        before.registration_fault(name, version) is None,
        name == entry.name@ ==> entry.version < version,
    ensures
        after.registration_fault(name, version) is None,
{
    assert(after.entries@.contains_key((name, version)) ==> before.entries@.contains_key(
        (name, version),
    ));
    assert forall|i: int| 0 <= i < after.versions_of(name).len() implies version
        > #[trigger] after.versions_of(name)[i] by {
        if name == entry.name@ {
            if i < before.versions_of(name).len() {
                assert(after.versions_of(name)[i] == before.versions_of(name)[i]);
            }
        } else {
            assert(after.versions_of(name) == before.versions_of(name));
        }
    }
}

impl RouterRegistry {
    /// What is wrong with an entry before anything of the batch is registered.
    pub open spec fn entry_fault(self, entries: Seq<BulkRegistrationInput>, i: int) -> Option<
        RegistryError,
    > {
        self.registration_fault(entries[i].name@, entries[i].version)
    }

    /// Whether entry `i` is the first that cannot be registered.
    pub open spec fn first_refused(self, entries: Seq<BulkRegistrationInput>, i: int) -> bool {
        &&& 0 <= i < entries.len()
        &&& self.entry_fault(entries, i) is Some
        &&& forall|j: int| 0 <= j < i ==> #[trigger] self.entry_fault(entries, j) is None
    }

    /// Whether every entry can be registered as things are.
    pub open spec fn refuses_none(self, entries: Seq<BulkRegistrationInput>) -> bool {
        forall|i: int| 0 <= i < entries.len() ==> #[trigger] self.entry_fault(entries, i) is None
    }

    /// Whether the entries can be registered as a whole.
    pub open spec fn registers_all(self, entries: Seq<BulkRegistrationInput>) -> bool {
        self.refuses_none(entries) && no_clash(entries)
    }

    /// Registers many entries.
    ///
    /// Without `fail_fast` every entry is tried, and the result says which were
    /// registered. With `fail_fast` all entries are registered or none: if one of them
    /// cannot be registered as things are, the result reports the first such entry; if
    /// entries of the batch stand in each other's way, the first clash is returned as an
    /// error.
    ///
    /// # Errors
    /// * [`RegistryError::NotInitialized`] if there is no admin.
    /// * [`RegistryError::Unauthorized`] if the caller is not the admin.
    /// * With `fail_fast`, [`RegistryError::AlreadyRegistered`] and
    ///   [`RegistryError::InvalidVersion`] as above.
    pub fn bulk_register(
        &mut self,
        caller: &Address,
        entries: &Vec<BulkRegistrationInput>,
        fail_fast: bool,
    ) -> (r: Result<BatchResult, RegistryError>)
        requires
            entries.len() <= u32::MAX,
        ensures
            old(self).admin_fault(*caller) matches Some(e) ==> r == Err::<BatchResult, _>(e)
                && *final(self) == *old(self),
            old(self).admin_fault(*caller) is None && (!fail_fast || old(self).registers_all(
                entries@,
            )) ==> r is Ok && exists|states: Seq<RouterRegistry>|
                {
                    &&& #[trigger] registration_run(states, *caller, entries@)
                    &&& states.first() == *old(self)
                    &&& states.last() == *final(self)
                    &&& (r->Ok_0).reports(fault_names(registration_faults(states, entries@)))
                    &&& fail_fast ==> forall|i: int|
                        0 <= i < entries@.len() ==> (
                        #[trigger] registration_faults(states, entries@)[i]) is None
                },
            forall|i: int| #[trigger]
                old(self).first_refused(entries@, i) && old(self).admin_fault(*caller) is None
                    && fail_fast ==> r is Ok && (r->Ok_0).reports_only(
                    i,
                    (old(self).entry_fault(entries@, i)->0).name(),
                ) && *final(self) == *old(self),
            forall|i: int| #[trigger]
                first_clash(entries@, i) && old(self).admin_fault(*caller) is None && fail_fast
                    && old(self).refuses_none(entries@) ==> r == Err::<BatchResult, _>(
                    clash(entries@, i)->0,
                ),
            r is Err ==> *final(self) == *old(self),
            old(self).wf() ==> final(self).wf(),
    {
        match self.require_admin(caller) {
            Err(e) => {
                return Err(e);
            },
            Ok(()) => {},
        }
        let mut result: BatchResult = BatchResult::new();
        if fail_fast {
            let mut i: usize = 0;
            while i < entries.len()
                invariant
                    i <= entries@.len(),
                    entries.len() <= u32::MAX,
                    result.successes@.len() == 0,
                    result.failures@.len() == 0,
                    forall|j: int| 0 <= j < i ==> #[trigger] self.entry_fault(entries@, j) is None,
                    *self == *old(self),
                    fail_fast,
                    self.admin_fault(*caller) is None,
                decreases entries@.len() - i,
            {
                match self.validate_registration(&entries[i].name, entries[i].version) {
                    Err(e) => {
                        result.record_failure(i as u32, e.registry_error_message());
                        proof {
                            assert(self.entry_fault(entries@, i as int) == Some(e));
                            assert(failure_views(result.failures@) =~= seq![(i as u32, e.name())]);
                            assert forall|k: int| #[trigger]
                                self.first_refused(entries@, k) implies k == i by {
                                assert(k < i ==> self.entry_fault(entries@, k) is None);
                                assert(i < k ==> self.entry_fault(entries@, i as int) is None);
                            }
                        }
                        return Ok(result);
                    },
                    Ok(()) => {},
                }
                proof {
                    assert(self.entry_fault(entries@, i as int) is None);
                }
                i = i + 1;
            }
            let mut k: usize = 0;
            while k < entries.len()
                invariant
                    k <= entries@.len(),
                    forall|j: int| 0 <= j < k ==> #[trigger] clash(entries@, j) is None,
                    *self == *old(self),
                    self.refuses_none(entries@),
                    fail_fast,
                    self.admin_fault(*caller) is None,
                decreases entries@.len() - k,
            {
                match find_clash(entries, k) {
                    Some(e) => {
                        proof {
                            assert forall|j: int| #[trigger]
                                first_clash(entries@, j) implies j == k by {
                                assert(j < k ==> clash(entries@, j) is None);
                                assert(k < j ==> clash(entries@, k as int) is None);
                            }
                            assert forall|j: int| #[trigger]
                                self.first_refused(entries@, j) implies false by {
                                assert(self.entry_fault(entries@, j) is None);
                            }
                            assert(clash(entries@, k as int) is Some);
                        }
                        return Err(e);
                    },
                    None => {},
                }
                k = k + 1;
            }
            proof {
                assert forall|j: int| 0 <= j < entries@.len() implies self.registration_fault(
                    (#[trigger] entries@[j]).name@,
                    entries@[j].version,
                ) is None by {
                    assert(self.entry_fault(entries@, j) is None);
                }
            }
        }
        let ghost mut states: Seq<RouterRegistry> = seq![*self];
        let ghost mut faults: Seq<Option<RegistryError>> = seq![];
        proof {
            assert(result.successes@ =~= successes_of(fault_names(faults)));
            assert(failure_views(result.failures@) =~= failures_of(fault_names(faults)));
        }
        let mut i: usize = 0;
        while i < entries.len()
            invariant
                i <= entries@.len(),
                entries.len() <= u32::MAX,
                registration_run(states, *caller, entries@.take(i as int)),
                states.first() == *old(self),
                states.last() == *self,
                faults == registration_faults(states, entries@.take(i as int)),
                fail_fast ==> forall|j: int| 0 <= j < i ==> (#[trigger] faults[j]) is None,
                result.reports(fault_names(faults)),
                old(self).wf() ==> self.wf(),
                old(self).admin_fault(*caller) is None,
                fail_fast ==> old(self).registers_all(entries@),
                fail_fast ==> forall|j: int|
                    i <= j < entries@.len() ==> self.registration_fault(
                        (#[trigger] entries@[j]).name@,
                        entries@[j].version,
                    ) is None,
            decreases entries@.len() - i,
        {
            let ghost before = *self;
            let outcome: Result<(), RegistryError> = self.register_entry(
                caller,
                entries[i].name.clone(),
                entries[i].address.clone(),
                entries[i].version,
            );
            let ghost fault = before.registration_fault(
                entries@[i as int].name@,
                entries@[i as int].version,
            );
            proof {
                if fail_fast {
                    assert forall|k: int| i < k < entries@.len() implies self.registration_fault(
                        (#[trigger] entries@[k]).name@,
                        entries@[k].version,
                    ) is None by {
                        assert(clash(entries@, k) is None);
                        assert(entries@[i as int].name@ == entries@[k].name@
                            ==> entries@[i as int].version < entries@[k].version);
                        lemma_registrable_kept(
                            before,
                            *caller,
                            entries@[i as int],
                            *self,
                            entries@[k].name@,
                            entries@[k].version,
                        );
                    }
                }
            }
            result.record(i as u32, fault_name(&outcome), Ghost(fault_names(faults)));
            proof {
                let longer = states.push(*self);
                let done = entries@.take(i + 1);
                assert(done =~= entries@.take(i as int).push(entries@[i as int]));
                assert forall|j: int| 0 <= j < done.len() implies registration_step(
                    longer[j],
                    *caller,
                    #[trigger] done[j],
                    longer[j + 1],
                ) by {
                    if j < i {
                        assert(entries@.take(i as int)[j] == done[j]);
                        assert(longer[j] == states[j] && longer[j + 1] == states[j + 1]);
                    } else {
                        assert(longer[j] == before);
                    }
                }
                assert(registration_faults(longer, done) =~= faults.push(fault));
                assert(fault_names(faults.push(fault)) =~= fault_names(faults).push(
                    match fault {
                        Some(e) => Some(e.name()),
                        None => None,
                    },
                ));
                states = longer;
                faults = faults.push(fault);
            }
            i = i + 1;
        }
        proof {
            assert(entries@.take(i as int) =~= entries@);
            assert(registration_run(states, *caller, entries@));
            assert forall|k: int| #[trigger]
                old(self).first_refused(entries@, k) && fail_fast implies false by {
                assert(old(self).entry_fault(entries@, k) is None);
            }
            assert forall|k: int| #[trigger] first_clash(entries@, k) && fail_fast implies false by {
                assert(clash(entries@, k) is None);
            }
        }
        Ok(result)
    }

    /// Deprecates many entries, none of them with a reason. With `fail_fast` the batch
    /// ends at the first entry that cannot be deprecated; the entries before it stay
    /// deprecated.
    ///
    /// # Errors
    /// * [`RegistryError::NotInitialized`] if there is no admin.
    /// * [`RegistryError::Unauthorized`] if the caller is not the admin.
    pub fn deprecate_many(
        &mut self,
        caller: &Address,
        entries: &Vec<(String, u32)>,
        fail_fast: bool,
    ) -> (r: Result<BatchResult, RegistryError>)
        requires
            entries.len() <= u32::MAX,
        ensures
            old(self).admin_fault(*caller) matches Some(e) ==> r == Err::<BatchResult, _>(e)
                && *final(self) == *old(self),
            old(self).admin_fault(*caller) is None ==> r is Ok && exists|
                states: Seq<RouterRegistry>,
                k: int,
            |
                {
                    &&& 0 <= k <= entries@.len()
                    &&& #[trigger] deprecation_run(states, entries@.take(k))
                    &&& states.first() == *old(self)
                    &&& states.last() == *final(self)
                    &&& (r->Ok_0).reports(
                        fault_names(deprecation_faults(states, entries@.take(k))),
                    )
                    &&& forall|i: int|
                        0 <= i < k - 1 && fail_fast ==> (
                        #[trigger] deprecation_faults(states, entries@.take(k))[i]) is None
                    &&& k < entries@.len() ==> fail_fast && k > 0 && deprecation_faults(
                        states,
                        entries@.take(k),
                    )[k - 1] is Some
                },
            old(self).wf() ==> final(self).wf(),
    {
        match self.require_admin(caller) {
            Err(e) => {
                return Err(e);
            },
            Ok(()) => {},
        }
        let mut result: BatchResult = BatchResult::new();
        let ghost mut states: Seq<RouterRegistry> = seq![*self];
        let ghost mut faults: Seq<Option<RegistryError>> = seq![];
        proof {
            assert(result.successes@ =~= successes_of(fault_names(faults)));
            assert(failure_views(result.failures@) =~= failures_of(fault_names(faults)));
        }
        let mut i: usize = 0;
        let mut stopped: bool = false;
        while i < entries.len() && !stopped
            invariant
                i <= entries@.len(),
                entries.len() <= u32::MAX,
                deprecation_run(states, entries@.take(i as int)),
                states.first() == *old(self),
                states.last() == *self,
                faults == deprecation_faults(states, entries@.take(i as int)),
                result.reports(fault_names(faults)),
                forall|j: int| 0 <= j < i - 1 && fail_fast ==> (#[trigger] faults[j]) is None,
                stopped ==> fail_fast && i > 0 && faults[i - 1] is Some,
                !stopped && fail_fast && i > 0 ==> faults[i - 1] is None,
                old(self).wf() ==> self.wf(),
            decreases entries@.len() - i,
        {
            let ghost before = *self;
            let outcome: Result<(), RegistryError> = self.deprecate_one(
                entries[i].0.clone(),
                entries[i].1,
                None,
            );
            let ghost fault = before.deprecation_fault(entries@[i as int].0@, entries@[i as int].1);
            result.record(i as u32, fault_name(&outcome), Ghost(fault_names(faults)));
            if fail_fast && outcome.is_err() {
                stopped = true;
            }
            proof {
                let longer = states.push(*self);
                let done = entries@.take(i + 1);
                assert(done =~= entries@.take(i as int).push(entries@[i as int]));
                assert forall|j: int| 0 <= j < done.len() implies deprecation_step(
                    longer[j],
                    #[trigger] done[j],
                    longer[j + 1],
                ) by {
                    if j < i {
                        assert(entries@.take(i as int)[j] == done[j]);
                        assert(longer[j] == states[j] && longer[j + 1] == states[j + 1]);
                    } else {
                        assert(longer[j] == before);
                    }
                }
                assert(deprecation_faults(longer, done) =~= faults.push(fault));
                assert(fault_names(faults.push(fault)) =~= fault_names(faults).push(
                    match fault {
                        Some(e) => Some(e.name()),
                        None => None,
                    },
                ));
                states = longer;
                faults = faults.push(fault);
            }
            i = i + 1;
        }
        proof {
            assert(deprecation_run(states, entries@.take(i as int)));
        }
        Ok(result)
    }
}

} // verus!
