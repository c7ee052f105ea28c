//! What holds of batches of registry entries: what each entry leads to, and which entry decides.

use super::bulk::{
    clash, deprecation_faults, deprecation_run, fault_names, first_clash, no_clash,
    registration_faults, registration_run,
};
use super::types::{BulkRegistrationInput, RegistryError, RouterRegistry};
use crate::common::Address;
use vstd::prelude::*;

verus! {

/// Every fault is reported under its own name, in the place of its entry.
pub proof fn faults_are_reported_in_place(faults: Seq<Option<RegistryError>>, i: int)
    requires
        0 <= i < faults.len(),
    ensures
        fault_names(faults).len() == faults.len(),
        fault_names(faults)[i] is Some <==> faults[i] is Some,
        faults[i] == Some(RegistryError::AlreadyInitialized) ==> fault_names(faults)[i] == Some(
            "AlreadyInitialized"@,
        ),
        faults[i] == Some(RegistryError::NotInitialized) ==> fault_names(faults)[i] == Some(
            "NotInitialized"@,
        ),
        faults[i] == Some(RegistryError::Unauthorized) ==> fault_names(faults)[i] == Some(
            "Unauthorized"@,
        ),
        faults[i] == Some(RegistryError::NotFound) ==> fault_names(faults)[i] == Some("NotFound"@),
        faults[i] == Some(RegistryError::AlreadyRegistered) ==> fault_names(faults)[i] == Some(
            "AlreadyRegistered"@,
        ),
        faults[i] == Some(RegistryError::AlreadyDeprecated) ==> fault_names(faults)[i] == Some(
            "AlreadyDeprecated"@,
        ),
        faults[i] == Some(RegistryError::InvalidVersion) ==> fault_names(faults)[i] == Some(
            "InvalidVersion"@,
        ),
        faults[i] == Some(RegistryError::VersionNotFound) ==> fault_names(faults)[i] == Some(
            "VersionNotFound"@,
        ),
        faults[i] == Some(RegistryError::InvalidConstraint) ==> fault_names(faults)[i] == Some(
            "InvalidConstraint"@,
        ),
        faults[i] == Some(RegistryError::AllVersionsDeprecated) ==> fault_names(faults)[i] == Some(
            "AllVersionsDeprecated"@,
        ),
        faults[i] == Some(RegistryError::ContractUnreachable) ==> fault_names(faults)[i] == Some(
            "ContractUnreachable"@,
        ),
{
}

/// Each entry of a bulk registration either adds its version or, where that cannot be registered
/// as things are then, changes nothing and is the fault that is reported.
pub proof fn every_registration_is_one_of_its_own(
    states: Seq<RouterRegistry>,
    caller: Address,
    entries: Seq<BulkRegistrationInput>,
    i: int,
)
    requires
        registration_run(states, caller, entries),
        0 <= i < entries.len(),
    ensures
        states.len() == entries.len() + 1,
        registration_faults(states, entries).len() == entries.len(),
        ({
            let entry = entries[i];
            let fault = states[i].registration_fault(entry.name@, entry.version);
            &&& registration_faults(states, entries)[i] == fault
            &&& fault is Some ==> states[i + 1] == states[i]
            &&& fault is None ==> states[i].is_registered(
                caller,
                entry.name,
                entry.address,
                entry.version,
                states[i + 1],
            )
        }),
{
}

/// Each entry of a bulk deprecation either marks its version, without a reason, or, where that
/// cannot be deprecated as things are then, changes nothing and is the fault that is reported.
pub proof fn every_deprecation_is_one_of_its_own(
    states: Seq<RouterRegistry>,
    entries: Seq<(String, u32)>,
    i: int,
)
    requires
        deprecation_run(states, entries),
        0 <= i < entries.len(),
    ensures
        states.len() == entries.len() + 1,
        deprecation_faults(states, entries).len() == entries.len(),
        ({
            let (name, version) = entries[i];
            let fault = states[i].deprecation_fault(name@, version);
            &&& deprecation_faults(states, entries)[i] == fault
            &&& fault is Some ==> states[i + 1] == states[i]
            &&& fault is None ==> states[i].is_deprecated(name, version, None, states[i + 1])
        }),
{
}

/// Entries can be registered as a whole exactly if each can be registered as things are and the
/// versions of every name come in ascending order, each once.
pub proof fn ascending_entries_are_registered(
    registry: RouterRegistry,
    entries: Seq<BulkRegistrationInput>,
)
    ensures
        no_clash(entries) <==> forall|i: int, j: int|
            0 <= i < j < entries.len() && (#[trigger] entries[i]).name@ == (
            #[trigger] entries[j]).name@ ==> entries[i].version < entries[j].version,
        registry.refuses_none(entries) <==> forall|i: int|
            0 <= i < entries.len() ==> registry.registration_fault(
                (#[trigger] entries[i]).name@,
                entries[i].version,
            ) is None,
        registry.registers_all(entries) <==> registry.refuses_none(entries) && no_clash(entries),
{
    if no_clash(entries) {
        assert forall|i: int, j: int|
            0 <= i < j < entries.len() && (#[trigger] entries[i]).name@ == (
            #[trigger] entries[j]).name@ implies entries[i].version < entries[j].version by {
            assert(clash(entries, j) is None);
        }
    }
    if registry.refuses_none(entries) {
        assert forall|i: int| 0 <= i < entries.len() implies registry.registration_fault(
            (#[trigger] entries[i]).name@,
            entries[i].version,
        ) is None by {
            assert(registry.entry_fault(entries, i) is None);
        }
    }
}

/// There is a first entry that cannot be registered exactly if some entry cannot, and a first that
/// clashes exactly if some entry clashes; there is only one of each.
pub proof fn one_entry_decides(
    registry: RouterRegistry,
    entries: Seq<BulkRegistrationInput>,
    i: int,
    j: int,
)
    ensures
        !registry.refuses_none(entries) <==> exists|k: int|
            #[trigger] registry.first_refused(entries, k),
        !no_clash(entries) <==> exists|k: int| #[trigger] first_clash(entries, k),
        registry.first_refused(entries, i) && registry.first_refused(entries, j) ==> i == j,
        registry.first_refused(entries, i) ==> 0 <= i < entries.len()
            && registry.registration_fault(entries[i].name@, entries[i].version) is Some,
        registry.first_refused(entries, i) && 0 <= j < i ==> registry.registration_fault(
            entries[j].name@,
            entries[j].version,
        ) is None,
        first_clash(entries, i) && first_clash(entries, j) ==> i == j,
        first_clash(entries, i) ==> 0 <= i < entries.len() && clash(entries, i) is Some,
        first_clash(entries, i) && 0 <= j < i ==> clash(entries, j) is None,
{
    if !registry.refuses_none(entries) {
        let k = choose|k: int| 0 <= k < entries.len() && #[trigger] registry.entry_fault(
            entries,
            k,
        ) is Some;
        lemma_first_refused(registry, entries, k);
    }
    if !no_clash(entries) {
        let k = choose|k: int| 0 <= k < entries.len() && #[trigger] clash(entries, k) is Some;
        lemma_first_clash(entries, k);
    }
    if registry.first_refused(entries, i) && 0 <= j < i {
        assert(registry.entry_fault(entries, j) is None);
    }
}

/// Before an entry that cannot be registered, or at it, is the first one.
proof fn lemma_first_refused(
    registry: RouterRegistry,
    entries: Seq<BulkRegistrationInput>,
    k: int,
)
    requires
        0 <= k < entries.len(),
        registry.entry_fault(entries, k) is Some,
    ensures
        exists|i: int| #[trigger] registry.first_refused(entries, i),
    decreases k,
{
    if forall|j: int| 0 <= j < k ==> #[trigger] registry.entry_fault(entries, j) is None {
        assert(registry.first_refused(entries, k));
    } else {
        let j = choose|j: int| 0 <= j < k && #[trigger] registry.entry_fault(entries, j) is Some;
        lemma_first_refused(registry, entries, j);
    }
}

/// Before an entry that clashes, or at it, is the first one.
proof fn lemma_first_clash(entries: Seq<BulkRegistrationInput>, k: int)
    requires
        0 <= k < entries.len(),
        clash(entries, k) is Some,
    ensures
        exists|i: int| #[trigger] first_clash(entries, i),
    decreases k,
{
    if forall|j: int| 0 <= j < k ==> #[trigger] clash(entries, j) is None {
        assert(first_clash(entries, k));
    } else {
        let j = choose|j: int| 0 <= j < k && #[trigger] clash(entries, j) is Some;
        lemma_first_clash(entries, j);
    }
}

} // verus!
