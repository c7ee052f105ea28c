//! What holds of the registry as a whole.

use super::bulk::clash;
use super::constraint::{all_allow, constraints_of, Bound, Constraint};
use super::constraint_laws::{
    constraints_are_met_together, numbers_make_constraints, whole_bounds_compare_versions,
};
use super::contract::{allowed, ascending, lemma_allowed};
use super::types::{
    BulkRegistrationInput, ContractEntry, RegistryError, RegistryEvent, RouterRegistry,
};
use crate::common::Address;
use crate::store::StoreKey;
use crate::text::{decimal_of, lists};
use vstd::prelude::*;

verus! {

/// Whether the version at `i` is not deprecated, and all behind it are.
spec fn is_last_live(registry: RouterRegistry, name: Seq<char>, versions: Seq<u32>, i: int) -> bool {
    &&& 0 <= i < versions.len()
    &&& !registry.entries@[(name, versions[i])].deprecated
    &&& forall|j: int|
        i < j < versions.len() ==> registry.entries@[(name, #[trigger] versions[j])].deprecated
}

/// The last live version stands among the versions, and behind it are none but deprecated
/// ones.
proof fn lemma_last_live(registry: RouterRegistry, name: Seq<char>, versions: Seq<u32>) -> (i: int)
    ensures
        match registry.last_live(name, versions) {
            Some(entry) => is_last_live(registry, name, versions, i) && entry
                == registry.entries@[(name, versions[i])],
            None => forall|j: int|
                0 <= j < versions.len() ==> registry.entries@[(
                    name,
                    #[trigger] versions[j],
                )].deprecated,
        },
    decreases versions.len(),
{
    if versions.len() == 0 {
        0
    } else {
        let rest = versions.drop_last();
        let last = versions[versions.len() - 1];
        if !registry.entries@[(name, last)].deprecated {
            versions.len() - 1
        } else {
            let i = lemma_last_live(registry, name, rest);
            assert forall|j: int| 0 <= j < versions.len() && (j > i || registry.last_live(
                name,
                rest,
            ) is None) implies registry.entries@[(name, #[trigger] versions[j])].deprecated by {
                if j < rest.len() {
                    assert(registry.entries@[(name, rest[j])].deprecated);
                }
            }
            i
        }
    }
}

/// The latest entry of a name is the highest of its versions that are not deprecated.
pub proof fn latest_is_the_highest_live_version(
    registry: RouterRegistry,
    name: Seq<char>,
    version: u32,
)
    requires
        registry.wf(),
        registry.entries@.contains_key((name, version)),
        !registry.entries@[(name, version)].deprecated,
    ensures
        registry.latest_among(name, registry.versions_of(name)) matches Ok(entry) && entry.version
            >= version && !entry.deprecated && entry.name@ == name,
{
    let versions = registry.versions_of(name);
    let i = lemma_last_live(registry, name, versions);
    assert(versions.contains(version));
    let k = choose|k: int| 0 <= k < versions.len() && versions[k] == version;
    assert(!registry.entries@[(name, versions[k])].deprecated);
    assert(ascending(versions));
    assert(versions.contains(versions[i]));
    assert(registry.entries@.contains_key((name, versions[i])));
    assert(i >= k);
    assert(i > k ==> versions[k] < versions[i]);
}

/// A name has no latest entry exactly where it has no versions, or none that is not
/// deprecated.
pub proof fn no_latest_without_a_live_version(registry: RouterRegistry, name: Seq<char>)
    requires
        registry.wf(),
    ensures
        registry.latest_among(name, registry.versions_of(name)) is Err <==> forall|version: u32|
            #[trigger]
            registry.entries@.contains_key((name, version)) ==> registry.entries@[(
                name,
                version,
            )].deprecated,
{
    let versions = registry.versions_of(name);
    let i = lemma_last_live(registry, name, versions);
    if registry.latest_among(name, versions) is Err {
        assert forall|version: u32| #[trigger]
            registry.entries@.contains_key((name, version)) implies registry.entries@[(
            name,
            version,
        )].deprecated by {
            assert(versions.contains(version));
            let k = choose|k: int| 0 <= k < versions.len() && versions[k] == version;
            assert(registry.entries@[(name, versions[k])].deprecated);
        }
    } else {
        assert(versions.contains(versions[i]));
        assert(registry.entries@.contains_key((name, versions[i])));
    }
}

/// A version found under constraints meets them all.
pub proof fn found_version_meets_the_constraint(
    registry: RouterRegistry,
    name: Seq<char>,
    constraints: Seq<Constraint>,
)
    requires
        registry.wf(),
    ensures
        registry.latest_among(name, allowed(registry.versions_of(name), constraints)) matches Ok(
            entry,
        ) ==> all_allow(constraints, entry.version) && !entry.deprecated && entry.name@ == name,
{
    let versions = registry.versions_of(name);
    let matching = allowed(versions, constraints);
    let i = lemma_last_live(registry, name, matching);
    if registry.last_live(name, matching) is Some {
        lemma_allowed(versions, constraints, i);
        assert(registry.entries@.contains_key((name, matching[i])));
    }
}

/// An entry that was just registered is found by its name and version, by its address, and
/// as the latest of its name.
pub proof fn registered_entry_is_found(
    before: RouterRegistry,
    caller: Address,
    name: String,
    address: Address,
    version: u32,
    after: RouterRegistry,
)
    requires
        before.registration_fault(name@, version) is None,
        before.is_registered(caller, name, address, version, after),
    ensures
        ({
            let entry = after.entries@[(name@, version)];
            &&& after.entries@.contains_key((name@, version))
            &&& entry.address == address
            &&& after.addresses@[address@].id() == (name@, version)
            &&& after.latest_among(name@, after.versions_of(name@)) == Ok::<_, RegistryError>(
                entry,
            )
        }),
{
    assert(after.versions_of(name@).last() == version);
}

/// A deprecated version is never the latest.
pub proof fn deprecated_version_is_not_latest(
    before: RouterRegistry,
    name: String,
    version: u32,
    reason: Option<String>,
    after: RouterRegistry,
)
    requires
        before.wf(),
        before.deprecation_fault(name@, version) is None,
        before.is_deprecated(name, version, reason, after),
    ensures
        after.latest_among(name@, after.versions_of(name@)) matches Ok(entry) ==> entry.version
            != version,
{
    let versions = after.versions_of(name@);
    let i = lemma_last_live(after, name@, versions);
    if after.last_live(name@, versions) is Some {
        assert(before.versions_of(name@) == versions);
        assert(versions.contains(versions[i]));
        assert(before.entries@.contains_key((name@, versions[i])));
    }
}

/// Those of the versions that meet the constraints are the ones of which each does, in the
/// order in which they were.
proof fn lemma_allowed_kept(versions: Seq<u32>, constraints: Seq<Constraint>, version: u32)
    ensures
        allowed(versions, constraints).contains(version) == (versions.contains(version)
            && all_allow(constraints, version)),
        ascending(versions) ==> ascending(allowed(versions, constraints)),
        ascending(versions) && allowed(versions, constraints).len() > 0 ==> allowed(
            versions,
            constraints,
        ).last() <= versions.last(),
    decreases versions.len(),
{
    if versions.len() > 0 {
        let rest = versions.drop_last();
        let kept = allowed(rest, constraints);
        let last = versions.last();
        lemma_allowed_kept(rest, constraints, version);
        assert(versions == rest.push(last));
        assert(versions.contains(version) == (rest.contains(version) || version == last)) by {
            if rest.contains(version) {
                let k = choose|k: int| 0 <= k < rest.len() && rest[k] == version;
                assert(versions[k] == version);
            }
            if version == last {
                assert(versions[versions.len() - 1] == version);
            }
            if versions.contains(version) && version != last {
                let k = choose|k: int| 0 <= k < versions.len() && versions[k] == version;
                assert(rest[k] == version);
            }
        }
        let pushed = kept.push(last);
        assert(pushed.contains(version) == (kept.contains(version) || version == last)) by {
            if kept.contains(version) {
                let k = choose|k: int| 0 <= k < kept.len() && kept[k] == version;
                assert(pushed[k] == version);
            }
            if version == last {
                assert(pushed[kept.len() as int] == version);
            }
            if pushed.contains(version) && version != last {
                let k = choose|k: int| 0 <= k < pushed.len() && pushed[k] == version;
                assert(kept[k] == version);
            }
        }
        if ascending(versions) {
            assert(ascending(rest));
            assert(rest.len() > 0 ==> rest.last() < last);
            assert forall|i: int, j: int| 0 <= i < j < pushed.len() implies #[trigger] pushed[i]
                < #[trigger] pushed[j] by {
                if j < kept.len() {
                    assert(kept[i] < kept[j]);
                } else {
                    assert(i < kept.len() - 1 ==> kept[i] < kept[kept.len() - 1]);
                    lemma_allowed(rest, constraints, i);
                    let k = choose|k: int| 0 <= k < rest.len() && rest[k] == kept[i];
                    assert(versions[k] < versions[versions.len() - 1]);
                }
            }
        }
    }
}

/// Under constraints the highest version is found that is registered, not deprecated and
/// meets each of them: whatever such version there is, what is found is not lower, and is the
/// entry that was registered under its version.
pub proof fn highest_allowed_version_is_found(
    registry: RouterRegistry,
    name: Seq<char>,
    constraints: Seq<Constraint>,
    version: u32,
)
    requires
        registry.wf(),
        registry.entries@.contains_key((name, version)),
        !registry.entries@[(name, version)].deprecated,
        forall|i: int|
            0 <= i < constraints.len() ==> (#[trigger] constraints[i]).allows(version),
    ensures
        registry.latest_among(name, allowed(registry.versions_of(name), constraints)) matches Ok(
            entry,
        ) && entry.version >= version && registry.entries@.contains_key((name, entry.version))
            && entry == registry.entries@[(name, entry.version)] && !entry.deprecated,
{
    let versions = registry.versions_of(name);
    let matching = allowed(versions, constraints);
    let i = lemma_last_live(registry, name, matching);
    assert(ascending(versions));
    assert(versions.contains(version));
    lemma_allowed_kept(versions, constraints, version);
    let k = choose|k: int| 0 <= k < matching.len() && matching[k] == version;
    assert(!registry.entries@[(name, matching[k])].deprecated);
    assert(i >= k);
    assert(i > k ==> matching[k] < matching[i]);
    lemma_allowed(versions, constraints, i);
    assert(registry.entries@.contains_key((name, matching[i])));
}

/// Where nothing is found under constraints, no version meets them, or every one that does is
/// deprecated; the answer says which.
pub proof fn nothing_is_found_only_without_a_live_version(
    registry: RouterRegistry,
    name: Seq<char>,
    constraints: Seq<Constraint>,
)
    requires
        registry.wf(),
    ensures
        ({
            let found = registry.latest_among(
                name,
                allowed(registry.versions_of(name), constraints),
            );
            &&& found == Err::<ContractEntry, _>(RegistryError::NotFound) <==> forall|version: u32|
                #[trigger]
                registry.entries@.contains_key((name, version)) ==> !all_allow(constraints, version)
            &&& found == Err::<ContractEntry, _>(RegistryError::AllVersionsDeprecated) <==> (exists|
                version: u32,
            | #[trigger]
                registry.entries@.contains_key((name, version)) && all_allow(constraints, version))
                && forall|version: u32| #[trigger]
                registry.entries@.contains_key((name, version)) && all_allow(constraints, version)
                    ==> registry.entries@[(name, version)].deprecated
        }),
{
    let versions = registry.versions_of(name);
    let matching = allowed(versions, constraints);
    let found = registry.latest_among(name, matching);
    let i = lemma_last_live(registry, name, matching);
    if matching.len() > 0 {
        let first = matching[0];
        lemma_allowed(versions, constraints, 0);
        assert(registry.entries@.contains_key((name, first)) && all_allow(constraints, first));
    }
    assert forall|version: u32| #[trigger]
        registry.entries@.contains_key((name, version)) && all_allow(
        constraints,
        version,
    ) implies matching.len() > 0 && (found is Err ==> registry.entries@[(
        name,
        version,
    )].deprecated) by {
        assert(versions.contains(version));
        lemma_allowed_kept(versions, constraints, version);
        let k = choose|k: int| 0 <= k < matching.len() && matching[k] == version;
        assert(found is Err ==> registry.entries@[(name, matching[k])].deprecated);
    }
    if registry.last_live(name, matching) is Some {
        lemma_allowed(versions, constraints, i);
        assert(registry.entries@.contains_key((name, matching[i])));
    }
}

/// What is found among registered versions is the entry of one of them, and not deprecated.
proof fn lemma_found_entry(registry: RouterRegistry, name: Seq<char>, versions: Seq<u32>)
    requires
        registry.wf(),
        forall|i: int|
            0 <= i < versions.len() ==> registry.versions_of(name).contains(#[trigger] versions[i]),
    ensures
        registry.latest_among(name, versions) matches Ok(entry) ==> registry.entries@.contains_key(
            (name, entry.version),
        ) && entry == registry.entries@[(name, entry.version)] && !entry.deprecated
            && versions.contains(entry.version),
{
    let i = lemma_last_live(registry, name, versions);
    if registry.latest_among(name, versions) is Ok {
        assert(registry.versions_of(name).contains(versions[i]));
        assert(registry.entries@.contains_key((name, versions[i])));
    }
}

/// Under `>=X` the latest version of all is found, whenever it is at least X, however far it is
/// above; and where it is not, nothing is found.
pub proof fn at_least_finds_the_latest_of_all(registry: RouterRegistry, name: Seq<char>, x: u32)
    requires
        registry.wf(),
        registry.versions_of(name).len() > 0,
    ensures
        constraints_of(seq!['>', '='] + decimal_of(x as nat)) matches Some(constraints) && {
            let latest = registry.latest_among(name, registry.versions_of(name));
            let found = registry.latest_among(
                name,
                allowed(registry.versions_of(name), constraints),
            );
            match latest {
                Ok(entry) => if entry.version >= x {
                    found == latest
                } else {
                    found is Err
                },
                Err(_) => found is Err,
            }
        },
{
    numbers_make_constraints(x);
    let bound = Bound { major: x, minor: 0 };
    let constraints = seq![Constraint::AtLeast(bound)];
    let versions = registry.versions_of(name);
    let latest = registry.latest_among(name, versions);
    let found = registry.latest_among(name, allowed(versions, constraints));
    assert forall|version: u32| all_allow(constraints, version) == (version >= x) by {
        constraints_are_met_together(constraints, constraints, version);
        whole_bounds_compare_versions(x, version);
    }
    found_version_meets_the_constraint(registry, name, constraints);
    nothing_is_found_only_without_a_live_version(registry, name, constraints);
    assert forall|i: int| 0 <= i < allowed(versions, constraints).len() implies versions.contains(
        #[trigger] allowed(versions, constraints)[i],
    ) by {
        lemma_allowed(versions, constraints, i);
    }
    lemma_found_entry(registry, name, allowed(versions, constraints));
    assert forall|i: int| 0 <= i < versions.len() implies versions.contains(#[trigger] versions[i]) by {}
    lemma_found_entry(registry, name, versions);
    match found {
        Ok(entry) => {
            latest_is_the_highest_live_version(registry, name, entry.version);
        },
        Err(_) => {},
    }
    match latest {
        Ok(entry) => {
            if entry.version >= x {
                assert(all_allow(constraints, entry.version));
                assert forall|k: int| 0 <= k < constraints.len() implies (
                #[trigger] constraints[k]).allows(entry.version) by {}
                highest_allowed_version_is_found(registry, name, constraints, entry.version);
            }
        },
        Err(_) => {},
    }
}

/// A version can be registered exactly if it is not zero and higher than every version of its
/// name.
pub proof fn only_higher_versions_are_registered(
    registry: RouterRegistry,
    name: Seq<char>,
    version: u32,
)
    requires
        registry.wf(),
    ensures
        registry.registration_fault(name, version) is None <==> version >= 1 && forall|other: u32|
            #[trigger]
            registry.entries@.contains_key((name, other)) ==> other < version,
        registry.registration_fault(name, version) == Some(RegistryError::AlreadyRegistered)
            <==> registry.entries@.contains_key((name, version)),
        registry.registration_fault(name, version) is Some ==> registry.registration_fault(
            name,
            version,
        )->0 == RegistryError::AlreadyRegistered || registry.registration_fault(name, version)->0
            == RegistryError::InvalidVersion,
{
    let versions = registry.versions_of(name);
    if registry.registration_fault(name, version) is None {
        assert forall|other: u32| #[trigger]
            registry.entries@.contains_key((name, other)) implies other < version by {
            assert(versions.contains(other));
            let k = choose|k: int| 0 <= k < versions.len() && versions[k] == other;
            assert(!(version <= versions[k]));
        }
    }
    if exists|i: int| 0 <= i < versions.len() && version <= #[trigger] versions[i] {
        let i = choose|i: int| 0 <= i < versions.len() && version <= #[trigger] versions[i];
        assert(versions.contains(versions[i]));
        assert(registry.entries@.contains_key((name, versions[i])));
    }
}

/// Registering a version leaves every other version of every name as it was, and is published
/// once.
pub proof fn registration_leaves_other_versions(
    before: RouterRegistry,
    caller: Address,
    name: String,
    address: Address,
    version: u32,
    after: RouterRegistry,
    other: (Seq<char>, u32),
)
    requires
        before.is_registered(caller, name, address, version, after),
    ensures
        ({
            let entry = after.entries@[(name@, version)];
            &&& entry.address == address && entry.name == name && entry.version == version
            &&& !entry.deprecated && entry.registered_by == caller
            &&& entry.deprecation_reason is None
        }),
        other != (name@, version) ==> after.entries@.contains_key(other)
            == before.entries@.contains_key(other) && (before.entries@.contains_key(other)
            ==> after.entries@[other] == before.entries@[other]),
        other.0 != name@ ==> after.versions_of(other.0) == before.versions_of(other.0),
        after.versions_of(name@) == before.versions_of(name@).push(version),
        after.addresses@.contains_key(address@) && after.addresses@[address@] == (name, version),
        lists(before.names@, name@) ==> after.names@ == before.names@,
        !lists(before.names@, name@) ==> after.names@ == before.names@.push(name),
        after.admin == before.admin,
        after.events@.len() == before.events@.len() + 1,
        after.events@.last() == (RegistryEvent::ContractRegistered { name, version }),
{
}

/// Only a registered version that is not deprecated yet can be deprecated; this marks it,
/// keeps its address, and leaves every other version as it was.
pub proof fn deprecation_marks_one_version(
    before: RouterRegistry,
    name: String,
    version: u32,
    reason: Option<String>,
    after: RouterRegistry,
    other: (Seq<char>, u32),
)
    requires
        before.is_deprecated(name, version, reason, after),
    ensures
        before.deprecation_fault(name@, version) is None <==> before.entries@.contains_key(
            (name@, version),
        ) && !before.entries@[(name@, version)].deprecated,
        before.deprecation_fault(name@, version) == Some(RegistryError::VersionNotFound)
            <==> !before.entries@.contains_key((name@, version)),
        before.deprecation_fault(name@, version) == Some(RegistryError::AlreadyDeprecated)
            <==> before.entries@.contains_key((name@, version)) && before.entries@[(
            name@,
            version,
        )].deprecated,
        after.entries@[(name@, version)].deprecated,
        after.entries@[(name@, version)].deprecation_reason == reason,
        after.entries@[(name@, version)].address == before.entries@[(name@, version)].address,
        other != (name@, version) ==> after.entries@.contains_key(other)
            == before.entries@.contains_key(other) && (before.entries@.contains_key(other)
            ==> after.entries@[other] == before.entries@[other]),
        after.versions_of(other.0) == before.versions_of(other.0),
        after.addresses == before.addresses && after.names == before.names,
        after.admin == before.admin,
        after.events@.len() == before.events@.len() + 1,
        after.events@.last() == (RegistryEvent::ContractDeprecated { name, version }),
        before.entries@.contains_key((name@, version)) ==> after.entries@[(name@, version)].version
            == before.entries@[(name@, version)].version
            && after.entries@[(name@, version)].registered_by
            == before.entries@[(name@, version)].registered_by,
{
}

/// The entries of versions in a row are those of each, in order: one for a version that has
/// an entry, none for another.
pub proof fn all_registered_versions_are_returned(
    registry: RouterRegistry,
    name: Seq<char>,
    a: Seq<u32>,
    b: Seq<u32>,
    version: u32,
)
    ensures
        registry.entries_of(name, a + b) == registry.entries_of(name, a) + registry.entries_of(
            name,
            b,
        ),
        registry.entries_of(name, seq![version]) == if registry.entries@.contains_key(
            (name, version),
        ) {
            seq![registry.entries@[(name, version)]]
        } else {
            Seq::<ContractEntry>::empty()
        },
        registry.entries_of(name, seq![]) == Seq::<ContractEntry>::empty(),
    decreases b.len(),
{
    let one = seq![version];
    assert(one.drop_last() =~= Seq::<u32>::empty());
    assert(registry.entries_of(name, one.drop_last()) =~= Seq::<ContractEntry>::empty());
    assert(registry.entries_of(name, one) =~= if registry.entries@.contains_key((name, version)) {
        seq![registry.entries@[(name, version)]]
    } else {
        Seq::<ContractEntry>::empty()
    });
    if b.len() == 0 {
        assert(a + b =~= a);
        assert(registry.entries_of(name, a) + registry.entries_of(name, b)
            =~= registry.entries_of(name, a));
    } else {
        all_registered_versions_are_returned(registry, name, a, b.drop_last(), version);
        assert((a + b).drop_last() =~= a + b.drop_last());
        assert(registry.entries_of(name, a + b) =~= registry.entries_of(name, a)
            + registry.entries_of(name, b));
    }
}

/// An entry of a batch clashes with those before it exactly if one of them has the same name
/// and a version that is not lower.
pub proof fn clashes_are_between_equal_names(entries: Seq<BulkRegistrationInput>, i: int, j: int)
    ensures
        clash(entries, i) is Some <==> exists|k: int|
            0 <= k < i && (#[trigger] entries[k]).name@ == entries[i].name@ && entries[k].version
                >= entries[i].version,
        0 <= j < i && entries[j].name@ == entries[i].name@ && entries[j].version
            == entries[i].version ==> clash(entries, i) == Some(RegistryError::AlreadyRegistered),
        clash(entries, i) == Some(RegistryError::AlreadyRegistered) ==> exists|k: int|
            0 <= k < i && (#[trigger] entries[k]).name@ == entries[i].name@ && entries[k].version
                == entries[i].version,
        clash(entries, i) is Some ==> clash(entries, i)->0 == RegistryError::AlreadyRegistered
            || clash(entries, i)->0 == RegistryError::InvalidVersion,
{
}

/// Nobody but the admin passes, and nobody at all before there is one.
pub proof fn only_the_admin_registers(registry: RouterRegistry, caller: Address)
    ensures
        registry.admin is None ==> registry.admin_fault(caller) == Some(
            RegistryError::NotInitialized,
        ),
        registry.admin is Some && registry.admin->0@ != caller@ ==> registry.admin_fault(caller)
            == Some(RegistryError::Unauthorized),
        registry.admin is Some && registry.admin->0@ == caller@ ==> registry.admin_fault(
            caller,
        ) is None,
{
}

} // verus!
