//! What holds of admin checks and of batch reports.

use crate::common::{
    admin_check, failure_views, failures_of, is_whitespace_char, successes_of, Address, BatchFailure,
    BatchResult, BatchSuccess,
};
use vstd::prelude::*;

verus! {

/// Exactly the admin passes an admin check. Who is someone else is not authorized, and where
/// there is no admin, nobody is let through.
pub proof fn only_the_admin_passes<E>(
    admin: Option<Address>,
    caller: Address,
    not_initialized: E,
    unauthorized: E,
)
    ensures
        admin is Some && admin->0@ == caller@ ==> admin_check(
            admin,
            caller,
            not_initialized,
            unauthorized,
        ) == Ok::<(), E>(()),
        admin is Some && admin->0@ != caller@ ==> admin_check(
            admin,
            caller,
            not_initialized,
            unauthorized,
        ) == Err::<(), E>(unauthorized),
        admin is None ==> admin_check(admin, caller, not_initialized, unauthorized) == Err::<(), E>(
            not_initialized,
        ),
{
}

/// White space is the space and the five control characters from tab to carriage return.
pub proof fn white_space_is_six_characters(c: char)
    ensures
        is_whitespace_char(c) <==> c as int == 32 || c as int == 9 || c as int == 10 || c as int
            == 11 || c as int == 12 || c as int == 13,
{
}

/// Every entry of a batch is reported once: among the successes, under its index, if it has
/// no fault, and else among the failures, under its index and with the name of its fault. Both
/// stand in the order of the entries.
pub proof fn every_entry_is_reported_once(faults: Seq<Option<Seq<char>>>, i: int)
    requires
        0 <= i < faults.len() <= u32::MAX,
    ensures
        successes_of(faults).len() + failures_of(faults).len() == faults.len(),
        faults[i] is None <==> successes_of(faults).contains(BatchSuccess { index: i as u32 }),
        faults[i] matches Some(name) ==> failures_of(faults).contains((i as u32, name)),
        forall|k: int|
            0 <= k < failures_of(faults).len() ==> {
                let (index, name) = #[trigger] failures_of(faults)[k];
                0 <= index < faults.len() && faults[index as int] == Some(name)
            },
        forall|k: int|
            0 <= k < successes_of(faults).len() ==> (#[trigger] successes_of(faults)[k]).index
                < faults.len() && faults[successes_of(faults)[k].index as int] is None,
        forall|a: int, b: int|
            0 <= a < b < successes_of(faults).len() ==> (#[trigger] successes_of(faults)[a]).index < (
            #[trigger] successes_of(faults)[b]).index,
        forall|a: int, b: int|
            0 <= a < b < failures_of(faults).len() ==> (#[trigger] failures_of(faults)[a]).0 < (
            #[trigger] failures_of(faults)[b]).0,
    decreases faults.len(),
{
    let rest = faults.drop_last();
    let (good, bad) = (successes_of(rest), failures_of(rest));
    let last = faults.len() - 1;
    if rest.len() > 0 {
        every_entry_is_reported_once(
            rest,
            if i < last {
                i
            } else {
                0
            },
        );
        assert forall|k: int| 0 <= k < bad.len() implies {
            let (index, name) = #[trigger] bad[k];
            0 <= index < last && faults[index as int] == Some(name)
        } by {
            assert(rest[bad[k].0 as int] == Some(bad[k].1));
        }
        assert forall|k: int| 0 <= k < good.len() implies (#[trigger] good[k]).index < last
            && faults[good[k].index as int] is None by {
            assert(rest[good[k].index as int] is None);
        }
    }
    let all_good = successes_of(faults);
    let all_bad = failures_of(faults);
    assert forall|k: int| 0 <= k < good.len() implies #[trigger] all_good[k] == good[k] by {}
    assert forall|k: int| 0 <= k < bad.len() implies #[trigger] all_bad[k] == bad[k] by {}
    let success = BatchSuccess { index: i as u32 };
    if i < last {
        assert(rest[i] == faults[i]);
        if good.contains(success) {
            let k = choose|k: int| 0 <= k < good.len() && good[k] == success;
            assert(all_good[k] == success);
        }
        match faults[i] {
            Some(name) => {
                let k = choose|k: int| 0 <= k < bad.len() && bad[k] == (i as u32, name);
                assert(all_bad[k] == (i as u32, name));
            },
            None => {},
        }
    } else {
        if faults[i] is None {
            assert(all_good[good.len() as int] == success);
        } else {
            assert(all_bad[bad.len() as int] == (i as u32, faults[i]->0));
        }
    }
    if all_good.contains(success) {
        let k = choose|k: int| 0 <= k < all_good.len() && all_good[k] == success;
        assert(faults[all_good[k].index as int] is None);
    }
}

/// A report that holds nothing but one failure names that entry and its fault, and no
/// success.
pub proof fn single_failure_is_reported(report: BatchResult, index: int, fault: Seq<char>)
    requires
        report.reports_only(index, fault),
    ensures
        report.successes@.len() == 0,
        report.failures@.len() == 1,
        report.failures@[0].index == index as u32,
        report.failures@[0].message@ == fault,
{
    let views = failure_views(report.failures@);
    assert(views.len() == report.failures@.len());
    assert(views[0] == report.failures@[0]@);
}

/// What is said of the failures of a batch is said of each in its place.
pub proof fn failures_are_seen_in_place(failures: Seq<BatchFailure>, i: int)
    requires
        0 <= i < failures.len(),
    ensures
        failure_views(failures).len() == failures.len(),
        failure_views(failures)[i] == (failures[i].index, failures[i].message@),
{
}

/// A report of entries lists both those that went through and those that did not.
pub proof fn reports_are_of_successes_and_failures(
    report: BatchResult,
    faults: Seq<Option<Seq<char>>>,
)
    ensures
        report.reports(faults) <==> report.successes@ == successes_of(faults) && failure_views(
            report.failures@,
        ) == failures_of(faults),
{
}

} // verus!
