//! Route scoring and best-route selection.

use super::types::{expired, is_route_expired, RouteScore, RouterCore, RouterEvent};
use vstd::prelude::*;

verus! {

/// Liquidity and reliability less a tenth of the fee.
pub open spec fn composite(score: RouteScore) -> int {
    score.liquidity_score + score.reliability_score - score.fee_bps as int / 10
}

/// Whether a route can be selected: registered, neither paused nor expired, and
/// scored.
pub open spec fn eligible(core: RouterCore, name: Seq<char>, sequence: u32) -> bool {
    &&& core.routes@.contains_key(name)
    &&& !core.routes@[name].paused
    &&& !expired(core.routes@[name], sequence)
    &&& core.scores@.contains_key(name)
}

/// Whether the `i`-th name is the earliest of the highest-scoring eligible ones.
pub open spec fn is_best_at(core: RouterCore, names: Seq<String>, i: int, sequence: u32) -> bool {
    &&& 0 <= i < names.len()
    &&& eligible(core, names[i]@, sequence)
    &&& forall|j: int|
        0 <= j < names.len() && eligible(core, (#[trigger] names[j])@, sequence) ==> composite(
            core.scores@[names[j]@],
        ) <= composite(core.scores@[names[i]@])
    &&& forall|j: int|
        0 <= j < i && eligible(core, (#[trigger] names[j])@, sequence) ==> composite(
            core.scores@[names[j]@],
        ) < composite(core.scores@[names[i]@])
}

/// Whether no name can be selected.
pub open spec fn none_eligible(core: RouterCore, names: Seq<String>, sequence: u32) -> bool {
    forall|j: int| 0 <= j < names.len() ==> !eligible(core, (#[trigger] names[j])@, sequence)
}

/// The composite score of a route that can be selected.
fn eligible_score(core: &RouterCore, name: &String, sequence: u32) -> (r: Option<i64>)
    ensures
        match r {
            Some(score) => eligible(*core, name@, sequence) && score == composite(
                core.scores@[name@],
            ),
            None => !eligible(*core, name@, sequence),
        },
{
    match core.routes.get(name) {
        Some(entry) => {
            if entry.paused || is_route_expired(entry, sequence) {
                return None;
            }
        },
        None => {
            return None;
        },
    }
    match core.scores.get(name) {
        Some(score) => Some(
            score.liquidity_score as i64 + score.reliability_score as i64 - (score.fee_bps / 10) as i64,
        ),
        None => None,
    }
}

/// The position and score of the best of `names`.
pub fn select_best(core: &RouterCore, names: &Vec<String>, sequence: u32) -> (r: Option<
    (usize, i64),
>)
    ensures
        match r {
            Some((i, score)) => is_best_at(*core, names@, i as int, sequence) && score
                == composite(core.scores@[names@[i as int]@]),
            None => none_eligible(*core, names@, sequence),
        },
{
    let mut best: Option<(usize, i64)> = None;
    let mut i: usize = 0;
    while i < names.len()
        invariant
            i <= names@.len(),
            match best {
                Some((b, score)) => b < i && is_best_at(
                    *core,
                    names@.take(i as int),
                    b as int,
                    sequence,
                ) && score == composite(core.scores@[names@[b as int]@]),
                None => none_eligible(*core, names@.take(i as int), sequence),
            },
        decreases names@.len() - i,
    {
        let ghost seen = names@.take(i as int);
        let ghost next = names@.take(i + 1);
        proof {
            assert(next =~= seen.push(names@[i as int]));
            assert(next[i as int] == names@[i as int]);
            assert forall|j: int| 0 <= j < i implies #[trigger] next[j] == seen[j] by {}
        }
        match eligible_score(core, &names[i], sequence) {
            Some(score) => {
                let better: bool = match best {
                    Some((_, best_score)) => score > best_score,
                    None => true,
                };
                if better {
                    best = Some((i, score));
                }
            },
            None => {},
        }
        i = i + 1;
    }
    proof {
        assert(names@.take(i as int) =~= names@);
    }
    best
}

/// The position of the best of `names`.
pub open spec fn best_position(core: RouterCore, names: Seq<String>, sequence: u32) -> Option<int> {
    if none_eligible(core, names, sequence) {
        None
    } else {
        Some(choose|i: int| is_best_at(core, names, i, sequence))
    }
}

/// The best of the registered routes.
pub open spec fn best_name(core: RouterCore, sequence: u32) -> Option<String> {
    match best_position(core, core.route_names@, sequence) {
        Some(i) => Some(core.route_names@[i]),
        None => None,
    }
}

/// What selecting the best route publishes.
pub open spec fn best_events(core: RouterCore, sequence: u32) -> Seq<RouterEvent> {
    match best_name(core, sequence) {
        Some(name) => seq![
            RouterEvent::BestRouteSelected {
                name,
                composite: composite(core.scores@[name@]) as i64,
            },
        ],
        None => seq![],
    }
}

/// A position that is best is the best position.
pub proof fn lemma_best_position(core: RouterCore, names: Seq<String>, i: int, sequence: u32)
    requires
        is_best_at(core, names, i, sequence),
    ensures
        best_position(core, names, sequence) == Some(i),
{
    assert(eligible(core, names[i]@, sequence));
    let chosen = choose|j: int| is_best_at(core, names, j, sequence);
    best_is_unique(core, names, i, chosen, sequence);
}

/// Which route is best depends on the routes and their scores alone.
pub proof fn lemma_best_depends_on_routes(a: RouterCore, b: RouterCore, sequence: u32)
    requires
        a.routes@ == b.routes@,
        a.scores@ == b.scores@,
        a.route_names@ == b.route_names@,
    ensures
        best_name(a, sequence) == best_name(b, sequence),
        best_events(a, sequence) == best_events(b, sequence),
{
    let names = a.route_names@;
    assert forall|name: Seq<char>| eligible(a, name, sequence) == eligible(b, name, sequence) by {}
    assert(none_eligible(a, names, sequence) == none_eligible(b, names, sequence));
    assert forall|i: int| is_best_at(a, names, i, sequence) == is_best_at(b, names, i, sequence) by {
        if is_best_at(a, names, i, sequence) {
            lemma_best_transfers(a, b, i, sequence);
        }
        if is_best_at(b, names, i, sequence) {
            lemma_best_transfers(b, a, i, sequence);
        }
    }
    if !none_eligible(a, names, sequence) {
        let i = choose|i: int| is_best_at(a, names, i, sequence);
        let j = choose|j: int| is_best_at(b, names, j, sequence);
        if is_best_at(a, names, i, sequence) {
            best_is_unique(b, names, i, j, sequence);
        } else {
            lemma_some_best(a, names, sequence);
        }
    }
}

/// A best position is best in every state with the same routes and scores.
proof fn lemma_best_transfers(a: RouterCore, b: RouterCore, i: int, sequence: u32)
    requires
        a.routes@ == b.routes@,
        a.scores@ == b.scores@,
        a.route_names@ == b.route_names@,
        is_best_at(a, a.route_names@, i, sequence),
    ensures
        is_best_at(b, b.route_names@, i, sequence),
{
    let names = a.route_names@;
    assert forall|j: int|
        0 <= j < names.len() && eligible(b, (#[trigger] names[j])@, sequence) implies composite(
        b.scores@[names[j]@],
    ) <= composite(b.scores@[names[i]@]) by {
        assert(eligible(a, names[j]@, sequence));
    }
    assert forall|j: int|
        0 <= j < i && eligible(b, (#[trigger] names[j])@, sequence) implies composite(
        b.scores@[names[j]@],
    ) < composite(b.scores@[names[i]@]) by {
        assert(eligible(a, names[j]@, sequence));
    }
}

/// Where any name can be selected, one is best.
pub proof fn lemma_some_best(core: RouterCore, names: Seq<String>, sequence: u32)
    requires
        !none_eligible(core, names, sequence),
    ensures
        exists|i: int| is_best_at(core, names, i, sequence),
    decreases names.len(),
{
    let rest = names.drop_last();
    let last = names.len() - 1;
    assert forall|j: int| 0 <= j < last implies #[trigger] names[j] == rest[j] by {}
    if none_eligible(core, rest, sequence) {
        assert forall|j: int| 0 <= j < last implies !eligible(
            core,
            (#[trigger] names[j])@,
            sequence,
        ) by {
            assert(!eligible(core, rest[j]@, sequence));
        }
        assert(is_best_at(core, names, last, sequence));
    } else {
        lemma_some_best(core, rest, sequence);
        let i = choose|i: int| is_best_at(core, rest, i, sequence);
        let better = eligible(core, names[last]@, sequence) && composite(
            core.scores@[names[last]@],
        ) > composite(core.scores@[rest[i]@]);
        assert forall|j: int|
            0 <= j < last && eligible(core, (#[trigger] names[j])@, sequence) implies composite(
            core.scores@[names[j]@],
        ) <= composite(core.scores@[names[i]@]) by {
            assert(eligible(core, rest[j]@, sequence));
        }
        assert forall|j: int|
            0 <= j < i && eligible(core, (#[trigger] names[j])@, sequence) implies composite(
            core.scores@[names[j]@],
        ) < composite(core.scores@[names[i]@]) by {
            assert(eligible(core, rest[j]@, sequence));
        }
        if better {
            assert(is_best_at(core, names, last, sequence));
        } else {
            assert(is_best_at(core, names, i, sequence));
        }
    }
}

/// Finds the highest-scoring eligible route anew and keeps it as the best one, or
/// keeps none where no route is eligible.
///
/// Called wherever the outcome can change: scoring, pausing and route removal.
pub fn recompute_best_route(core: &mut RouterCore, sequence: u32)
    ensures
        *final(core) == (RouterCore {
            best_route: final(core).best_route,
            events: final(core).events,
            ..*old(core)
        }),
        final(core).best_route == best_name(*old(core), sequence),
        final(core).events@ == old(core).events@ + best_events(*old(core), sequence),
        match final(core).best_route {
            Some(name) => exists|i: int| #[trigger]
                is_best_at(*old(core), old(core).route_names@, i, sequence) && name == old(
                    core,
                ).route_names@[i],
            None => none_eligible(*old(core), old(core).route_names@, sequence),
        },
{
    match select_best(core, &core.route_names, sequence) {
        Some((i, score)) => {
            let name: String = core.route_names[i].clone();
            core.best_route = Some(name.clone());
            core.events.push(RouterEvent::BestRouteSelected { name, composite: score });
            proof {
                assert(is_best_at(*old(core), old(core).route_names@, i as int, sequence));
                lemma_best_position(*old(core), old(core).route_names@, i as int, sequence);
                assert(core.events@ =~= old(core).events@ + best_events(*old(core), sequence));
            }
        },
        None => {
            core.best_route = None;
            proof {
                assert(core.events@ =~= old(core).events@ + best_events(*old(core), sequence));
            }
        },
    }
}

/// There is one best route at most: two positions that are both best are the same.
pub proof fn best_is_unique(core: RouterCore, names: Seq<String>, a: int, b: int, sequence: u32)
    requires
        is_best_at(core, names, a, sequence),
        is_best_at(core, names, b, sequence),
    ensures
        a == b,
{
    assert(eligible(core, names[a]@, sequence) && eligible(core, names[b]@, sequence));
}

} // verus!
