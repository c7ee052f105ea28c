//! Chains of dependencies between operations.

use super::contract::MAX_DEPENDENCY_DEPTH;
use super::types::{OpId, RouterTimelock, TimelockError};
use crate::text::lists;
use vstd::prelude::*;

verus! {

impl RouterTimelock {
    /// Whether an operation is open and depends on another.
    pub open spec fn waits_for(self, op_id: Seq<char>, other: Seq<char>) -> bool {
        self.is_open(op_id) && lists(self.dependencies_of(op_id), other)
    }

    /// Whether operation `i` of a chain waits for the next.
    pub open spec fn is_link(self, chain: Seq<Seq<char>>, i: int) -> bool {
        self.waits_for(chain[i], chain[i + 1])
    }

    /// Whether each operation of a chain waits for the next.
    pub open spec fn is_chain(self, chain: Seq<Seq<char>>) -> bool {
        &&& chain.len() > 0
        &&& forall|i: int| 0 <= i < chain.len() - 1 ==> #[trigger] self.is_link(chain, i)
    }

    /// Whether no operation waits for itself, directly or through others.
    pub open spec fn is_acyclic(self) -> bool {
        forall|chain: Seq<Seq<char>>| #[trigger]
            self.is_chain(chain) && chain.len() > 1 ==> chain.first() != chain.last()
    }
}

/// Of dependencies without a fault none has one.
proof fn lemma_listed_dependency(
    timelock: RouterTimelock,
    deps: Seq<OpId>,
    id: Seq<char>,
    op_id: Seq<char>,
    depth: int,
)
    requires
        timelock.dependencies_fault(deps, op_id, depth) is None,
        lists(deps, id),
    ensures
        timelock.dependency_fault(id, op_id, depth) is None,
    decreases deps.len(),
{
    let i = choose|i: int| 0 <= i < deps.len() && (#[trigger] deps[i])@ == id;
    if i < deps.len() - 1 {
        assert(deps.drop_last()[i]@ == id);
        lemma_listed_dependency(timelock, deps.drop_last(), id, op_id, depth);
    }
}

/// The walk along a chain meets no fault.
proof fn lemma_walk(timelock: RouterTimelock, chain: Seq<Seq<char>>, op_id: Seq<char>, n: int)
    requires
        timelock.is_chain(chain),
        timelock.dependency_fault(chain[0], op_id, 0) is None,
        0 <= n < chain.len(),
    ensures
        timelock.dependency_fault(chain[n], op_id, n) is None,
    decreases n,
{
    if n > 0 {
        lemma_walk(timelock, chain, op_id, n - 1);
        assert(timelock.is_link(chain, n - 1));
        lemma_listed_dependency(
            timelock,
            timelock.dependencies_of(chain[n - 1]),
            chain[n],
            op_id,
            n,
        );
    }
}

/// Where an operation can be queued, no chain that begins with one of its dependencies
/// leads back to it, and none goes more than [`MAX_DEPENDENCY_DEPTH`] steps behind it.
pub proof fn queueable_chains(
    timelock: RouterTimelock,
    deps: Seq<OpId>,
    op_id: Seq<char>,
    chain: Seq<Seq<char>>,
)
    requires
        timelock.dependencies_fault(deps, op_id, 0) is None,
        timelock.is_chain(chain),
        lists(deps, chain[0]),
    ensures
        chain.len() <= MAX_DEPENDENCY_DEPTH + 1,
        !chain.contains(op_id),
{
    lemma_listed_dependency(timelock, deps, chain[0], op_id, 0);
    lemma_walk(timelock, chain, op_id, chain.len() - 1);
    assert forall|i: int| 0 <= i < chain.len() implies chain[i] != op_id by {
        lemma_walk(timelock, chain, op_id, i);
    }
}

/// Where fewer operations are open, there are no more cycles.
pub proof fn lemma_fewer_open(before: RouterTimelock, after: RouterTimelock)
    requires
        before.is_acyclic(),
        after.dependencies@ == before.dependencies@,
        forall|id: Seq<char>| #[trigger] after.is_open(id) ==> before.is_open(id),
    ensures
        after.is_acyclic(),
{
    assert forall|chain: Seq<Seq<char>>| #[trigger]
        after.is_chain(chain) && chain.len() > 1 implies chain.first() != chain.last() by {
        assert forall|i: int| 0 <= i < chain.len() - 1 implies #[trigger] before.is_link(chain, i) by {
            assert(after.is_link(chain, i));
            assert(after.is_open(chain[i]));
        }
        assert(before.is_chain(chain));
    }
}

/// The first place at or after `from` at which a sequence holds what its last place holds.
proof fn first_return(chain: Seq<Seq<char>>, from: int) -> (m: int)
    requires
        0 <= from < chain.len(),
    ensures
        from <= m < chain.len(),
        chain[m] == chain.last(),
        forall|i: int| from <= i < m ==> #[trigger] chain[i] != chain.last(),
    decreases chain.len() - from,
{
    if chain[from] == chain.last() {
        from
    } else {
        first_return(chain, from + 1)
    }
}

/// No cycle leads through an operation that was just queued.
proof fn lemma_no_cycle_through(
    before: RouterTimelock,
    deps: Seq<OpId>,
    op_id: Seq<char>,
    after: RouterTimelock,
    chain: Seq<Seq<char>>,
)
    requires
        before.dependencies_fault(deps, op_id, 0) is None,
        forall|id: Seq<char>, other: Seq<char>| #[trigger]
            after.waits_for(id, other) && id != op_id ==> before.waits_for(id, other),
        after.dependencies_of(op_id) == deps,
        after.is_chain(chain),
        chain.len() > 1,
        chain.first() == op_id,
    ensures
        chain.last() != op_id,
{
    if chain.last() == op_id {
        let m = first_return(chain, 1);
        let back = chain.subrange(1, m + 1);
        assert forall|i: int| 0 <= i < back.len() - 1 implies #[trigger] before.is_link(back, i) by {
            assert(after.is_link(chain, i + 1));
            assert(back[i] == chain[i + 1] && back[i + 1] == chain[i + 2]);
            assert(after.waits_for(back[i], back[i + 1]));
            assert(chain[i + 1] != op_id);
        }
        assert(before.is_chain(back));
        assert(after.is_link(chain, 0));
        assert(back[0] == chain[1]);
        queueable_chains(before, deps, op_id, back);
        assert(back[back.len() - 1] == op_id);
        assert(back.contains(op_id));
    }
}

/// A cycle, begun at another place.
spec fn rotated(chain: Seq<Seq<char>>, k: int) -> Seq<Seq<char>> {
    Seq::new(
        chain.len(),
        |i: int|
            if k + i < chain.len() {
                chain[k + i]
            } else {
                chain[k + i - (chain.len() - 1)]
            },
    )
}

/// Queueing an operation makes no cycle.
pub proof fn lemma_queued_acyclic(
    before: RouterTimelock,
    deps: Seq<OpId>,
    op_id: Seq<char>,
    after: RouterTimelock,
)
    requires
        before.is_acyclic(),
        before.dependencies_fault(deps, op_id, 0) is None,
        after.dependencies@ == before.dependencies@.insert(op_id, after.dependencies@[op_id]),
        after.dependencies_of(op_id) == deps,
        after.ops@ == before.ops@.insert(op_id, after.ops@[op_id]),
    ensures
        after.is_acyclic(),
{
    assert forall|id: Seq<char>, other: Seq<char>| #[trigger]
        after.waits_for(id, other) && id != op_id implies before.waits_for(id, other) by {
        assert(after.dependencies_of(id) == before.dependencies_of(id));
    }
    assert forall|chain: Seq<Seq<char>>| #[trigger]
        after.is_chain(chain) && chain.len() > 1 implies chain.first() != chain.last() by {
        if chain.first() == chain.last() {
            if exists|k: int| 0 <= k < chain.len() && #[trigger] chain[k] == op_id {
                let k = choose|k: int| 0 <= k < chain.len() && #[trigger] chain[k] == op_id;
                let turned = rotated(chain, k);
                let links = chain.len() - 1;
                assert forall|i: int| 0 <= i < turned.len() - 1 implies #[trigger] after.is_link(
                    turned,
                    i,
                ) by {
                    let at = if k + i < links {
                        k + i
                    } else {
                        k + i - links
                    };
                    assert(after.is_link(chain, at));
                    assert(turned[i] == chain[at]);
                    assert(turned[i + 1] == chain[at + 1]);
                }
                assert(after.is_chain(turned));
                lemma_no_cycle_through(before, deps, op_id, after, turned);
                assert(turned.last() == op_id);
            } else {
                assert forall|i: int| 0 <= i < chain.len() - 1 implies #[trigger] before.is_link(
                    chain,
                    i,
                ) by {
                    assert(after.is_link(chain, i));
                    assert(after.waits_for(chain[i], chain[i + 1]));
                    assert(chain[i] != op_id);
                }
                assert(before.is_chain(chain));
            }
        }
    }
}

/// A chain with one more operation before it that waits for its first.
proof fn lemma_chain_before(timelock: RouterTimelock, first: Seq<char>, chain: Seq<Seq<char>>)
    requires
        timelock.is_chain(chain),
        timelock.waits_for(first, chain[0]),
    ensures
        timelock.is_chain(seq![first] + chain),
{
    let longer = seq![first] + chain;
    assert forall|i: int| 0 <= i < longer.len() - 1 implies #[trigger] timelock.is_link(longer, i) by {
        if i > 0 {
            assert(timelock.is_link(chain, i - 1));
        }
    }
}

/// A dependency is refused as circular only where a chain leads from it to the operation, and
/// as too deep only where a chain from it goes on beyond the limit: the chain is the proof.
pub proof fn refused_dependency_has_a_chain(
    timelock: RouterTimelock,
    dep_id: Seq<char>,
    op_id: Seq<char>,
    depth: int,
) -> (chain: Seq<Seq<char>>)
    requires
        timelock.dependency_fault(dep_id, op_id, depth) is Some,
        0 <= depth,
    ensures
        timelock.is_chain(chain),
        chain.first() == dep_id,
        match timelock.dependency_fault(dep_id, op_id, depth)->0 {
            TimelockError::CircularDependency => chain.last() == op_id,
            TimelockError::DependencyTooDeep => depth + chain.len() - 1 > 8,
            _ => false,
        },
    decreases MAX_DEPENDENCY_DEPTH + 1 - depth, 0int, 0int,
{
    if dep_id == op_id || depth > MAX_DEPENDENCY_DEPTH {
        seq![dep_id]
    } else {
        let (k, rest) = lemma_refused_dependencies(
            timelock,
            timelock.dependencies_of(dep_id),
            op_id,
            depth + 1,
        );
        assert(timelock.dependencies_of(dep_id)[k]@ == rest[0]);
        assert(timelock.waits_for(dep_id, rest[0]));
        lemma_chain_before(timelock, dep_id, rest);
        seq![dep_id] + rest
    }
}

proof fn lemma_refused_dependencies(
    timelock: RouterTimelock,
    deps: Seq<OpId>,
    op_id: Seq<char>,
    depth: int,
) -> (r: (int, Seq<Seq<char>>))
    requires
        timelock.dependencies_fault(deps, op_id, depth) is Some,
        0 <= depth,
    ensures
        0 <= r.0 < deps.len(),
        r.1.len() > 0,
        deps[r.0]@ == r.1[0],
        timelock.is_chain(r.1),
        match timelock.dependencies_fault(deps, op_id, depth)->0 {
            TimelockError::CircularDependency => r.1.last() == op_id,
            TimelockError::DependencyTooDeep => depth + r.1.len() - 1 > 8,
            _ => false,
        },
    decreases MAX_DEPENDENCY_DEPTH + 1 - depth, 1int, deps.len(),
{
    if timelock.dependencies_fault(deps.drop_last(), op_id, depth) is Some {
        lemma_refused_dependencies(timelock, deps.drop_last(), op_id, depth)
    } else {
        let chain = refused_dependency_has_a_chain(timelock, deps.last()@, op_id, depth);
        (deps.len() - 1, chain)
    }
}

/// Operations that are queued with dependencies are refused only for a chain: one that leads
/// from a dependency back to the operation, or one of more than nine operations.
pub proof fn queue_is_refused_only_for_a_chain(
    timelock: RouterTimelock,
    deps: Seq<OpId>,
    op_id: Seq<char>,
)
    ensures
        timelock.dependencies_fault(deps, op_id, 0) == Some(TimelockError::CircularDependency)
            ==> exists|chain: Seq<Seq<char>>| #[trigger]
            timelock.is_chain(chain) && lists(deps, chain.first()) && chain.last() == op_id,
        timelock.dependencies_fault(deps, op_id, 0) == Some(TimelockError::DependencyTooDeep)
            ==> exists|chain: Seq<Seq<char>>| #[trigger]
            timelock.is_chain(chain) && lists(deps, chain.first()) && chain.len() > 9,
        timelock.dependencies_fault(deps, op_id, 0) is Some ==> timelock.dependencies_fault(
            deps,
            op_id,
            0,
        )->0 == TimelockError::CircularDependency || timelock.dependencies_fault(deps, op_id, 0)->0
            == TimelockError::DependencyTooDeep,
{
    if timelock.dependencies_fault(deps, op_id, 0) is Some {
        let (k, chain) = lemma_refused_dependencies(timelock, deps, op_id, 0);
        assert(deps[k]@ == chain.first());
        assert(timelock.is_chain(chain));
    }
}

/// One operation waits for another exactly while it is queued, neither executed nor
/// cancelled, and the other is one of those that it was queued with.
pub proof fn waiting_means_open_and_dependent(
    timelock: RouterTimelock,
    op_id: Seq<char>,
    other: Seq<char>,
)
    ensures
        timelock.waits_for(op_id, other) <==> timelock.ops@.contains_key(op_id)
            && !timelock.ops@[op_id].executed && !timelock.ops@[op_id].cancelled
            && timelock.dependencies@.contains_key(op_id) && exists|k: int|
            0 <= k < timelock.dependencies@[op_id]@.len() && (
            #[trigger] timelock.dependencies@[op_id]@[k])@ == other,
{
}

} // verus!
