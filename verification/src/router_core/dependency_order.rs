//! What holds of the order in which a route is resolved with its dependencies.

use super::dependencies::{
    acyclic, dependencies_in, is_walk, lemma_stack_fits, lemma_walk_before, lemma_walk_part, reaches,
    unrolled, unrolled_all,
};
use super::types::RouterCore;
use crate::store::lemma_contents_finite;
use crate::text::{
    lemma_lists_push, lemma_with_new, lemma_with_new_distinct, lists, lists_all, with_new,
};
use vstd::prelude::*;

verus! {

/// Whether no walk from a route takes more than `depth` steps.
spec fn ends_within(
    dependencies: Map<Seq<char>, Vec<String>>,
    from: Seq<char>,
    depth: nat,
) -> bool {
    forall|path: Seq<Seq<char>>| #[trigger]
        is_walk(dependencies, path) && path.first() == from ==> path.len() <= depth + 1
}

/// Whether every route stands behind those that it depends on.
pub open spec fn dependencies_first(
    dependencies: Map<Seq<char>, Vec<String>>,
    names: Seq<String>,
) -> bool {
    forall|i: int|
        0 <= i < names.len() ==> lists_all(
            names.take(i),
            dependencies_in(dependencies, (#[trigger] names[i])@),
        )
}

/// In a network without circles a walk has no more steps than there are routes with
/// dependencies.
proof fn lemma_acyclic_ends(core: RouterCore, from: Seq<char>)
    requires
        acyclic(core.dependencies@),
    ensures
        ends_within(core.dependencies@, from, core.dependencies@.dom().len()),
{
    let known = core.dependencies@;
    lemma_contents_finite(core.dependencies.entries@);
    assert forall|path: Seq<Seq<char>>| #[trigger]
        is_walk(known, path) && path.first() == from implies path.len() <= known.dom().len() + 1 by {
        let all_but_last = path.drop_last();
        assert forall|i: int| 0 <= i < all_but_last.len() implies known.contains_key(
            #[trigger] all_but_last[i],
        ) by {
            assert(lists(dependencies_in(known, path[i]), path[i + 1]));
        }
        assert(path.no_duplicates());
        lemma_stack_fits(known, all_but_last);
    }
}

/// One step along, a walk has one step less to go.
proof fn lemma_ends_next(
    dependencies: Map<Seq<char>, Vec<String>>,
    from: Seq<char>,
    next: Seq<char>,
    depth: nat,
)
    requires
        ends_within(dependencies, from, depth),
        lists(dependencies_in(dependencies, from), next),
    ensures
        depth > 0,
        ends_within(dependencies, next, (depth - 1) as nat),
{
    let step = seq![next];
    assert(is_walk(dependencies, step));
    lemma_walk_before(dependencies, from, step);
    assert((seq![from] + step).len() <= depth + 1);
    assert forall|path: Seq<Seq<char>>| #[trigger]
        is_walk(dependencies, path) && path.first() == next implies path.len() <= (depth - 1) + 1 by {
        lemma_walk_before(dependencies, from, path);
        assert((seq![from] + path).len() <= depth + 1);
    }
}

/// What is listed stays listed as a list goes on.
proof fn lemma_lists_longer(a: Seq<String>, b: Seq<String>, text: Seq<char>)
    ensures
        lists(a + b, text) == (lists(a, text) || lists(b, text)),
{
    if lists(a, text) {
        let i = choose|i: int| 0 <= i < a.len() && (#[trigger] a[i])@ == text;
        assert((a + b)[i]@ == text);
    }
    if lists(b, text) {
        let i = choose|i: int| 0 <= i < b.len() && (#[trigger] b[i])@ == text;
        assert((a + b)[a.len() + i]@ == text);
    }
    if lists(a + b, text) {
        let i = choose|i: int| 0 <= i < (a + b).len() && (#[trigger] (a + b)[i])@ == text;
        if i < a.len() {
            assert(a[i]@ == text);
        } else {
            assert(b[i - a.len()]@ == text);
        }
    }
}

/// Two lists in which dependencies come first make up one.
proof fn lemma_first_append(
    dependencies: Map<Seq<char>, Vec<String>>,
    a: Seq<String>,
    b: Seq<String>,
)
    requires
        dependencies_first(dependencies, a),
        dependencies_first(dependencies, b),
    ensures
        dependencies_first(dependencies, a + b),
{
    let all = a + b;
    assert forall|i: int| 0 <= i < all.len() implies lists_all(
        all.take(i),
        dependencies_in(dependencies, (#[trigger] all[i])@),
    ) by {
        let needed = dependencies_in(dependencies, all[i]@);
        assert forall|k: int| 0 <= k < needed.len() implies lists(
            all.take(i),
            (#[trigger] needed[k])@,
        ) by {
            if i < a.len() {
                assert(all[i] == a[i]);
                assert(all.take(i) =~= a.take(i));
            } else {
                let j = i - a.len();
                assert(all[i] == b[j]);
                assert(lists(b.take(j), needed[k]@));
                assert(all.take(i) =~= a + b.take(j));
                lemma_lists_longer(a, b.take(j), needed[k]@);
            }
        }
    }
}

proof fn lemma_unrolled_first(
    dependencies: Map<Seq<char>, Vec<String>>,
    name: String,
    depth: nat,
)
    requires
        ends_within(dependencies, name@, depth),
    ensures
        dependencies_first(dependencies, unrolled(dependencies, name, depth)),
        lists(unrolled(dependencies, name, depth), name@),
    decreases depth, 0nat,
{
    let needed = dependencies_in(dependencies, name@);
    let order = unrolled(dependencies, name, depth);
    assert(order.last() == name);
    assert(order[order.len() - 1]@ == name@);
    if depth == 0 {
        if needed.len() > 0 {
            assert(lists(needed, needed[0]@));
            lemma_ends_next(dependencies, name@, needed[0]@, depth);
        }
    } else {
        let before = unrolled_all(dependencies, needed, (depth - 1) as nat);
        assert forall|k: int| 0 <= k < needed.len() implies ends_within(
            dependencies,
            (#[trigger] needed[k])@,
            (depth - 1) as nat,
        ) by {
            lemma_ends_next(dependencies, name@, needed[k]@, depth);
        }
        lemma_unrolled_all_first(dependencies, needed, (depth - 1) as nat);
        assert forall|i: int| 0 <= i < order.len() implies lists_all(
            order.take(i),
            dependencies_in(dependencies, (#[trigger] order[i])@),
        ) by {
            assert(order.take(i) =~= before.take(i));
            if i < before.len() {
                assert(order[i] == before[i]);
            } else {
                assert(before.take(i) =~= before);
            }
        }
    }
}

proof fn lemma_unrolled_all_first(
    dependencies: Map<Seq<char>, Vec<String>>,
    names: Seq<String>,
    depth: nat,
)
    requires
        forall|k: int|
            0 <= k < names.len() ==> ends_within(dependencies, (#[trigger] names[k])@, depth),
    ensures
        dependencies_first(dependencies, unrolled_all(dependencies, names, depth)),
        lists_all(unrolled_all(dependencies, names, depth), names),
    decreases depth, names.len(),
{
    if names.len() > 0 {
        let rest = names.drop_last();
        let last = names[names.len() - 1];
        let so_far = unrolled_all(dependencies, rest, depth);
        let more = unrolled(dependencies, last, depth);
        assert forall|k: int| 0 <= k < rest.len() implies ends_within(
            dependencies,
            (#[trigger] rest[k])@,
            depth,
        ) by {
            assert(rest[k] == names[k]);
        }
        assert(ends_within(dependencies, last@, depth));
        lemma_unrolled_all_first(dependencies, rest, depth);
        lemma_unrolled_first(dependencies, last, depth);
        lemma_first_append(dependencies, so_far, more);
        assert forall|k: int| 0 <= k < names.len() implies lists(
            so_far + more,
            (#[trigger] names[k])@,
        ) by {
            lemma_lists_longer(so_far, more, names[k]@);
            if k < rest.len() {
                assert(lists(so_far, rest[k]@));
            }
        }
    }
}

/// Leaving out repetitions keeps dependencies first.
proof fn lemma_with_new_first(dependencies: Map<Seq<char>, Vec<String>>, names: Seq<String>)
    requires
        dependencies_first(dependencies, names),
    ensures
        dependencies_first(dependencies, with_new(seq![], names)),
    decreases names.len(),
{
    if names.len() > 0 {
        let rest = names.drop_last();
        let so_far = with_new(seq![], rest);
        let all = with_new(seq![], names);
        assert forall|i: int| 0 <= i < rest.len() implies lists_all(
            rest.take(i),
            dependencies_in(dependencies, (#[trigger] rest[i])@),
        ) by {
            assert(rest[i] == names[i]);
            assert(rest.take(i) =~= names.take(i));
        }
        lemma_with_new_first(dependencies, rest);
        assert forall|i: int| 0 <= i < all.len() implies lists_all(
            all.take(i),
            dependencies_in(dependencies, (#[trigger] all[i])@),
        ) by {
            assert(all.take(i) =~= so_far.take(i));
            if i < so_far.len() {
                assert(all[i] == so_far[i]);
            } else {
                let needed = dependencies_in(dependencies, names.last()@);
                assert(so_far.take(i) =~= so_far);
                assert(lists_all(
                    names.take(names.len() - 1),
                    dependencies_in(dependencies, names[names.len() - 1]@),
                ));
                assert(names.take(names.len() - 1) =~= rest);
                assert forall|k: int| 0 <= k < needed.len() implies lists(
                    so_far,
                    (#[trigger] needed[k])@,
                ) by {
                    lemma_with_new(seq![], rest, needed[k]@);
                }
            }
        }
    }
}

/// A route is resolved behind everything that it depends on, and nothing is resolved
/// twice.
pub proof fn dependencies_come_first(core: RouterCore, name: String)
    requires
        core.wf(),
    ensures
        ({
            let order = with_new(seq![], core.with_dependencies(name));
            &&& dependencies_first(core.dependencies@, order)
            &&& forall|i: int, j: int|
                0 <= i < j < order.len() ==> (#[trigger] order[i])@ != (#[trigger] order[j])@
        }),
{
    let depth = core.dependencies@.dom().len();
    lemma_acyclic_ends(core, name@);
    lemma_unrolled_first(core.dependencies@, name, depth);
    lemma_with_new_first(core.dependencies@, core.with_dependencies(name));
    lemma_with_new_distinct(seq![], core.with_dependencies(name));
}

proof fn lemma_unrolled_reached(
    dependencies: Map<Seq<char>, Vec<String>>,
    name: String,
    depth: nat,
    text: Seq<char>,
)
    requires
        lists(unrolled(dependencies, name, depth), text),
    ensures
        reaches(dependencies, name@, text),
    decreases depth, 0nat,
{
    let order = unrolled(dependencies, name, depth);
    if text == name@ {
        let path = seq![text];
        assert(is_walk(dependencies, path));
    } else {
        let i = choose|i: int| 0 <= i < order.len() && (#[trigger] order[i])@ == text;
        assert(depth > 0);
        let needed = dependencies_in(dependencies, name@);
        let before = unrolled_all(dependencies, needed, (depth - 1) as nat);
        lemma_lists_push(before, name, text);
        lemma_unrolled_all_reached(dependencies, name@, needed, (depth - 1) as nat, text);
    }
}

proof fn lemma_unrolled_all_reached(
    dependencies: Map<Seq<char>, Vec<String>>,
    from: Seq<char>,
    names: Seq<String>,
    depth: nat,
    text: Seq<char>,
)
    requires
        lists(unrolled_all(dependencies, names, depth), text),
        lists_all(dependencies_in(dependencies, from), names),
    ensures
        reaches(dependencies, from, text),
    decreases depth, names.len(),
{
    if names.len() > 0 {
        let rest = names.drop_last();
        let last = names[names.len() - 1];
        lemma_lists_longer(
            unrolled_all(dependencies, rest, depth),
            unrolled(dependencies, last, depth),
            text,
        );
        if lists(unrolled_all(dependencies, rest, depth), text) {
            assert forall|i: int| 0 <= i < rest.len() implies lists(
                dependencies_in(dependencies, from),
                (#[trigger] rest[i])@,
            ) by {
                assert(rest[i] == names[i]);
            }
            lemma_unrolled_all_reached(dependencies, from, rest, depth, text);
        } else {
            lemma_unrolled_reached(dependencies, last, depth, text);
            let path = choose|path: Seq<Seq<char>>| #[trigger]
                is_walk(dependencies, path) && path.first() == last@ && path.last() == text;
            assert(lists(dependencies_in(dependencies, from), last@));
            lemma_walk_before(dependencies, from, path);
            assert(is_walk(dependencies, seq![from] + path));
        }
    }
}

/// What lies within reach is written out.
proof fn lemma_reached_unrolled(
    dependencies: Map<Seq<char>, Vec<String>>,
    name: String,
    depth: nat,
    path: Seq<Seq<char>>,
)
    requires
        is_walk(dependencies, path),
        path.first() == name@,
        path.len() <= depth + 1,
    ensures
        lists(unrolled(dependencies, name, depth), path.last()),
    decreases depth,
{
    let order = unrolled(dependencies, name, depth);
    assert(order[order.len() - 1]@ == name@);
    if path.len() > 1 {
        let needed = dependencies_in(dependencies, name@);
        let rest = path.subrange(1, path.len() as int);
        lemma_walk_part(dependencies, path, 1, path.len() as int);
        assert(lists(dependencies_in(dependencies, path[0]), path[1]));
        let k = choose|k: int| 0 <= k < needed.len() && (#[trigger] needed[k])@ == path[1];
        lemma_reached_unrolled(dependencies, needed[k], (depth - 1) as nat, rest);
        lemma_part_of_all(dependencies, needed, (depth - 1) as nat, k, path.last());
        lemma_lists_push(
            unrolled_all(dependencies, needed, (depth - 1) as nat),
            name,
            path.last(),
        );
    }
}

proof fn lemma_part_of_all(
    dependencies: Map<Seq<char>, Vec<String>>,
    names: Seq<String>,
    depth: nat,
    k: int,
    text: Seq<char>,
)
    requires
        0 <= k < names.len(),
        lists(unrolled(dependencies, names[k], depth), text),
    ensures
        lists(unrolled_all(dependencies, names, depth), text),
    decreases names.len(),
{
    let rest = names.drop_last();
    lemma_lists_longer(
        unrolled_all(dependencies, rest, depth),
        unrolled(dependencies, names.last(), depth),
        text,
    );
    if k < rest.len() {
        lemma_part_of_all(dependencies, rest, depth, k, text);
    }
}

/// Exactly those routes are resolved with a route that it is, or depends on directly or
/// through others.
pub proof fn resolves_all_that_is_needed(core: RouterCore, name: String, other: Seq<char>)
    requires
        core.wf(),
    ensures
        lists(with_new(seq![], core.with_dependencies(name)), other) == reaches(
            core.dependencies@,
            name@,
            other,
        ),
{
    let known = core.dependencies@;
    let depth = known.dom().len();
    lemma_with_new(seq![], core.with_dependencies(name), other);
    if lists(core.with_dependencies(name), other) {
        lemma_unrolled_reached(known, name, depth, other);
    }
    if reaches(known, name@, other) {
        let path = choose|path: Seq<Seq<char>>| #[trigger]
            is_walk(known, path) && path.first() == name@ && path.last() == other;
        lemma_acyclic_ends(core, name@);
        lemma_reached_unrolled(known, name, depth, path);
    }
}

} // verus!
