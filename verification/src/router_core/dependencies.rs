//! Dependencies between routes, which never form a circle.

use super::types::{RouterCore, RouterError};
use crate::common::Address;
use crate::store::lemma_contents_finite;
use crate::text::{
    copy_strings, lemma_lists_push, lemma_nothing_new, lemma_with_new, lemma_with_new_twice,
    list_contains, lists, lists_all, same_text, with_new,
};
use vstd::prelude::*;

verus! {

/// The direct dependencies of a route.
pub open spec fn dependencies_in(
    dependencies: Map<Seq<char>, Vec<String>>,
    route: Seq<char>,
) -> Seq<String> {
    if dependencies.contains_key(route) {
        dependencies[route]@
    } else {
        seq![]
    }
}

/// Whether each of the routes depends on the next.
pub open spec fn is_walk(
    dependencies: Map<Seq<char>, Vec<String>>,
    path: Seq<Seq<char>>,
) -> bool {
    &&& path.len() > 0
    &&& forall|i: int|
        0 <= i < path.len() - 1 ==> lists(
            dependencies_in(dependencies, #[trigger] path[i]),
            path[i + 1],
        )
}

/// Whether `from` is `to`, or depends on it directly or through others.
pub open spec fn reaches(
    dependencies: Map<Seq<char>, Vec<String>>,
    from: Seq<char>,
    to: Seq<char>,
) -> bool {
    exists|path: Seq<Seq<char>>|
        #[trigger] is_walk(dependencies, path) && path.first() == from && path.last() == to
}

/// Whether no route depends on itself, directly or through others.
pub open spec fn acyclic(dependencies: Map<Seq<char>, Vec<String>>) -> bool {
    forall|path: Seq<Seq<char>>| #[trigger] is_walk(dependencies, path) ==> path.no_duplicates()
}

/// Whether a walk from `from` ends at `to`, ends on the stack, or comes back to where it
/// was.
pub open spec fn is_obstacle(
    dependencies: Map<Seq<char>, Vec<String>>,
    stack: Seq<Seq<char>>,
    from: Seq<char>,
    to: Seq<char>,
    path: Seq<Seq<char>>,
) -> bool {
    &&& is_walk(dependencies, path)
    &&& path.first() == from
    &&& path.last() == to || stack.contains(path.last()) || !path.no_duplicates()
}

/// Whether making `route` depend on `depends_on` closes a circle, or finds one closed
/// already.
pub open spec fn closes_circle(
    dependencies: Map<Seq<char>, Vec<String>>,
    route: Seq<char>,
    depends_on: Seq<char>,
) -> bool {
    exists|path: Seq<Seq<char>>| #[trigger]
        is_obstacle(dependencies, seq![], depends_on, route, path)
}

/// The contents of a list of strings.
pub open spec fn texts(strings: Seq<String>) -> Seq<Seq<char>> {
    strings.map_values(|s: String| s@)
}

proof fn lemma_texts(strings: Seq<String>, text: Seq<char>)
    ensures
        texts(strings).contains(text) == lists(strings, text),
{
    if texts(strings).contains(text) {
        let i = choose|i: int| 0 <= i < texts(strings).len() && texts(strings)[i] == text;
        assert(strings[i]@ == text);
    }
    if lists(strings, text) {
        let i = choose|i: int| 0 <= i < strings.len() && (#[trigger] strings[i])@ == text;
        assert(texts(strings)[i] == text);
    }
}

/// A walk can start one step earlier.
pub proof fn lemma_walk_before(
    dependencies: Map<Seq<char>, Vec<String>>,
    first: Seq<char>,
    path: Seq<Seq<char>>,
)
    requires
        is_walk(dependencies, path),
        lists(dependencies_in(dependencies, first), path.first()),
    ensures
        is_walk(dependencies, seq![first] + path),
        (seq![first] + path).first() == first,
        (seq![first] + path).last() == path.last(),
        (seq![first] + path).drop_first() == path,
{
    let longer = seq![first] + path;
    assert forall|i: int| 0 <= i < longer.len() - 1 implies lists(
        dependencies_in(dependencies, #[trigger] longer[i]),
        longer[i + 1],
    ) by {
        if i > 0 {
            assert(longer[i] == path[i - 1] && longer[i + 1] == path[i]);
        }
    }
    assert(longer.drop_first() =~= path);
}

/// A part of a walk is a walk.
pub proof fn lemma_walk_part(
    dependencies: Map<Seq<char>, Vec<String>>,
    path: Seq<Seq<char>>,
    from: int,
    to: int,
)
    requires
        is_walk(dependencies, path),
        0 <= from < to <= path.len(),
    ensures
        is_walk(dependencies, path.subrange(from, to)),
        path.subrange(from, to).first() == path[from],
        path.subrange(from, to).last() == path[to - 1],
{
    let part = path.subrange(from, to);
    assert forall|i: int| 0 <= i < part.len() - 1 implies lists(
        dependencies_in(dependencies, #[trigger] part[i]),
        part[i + 1],
    ) by {
        assert(part[i] == path[from + i] && part[i + 1] == path[from + i + 1]);
    }
}

/// Two walks join where one ends and the other starts.
proof fn lemma_walk_join(
    dependencies: Map<Seq<char>, Vec<String>>,
    a: Seq<Seq<char>>,
    b: Seq<Seq<char>>,
)
    requires
        is_walk(dependencies, a),
        is_walk(dependencies, b),
        a.last() == b.first(),
    ensures
        is_walk(dependencies, a + b.drop_first()),
        (a + b.drop_first()).first() == a.first(),
        (a + b.drop_first()).last() == b.last(),
{
    let joined = a + b.drop_first();
    assert forall|i: int| 0 <= i < joined.len() - 1 implies lists(
        dependencies_in(dependencies, #[trigger] joined[i]),
        joined[i + 1],
    ) by {
        if i < a.len() - 1 {
            assert(joined[i] == a[i] && joined[i + 1] == a[i + 1]);
        } else {
            let j = i - (a.len() - 1);
            assert(joined[i] == b[j] && joined[i + 1] == b[j + 1]);
        }
    }
    if b.len() == 1 {
        assert(joined =~= a);
    }
}

/// Obstacles of a route, seen from the routes it depends on.
proof fn lemma_obstacle_step(
    dependencies: Map<Seq<char>, Vec<String>>,
    stack: Seq<Seq<char>>,
    from: Seq<char>,
    to: Seq<char>,
    path: Seq<Seq<char>>,
)
    requires
        is_obstacle(dependencies, stack, from, to, path),
        !stack.contains(from),
        from != to,
    ensures
        exists|next: Seq<char>, rest: Seq<Seq<char>>|
            #![trigger is_obstacle(dependencies, stack.push(from), next, to, rest)]
            lists(dependencies_in(dependencies, from), next) && is_obstacle(
                dependencies,
                stack.push(from),
                next,
                to,
                rest,
            ),
{
    if path.len() == 1 {
        assert(path.last() == from);
    } else {
        let rest = path.subrange(1, path.len() as int);
        lemma_walk_part(dependencies, path, 1, path.len() as int);
        let next = rest.first();
        assert(lists(dependencies_in(dependencies, path[0]), path[1]));
        if stack.contains(path.last()) {
            let i = choose|i: int| 0 <= i < stack.len() && stack[i] == path.last();
            assert(stack.push(from)[i] == path.last());
        }
        if path.last() == to || stack.contains(path.last()) || !rest.no_duplicates() {
            assert(is_obstacle(dependencies, stack.push(from), next, to, rest));
        } else {
            let (i, j) = choose|i: int, j: int|
                0 <= i < path.len() && 0 <= j < path.len() && i != j && path[i] == path[j];
            if i > 0 && j > 0 {
                assert(rest[i - 1] == rest[j - 1]);
            }
            let k = if i == 0 {
                j
            } else {
                i
            };
            assert(path[k] == from);
            let back = path.subrange(1, k + 1);
            lemma_walk_part(dependencies, path, 1, k + 1);
            assert(stack.push(from)[stack.len() as int] == from);
            assert(back.last() == from);
            assert(is_obstacle(dependencies, stack.push(from), next, to, back));
        }
    }
}

/// An obstacle of a route is one of every route that depends on it.
proof fn lemma_obstacle_before(
    dependencies: Map<Seq<char>, Vec<String>>,
    stack: Seq<Seq<char>>,
    from: Seq<char>,
    to: Seq<char>,
    next: Seq<char>,
    rest: Seq<Seq<char>>,
)
    requires
        lists(dependencies_in(dependencies, from), next),
        is_obstacle(dependencies, stack.push(from), next, to, rest),
    ensures
        is_obstacle(dependencies, stack, from, to, seq![from] + rest),
{
    lemma_walk_before(dependencies, from, rest);
    let path = seq![from] + rest;
    if rest.last() == from {
        assert(path[0] == path[path.len() - 1]);
        assert(!path.no_duplicates());
    }
    if !rest.no_duplicates() {
        let (i, j) = choose|i: int, j: int|
            0 <= i < rest.len() && 0 <= j < rest.len() && i != j && rest[i] == rest[j];
        assert(path[i + 1] == path[j + 1]);
        assert(!path.no_duplicates());
    }
    if stack.push(from).contains(rest.last()) && rest.last() != from {
        let i = choose|i: int| 0 <= i < stack.push(from).len() && stack.push(from)[i] == rest.last();
        assert(stack[i] == rest.last());
    }
}

/// Different routes that all have dependencies are no more than there are entries.
pub proof fn lemma_stack_fits(dependencies: Map<Seq<char>, Vec<String>>, stack: Seq<Seq<char>>)
    requires
        dependencies.dom().finite(),
        stack.no_duplicates(),
        forall|i: int| 0 <= i < stack.len() ==> dependencies.contains_key(#[trigger] stack[i]),
    ensures
        stack.len() <= dependencies.dom().len(),
{
    stack.unique_seq_to_set();
    assert forall|text: Seq<char>| #[trigger] stack.to_set().contains(
        text,
    ) implies dependencies.dom().contains(text) by {
        let i = choose|i: int| 0 <= i < stack.len() && stack[i] == text;
        assert(dependencies.contains_key(stack[i]));
    }
    vstd::set_lib::lemma_len_subset(stack.to_set(), dependencies.dom());
}

/// What lies on the stack of a search: different routes that all have dependencies, each
/// of which depends on the next.
pub open spec fn is_search_stack(
    dependencies: Map<Seq<char>, Vec<String>>,
    stack: Seq<Seq<char>>,
) -> bool {
    &&& stack.no_duplicates()
    &&& forall|i: int| 0 <= i < stack.len() ==> dependencies.contains_key(#[trigger] stack[i])
    &&& stack.len() > 0 ==> is_walk(dependencies, stack)
}

/// A route with dependencies that is not on the stack can be put on it, if the one on top
/// depends on it.
proof fn lemma_search_push(
    dependencies: Map<Seq<char>, Vec<String>>,
    stack: Seq<Seq<char>>,
    route: Seq<char>,
)
    requires
        is_search_stack(dependencies, stack),
        stack.len() > 0 ==> lists(dependencies_in(dependencies, stack.last()), route),
        !stack.contains(route),
    ensures
        stack.push(route).no_duplicates(),
        is_walk(dependencies, stack.push(route)),
        dependencies.contains_key(route) ==> is_search_stack(dependencies, stack.push(route)),
{
    let pushed = stack.push(route);
    assert forall|i: int| 0 <= i < pushed.len() - 1 implies lists(
        dependencies_in(dependencies, #[trigger] pushed[i]),
        pushed[i + 1],
    ) by {
        if i < stack.len() - 1 {
            assert(pushed[i] == stack[i] && pushed[i + 1] == stack[i + 1]);
        } else {
            assert(pushed[i] == stack.last());
        }
    }
}

impl RouterCore {
    /// The direct dependencies of a route.
    fn get_dependencies_for_route(&self, route: &String) -> (r: Vec<String>)
        ensures
            r@ == self.dependencies_of(route@),
    {
        match self.dependencies.get(route) {
            Some(dependencies) => copy_strings(dependencies),
            None => Vec::new(),
        }
    }

    /// Follows all dependencies of `current`, and fails if that leads to `target`, to the
    /// stack, or round in a circle.
    fn visit_dependencies(
        &self,
        current: &String,
        target: &String,
        stack: &mut Vec<String>,
    ) -> (r: Result<(), RouterError>)
        requires
            is_search_stack(self.dependencies@, texts(old(stack)@)),
            old(stack)@.len() > 0 ==> lists(
                self.dependencies_of(old(stack)@.last()@),
                current@,
            ),
        ensures
            r is Ok ==> final(stack)@ == old(stack)@,
            r is Ok <==> !exists|path: Seq<Seq<char>>| #[trigger]
                is_obstacle(
                    self.dependencies@,
                    texts(old(stack)@),
                    current@,
                    target@,
                    path,
                ),
            r matches Err(e) ==> e == RouterError::CircularDependency,
        decreases self.dependencies@.dom().len() + 1 - old(stack)@.len(),
    {
        let ghost known = self.dependencies@;
        let ghost below = texts(stack@);
        proof {
            lemma_contents_finite(self.dependencies.entries@);
            lemma_stack_fits(known, below);
            lemma_texts(stack@, current@);
        }
        if list_contains(stack, current.as_str()) || same_text(current.as_str(), target.as_str()) {
            proof {
                assert(is_walk(known, seq![current@]));
                assert(is_obstacle(known, below, current@, target@, seq![current@]));
            }
            return Err(RouterError::CircularDependency);
        }
        stack.push(current.clone());
        let ghost here = stack@;
        proof {
            assert(texts(here) =~= below.push(current@));
            lemma_search_push(known, below, current@);
        }
        let dependencies: Vec<String> = self.get_dependencies_for_route(current);
        let mut i: usize = 0;
        while i < dependencies.len()
            invariant
                i <= dependencies@.len(),
                dependencies@ == dependencies_in(known, current@),
                known == self.dependencies@,
                stack@ == here,
                here.last()@ == current@,
                here.len() == old(stack)@.len() + 1,
                old(stack)@.len() <= known.dom().len(),
                texts(here) == below.push(current@),
                known.contains_key(current@) ==> is_search_stack(known, texts(here)),
                below == texts(old(stack)@),
                forall|j: int, path: Seq<Seq<char>>|
                    0 <= j < i ==> !#[trigger] is_obstacle(
                        known,
                        below.push(current@),
                        (#[trigger] dependencies@[j])@,
                        target@,
                        path,
                    ),
            decreases dependencies@.len() - i,
        {
            proof {
                assert(known.contains_key(current@));
                assert(dependencies@[i as int]@ == dependencies_in(known, current@)[i as int]@);
                assert(lists(self.dependencies_of(here.last()@), dependencies@[i as int]@));
            }
            match self.visit_dependencies(&dependencies[i], target, stack) {
                Err(e) => {
                    proof {
                        let next = dependencies@[i as int]@;
                        let rest = choose|rest: Seq<Seq<char>>| #[trigger]
                            is_obstacle(known, below.push(current@), next, target@, rest);
                        lemma_obstacle_before(known, below, current@, target@, next, rest);
                    }
                    return Err(e);
                },
                Ok(()) => {},
            }
            i = i + 1;
        }
        stack.pop();
        proof {
            assert(stack@ =~= old(stack)@);
            if exists|path: Seq<Seq<char>>| #[trigger]
                is_obstacle(known, below, current@, target@, path) {
                let path = choose|path: Seq<Seq<char>>| #[trigger]
                    is_obstacle(known, below, current@, target@, path);
                lemma_obstacle_step(known, below, current@, target@, path);
                let (next, rest) = choose|next: Seq<char>, rest: Seq<Seq<char>>|
                    #![trigger is_obstacle(known, below.push(current@), next, target@, rest)]
                    lists(dependencies_in(known, current@), next) && is_obstacle(
                        known,
                        below.push(current@),
                        next,
                        target@,
                        rest,
                    );
                let j = choose|j: int|
                    0 <= j < dependencies@.len() && (#[trigger] dependencies@[j])@ == next;
                assert(!is_obstacle(
                    known,
                    below.push(current@),
                    dependencies@[j]@,
                    target@,
                    rest,
                ));
            }
        }
        Ok(())
    }

    /// Why a route cannot be made to depend on another.
    pub open spec fn dependency_fault(self, route: Seq<char>, depends_on: Seq<char>) -> Option<
        RouterError,
    > {
        if !self.routes@.contains_key(route) || !self.routes@.contains_key(depends_on) {
            Some(RouterError::RouteNotFound)
        } else if closes_circle(self.dependencies@, route, depends_on) {
            Some(RouterError::CircularDependency)
        } else {
            None
        }
    }

    fn validate_dependency_cycle(&self, route: &String, depends_on: &String) -> (r: Result<
        (),
        RouterError,
    >)
        ensures
            r == (if closes_circle(self.dependencies@, route@, depends_on@) {
                Err(RouterError::CircularDependency)
            } else {
                Ok(())
            }),
    {
        let mut stack: Vec<String> = Vec::new();
        let ghost nothing: Seq<Seq<char>> = seq![];
        proof {
            assert(texts(stack@) =~= nothing);
        }
        match self.visit_dependencies(depends_on, route, &mut stack) {
            Ok(()) => Ok(()),
            Err(_) => Err(RouterError::CircularDependency),
        }
    }

    /// Makes a route depend on another. A dependency that is already there is not added
    /// again.
    ///
    /// # Errors
    /// * [`RouterError::NotInitialized`] if there is no admin.
    /// * [`RouterError::Unauthorized`] if the caller is not the admin.
    /// * [`RouterError::RouteNotFound`] if either is no route.
    /// * [`RouterError::CircularDependency`] if the other route is the same one, or
    ///   depends on it.
    pub fn set_route_dependency(
        &mut self,
        caller: &Address,
        route: String,
        depends_on: String,
    ) -> (r: Result<(), RouterError>)
        ensures
            r == (match old(self).admin_fault(*caller) {
                Some(e) => Err(e),
                None => match old(self).dependency_fault(route@, depends_on@) {
                    Some(e) => Err(e),
                    None => Ok(()),
                },
            }),
            r is Err || lists(old(self).dependencies_of(route@), depends_on@) ==> *final(self)
                == *old(self),
            r is Ok && !lists(old(self).dependencies_of(route@), depends_on@) ==> {
                &&& *final(self) == (RouterCore {
                    dependencies: final(self).dependencies,
                    ..*old(self)
                })
                &&& final(self).dependencies@ == old(self).dependencies@.insert(
                    route@,
                    final(self).dependencies@[route@],
                )
                &&& final(self).dependencies@[route@]@ == old(self).dependencies_of(route@).push(
                    depends_on,
                )
            },
            old(self).wf() ==> final(self).wf(),
    {
        match self.require_admin(caller) {
            Err(e) => {
                return Err(e);
            },
            Ok(()) => {},
        }
        if !self.routes.contains(&route) {
            return Err(RouterError::RouteNotFound);
        }
        if !self.routes.contains(&depends_on) {
            return Err(RouterError::RouteNotFound);
        }
        if same_text(route.as_str(), depends_on.as_str()) {
            proof {
                let path = seq![depends_on@];
                assert(is_walk(self.dependencies@, path));
                assert(is_obstacle(self.dependencies@, seq![], depends_on@, route@, path));
            }
            return Err(RouterError::CircularDependency);
        }
        match self.validate_dependency_cycle(&route, &depends_on) {
            Err(e) => {
                return Err(e);
            },
            Ok(()) => {},
        }
        let mut dependencies: Vec<String> = self.get_dependencies_for_route(&route);
        if !list_contains(&dependencies, depends_on.as_str()) {
            let ghost before = dependencies@;
            dependencies.push(depends_on);
            self.dependencies.insert(route, dependencies);
            proof {
                if old(self).wf() {
                    dependency_keeps_acyclic(
                        old(self).dependencies@,
                        route@,
                        depends_on,
                        self.dependencies@,
                    );
                }
            }
        }
        Ok(())
    }

    /// The direct dependencies of a route.
    ///
    /// # Errors
    /// * [`RouterError::RouteNotFound`] if there is no such route.
    pub fn get_route_dependencies(&self, route: &String) -> (r: Result<Vec<String>, RouterError>)
        ensures
            match r {
                Ok(dependencies) => self.routes@.contains_key(route@) && dependencies@
                    == self.dependencies_of(route@),
                Err(e) => !self.routes@.contains_key(route@) && e == RouterError::RouteNotFound,
            },
    {
        if !self.routes.contains(route) {
            return Err(RouterError::RouteNotFound);
        }
        Ok(self.get_dependencies_for_route(route))
    }
}

/// A route behind everything it depends on, written out anew for every route that depends
/// on it, down to `depth` steps away.
pub open spec fn unrolled(
    dependencies: Map<Seq<char>, Vec<String>>,
    name: String,
    depth: nat,
) -> Seq<String>
    decreases depth, 0nat,
{
    if depth == 0 {
        seq![name]
    } else {
        unrolled_all(
            dependencies,
            dependencies_in(dependencies, name@),
            (depth - 1) as nat,
        ).push(name)
    }
}

/// Several routes, each behind everything it depends on.
pub open spec fn unrolled_all(
    dependencies: Map<Seq<char>, Vec<String>>,
    names: Seq<String>,
    depth: nat,
) -> Seq<String>
    decreases depth, names.len(),
{
    if names.len() == 0 {
        seq![]
    } else {
        unrolled_all(dependencies, names.drop_last(), depth) + unrolled(
            dependencies,
            names.last(),
            depth,
        )
    }
}

/// Whether a list holds the dependencies of all its routes.
pub open spec fn is_closed(
    dependencies: Map<Seq<char>, Vec<String>>,
    names: Seq<String>,
) -> bool {
    forall|i: int|
        0 <= i < names.len() ==> lists_all(
            names,
            dependencies_in(dependencies, (#[trigger] names[i])@),
        )
}

/// A closed list holds all that its routes depend on.
proof fn lemma_closed_unrolled(
    dependencies: Map<Seq<char>, Vec<String>>,
    done: Seq<String>,
    name: String,
    depth: nat,
)
    requires
        is_closed(dependencies, done),
        lists(done, name@),
    ensures
        lists_all(done, unrolled(dependencies, name, depth)),
    decreases depth, 0nat,
{
    if depth > 0 {
        let next = dependencies_in(dependencies, name@);
        let i = choose|i: int| 0 <= i < done.len() && (#[trigger] done[i])@ == name@;
        assert(lists_all(done, dependencies_in(dependencies, done[i]@)));
        lemma_closed_unrolled_all(dependencies, done, next, (depth - 1) as nat);
    }
}

proof fn lemma_closed_unrolled_all(
    dependencies: Map<Seq<char>, Vec<String>>,
    done: Seq<String>,
    names: Seq<String>,
    depth: nat,
)
    requires
        is_closed(dependencies, done),
        lists_all(done, names),
    ensures
        lists_all(done, unrolled_all(dependencies, names, depth)),
    decreases depth, names.len(),
{
    if names.len() > 0 {
        let rest = names.drop_last();
        assert forall|i: int| 0 <= i < rest.len() implies lists(done, (#[trigger] rest[i])@) by {
            assert(rest[i] == names[i]);
        }
        assert(lists(done, names[names.len() - 1]@));
        lemma_closed_unrolled_all(dependencies, done, rest, depth);
        lemma_closed_unrolled(dependencies, done, names.last(), depth);
    }
}

impl RouterCore {
    /// Why a route cannot be used.
    pub open spec fn route_fault(self, name: Seq<char>) -> Option<RouterError> {
        if !self.routes@.contains_key(name) {
            Some(RouterError::RouteNotFound)
        } else if self.routes@[name].paused {
            Some(RouterError::RoutePaused)
        } else {
            None
        }
    }

    /// The fault of the first of the routes that cannot be used.
    pub open spec fn first_fault(self, names: Seq<String>) -> Option<RouterError>
        decreases names.len(),
    {
        if names.len() == 0 {
            None
        } else if self.first_fault(names.drop_last()) is Some {
            self.first_fault(names.drop_last())
        } else {
            self.route_fault(names.last()@)
        }
    }

    /// A route and everything it depends on, each written out behind its dependencies.
    pub open spec fn with_dependencies(self, name: String) -> Seq<String> {
        unrolled(self.dependencies@, name, self.dependencies@.dom().len())
    }

    /// Routes with their addresses.
    pub open spec fn addressed(self, names: Seq<String>) -> Seq<(String, Address)> {
        names.map_values(|name: String| (name, self.routes@[name@].address))
    }

    /// Whether `names` can stand as the routes resolved so far.
    pub open spec fn is_progress(
        self,
        names: Seq<String>,
        resolved: Seq<(String, Address)>,
    ) -> bool {
        &&& is_closed(self.dependencies@, names)
        &&& resolved == self.addressed(names)
        &&& forall|i: int| 0 <= i < names.len() ==> self.route_fault((#[trigger] names[i])@) is None
    }

    fn resolve_dependencies_recursive(
        &self,
        name: &String,
        active_stack: &mut Vec<String>,
        resolved_names: &mut Vec<String>,
        resolved: &mut Vec<(String, Address)>,
    ) -> (r: Result<(), RouterError>)
        requires
            is_search_stack(self.dependencies@, texts(old(active_stack)@)),
            old(active_stack)@.len() > 0 ==> lists(
                self.dependencies_of(old(active_stack)@.last()@),
                name@,
            ),
            self.is_progress(old(resolved_names)@, old(resolved)@),
            forall|i: int|
                0 <= i < old(active_stack)@.len() ==> !lists(
                    old(resolved_names)@,
                    (#[trigger] old(active_stack)@[i])@,
                ),
        ensures
            ({
                let depth = (self.dependencies@.dom().len() - old(active_stack)@.len()) as nat;
                let order = unrolled(self.dependencies@, *name, depth);
                match r {
                    Ok(()) => {
                        &&& final(active_stack)@ == old(active_stack)@
                        &&& final(resolved_names)@ == with_new(old(resolved_names)@, order)
                        &&& self.first_fault(order) is None
                        &&& self.is_progress(final(resolved_names)@, final(resolved)@)
                        &&& lists(final(resolved_names)@, name@)
                        &&& forall|i: int|
                            0 <= i < old(active_stack)@.len() ==> !lists(
                                final(resolved_names)@,
                                (#[trigger] old(active_stack)@[i])@,
                            )
                    },
                    Err(e) => self.first_fault(order) == Some(e) || (e
                        == RouterError::CircularDependency && !acyclic(self.dependencies@)),
                }
            }),
        decreases self.dependencies@.dom().len() + 1 - old(active_stack)@.len(),
    {
        let ghost known = self.dependencies@;
        let ghost below = texts(active_stack@);
        let ghost start = resolved_names@;
        proof {
            lemma_contents_finite(self.dependencies.entries@);
            lemma_stack_fits(known, below);
            lemma_texts(active_stack@, name@);
        }
        let ghost depth = (known.dom().len() - active_stack@.len()) as nat;
        let ghost order = unrolled(known, *name, depth);
        if list_contains(active_stack, name.as_str()) {
            proof {
                lemma_walk_onto_stack(known, below, name@);
            }
            return Err(RouterError::CircularDependency);
        }
        if list_contains(resolved_names, name.as_str()) {
            proof {
                lemma_closed_unrolled(known, start, *name, depth);
                lemma_nothing_new(start, order);
                self.lemma_no_fault(start, order);
            }
            return Ok(());
        }
        active_stack.push(name.clone());
        let ghost here = active_stack@;
        proof {
            assert(texts(here) =~= below.push(name@));
            lemma_search_push(known, below, name@);
        }
        let dependencies: Vec<String> = self.get_dependencies_for_route(name);
        let ghost next = (depth - 1) as nat;
        proof {
            if known.contains_key(name@) {
                lemma_stack_fits(known, texts(here));
            }
            assert(dependencies@.len() > 0 ==> known.contains_key(name@));
        }
        let mut i: usize = 0;
        while i < dependencies.len()
            invariant
                i <= dependencies@.len(),
                dependencies@ == dependencies_in(known, name@),
                known == self.dependencies@,
                active_stack@ == here,
                here == old(active_stack)@.push(*name),
                below == texts(old(active_stack)@),
                texts(here) == below.push(name@),
                known.contains_key(name@) ==> is_search_stack(known, texts(here)),
                known.contains_key(name@) ==> here.len() <= known.dom().len(),
                known.contains_key(name@) ==> next == known.dom().len() - here.len(),
                known.contains_key(name@) ==> order == unrolled_all(known, dependencies@, next).push(
                    *name,
                ),
                resolved_names@ == with_new(
                    start,
                    unrolled_all(known, dependencies@.take(i as int), next),
                ),
                self.first_fault(unrolled_all(known, dependencies@.take(i as int), next)) is None,
                self.is_progress(resolved_names@, resolved@),
                lists_all(resolved_names@, dependencies@.take(i as int)),
                forall|j: int|
                    0 <= j < here.len() ==> !lists(resolved_names@, (#[trigger] here[j])@),
                order == unrolled(known, *name, depth),
                depth == known.dom().len() - old(active_stack)@.len(),
            decreases dependencies@.len() - i,
        {
            let ghost so_far = resolved_names@;
            let ghost dependency = dependencies@[i as int];
            let ghost part = unrolled_all(known, dependencies@.take(i as int), next);
            proof {
                assert(known.contains_key(name@));
                assert(dependency@ == dependencies_in(known, name@)[i as int]@);
                assert(lists(self.dependencies_of(here.last()@), dependency@));
                assert(dependencies@.take(i + 1).drop_last() =~= dependencies@.take(i as int));
                self.lemma_first_fault_append(part, unrolled(known, dependency, next));
                lemma_with_new_twice(start, part, unrolled(known, dependency, next));
            }
            match self.resolve_dependencies_recursive(
                &dependencies[i],
                active_stack,
                resolved_names,
                resolved,
            ) {
                Err(e) => {
                    proof {
                        if self.first_fault(unrolled(known, dependency, next)) == Some(e) {
                            self.lemma_first_fault_grows(dependencies@, i + 1, next);
                            assert(order.drop_last() =~= unrolled_all(known, dependencies@, next));
                        }
                    }
                    return Err(e);
                },
                Ok(()) => {},
            }
            proof {
                assert forall|j: int| 0 <= j < dependencies@.take(i + 1).len() implies lists(
                    resolved_names@,
                    (#[trigger] dependencies@.take(i + 1)[j])@,
                ) by {
                    if j < i {
                        assert(dependencies@.take(i as int)[j] == dependencies@.take(i + 1)[j]);
                        lemma_with_new(
                            so_far,
                            unrolled(known, dependency, next),
                            dependencies@[j]@,
                        );
                    }
                }
            }
            i = i + 1;
        }
        proof {
            assert(dependencies@.take(i as int) =~= dependencies@);
            assert(here.last()@ == name@);
            assert(!lists(resolved_names@, here[here.len() - 1]@));
            if depth > 0 {
                assert(order.drop_last() =~= unrolled_all(known, dependencies@, next));
            } else {
                if known.contains_key(name@) {
                    lemma_stack_fits(known, texts(here));
                }
                assert(dependencies@.len() == 0);
                assert(order.drop_last() =~= seq![]);
                assert(resolved_names@ == start);
            }
            assert(resolved_names@ == with_new(start, order.drop_last()));
            assert(self.first_fault(order.drop_last()) is None);
        }
        let address: Address = match self.routes.get(name) {
            None => {
                return Err(RouterError::RouteNotFound);
            },
            Some(entry) => {
                if entry.paused {
                    return Err(RouterError::RoutePaused);
                }
                entry.address.clone()
            },
        };
        let ghost so_far = resolved_names@;
        resolved.push((name.clone(), address));
        resolved_names.push(name.clone());
        active_stack.pop();
        proof {
            assert(active_stack@ =~= old(active_stack)@);
            assert(resolved_names@ == so_far.push(*name));
            assert(resolved@ =~= self.addressed(resolved_names@));
            assert forall|j: int| 0 <= j < resolved_names@.len() implies lists_all(
                resolved_names@,
                dependencies_in(known, (#[trigger] resolved_names@[j])@),
            ) by {
                let needed = dependencies_in(known, resolved_names@[j]@);
                if j < so_far.len() {
                    assert(lists_all(so_far, dependencies_in(known, so_far[j]@)));
                }
                assert forall|k: int| 0 <= k < needed.len() implies lists(
                    resolved_names@,
                    (#[trigger] needed[k])@,
                ) by {
                    lemma_lists_push(so_far, *name, needed[k]@);
                }
            }
            lemma_lists_push(so_far, *name, name@);
            assert forall|j: int| 0 <= j < old(active_stack)@.len() implies !lists(
                resolved_names@,
                (#[trigger] old(active_stack)@[j])@,
            ) by {
                assert(here[j] == old(active_stack)@[j]);
                lemma_lists_push(so_far, *name, old(active_stack)@[j]@);
                assert(below[j] == old(active_stack)@[j]@);
            }
            assert forall|j: int| 0 <= j < resolved_names@.len() implies self.route_fault(
                (#[trigger] resolved_names@[j])@,
            ) is None by {
                if j < so_far.len() {
                    assert(so_far[j] == resolved_names@[j]);
                }
            }
        }
        Ok(())
    }

    /// Routes that can be used are all without a fault.
    proof fn lemma_no_fault(self, done: Seq<String>, names: Seq<String>)
        requires
            lists_all(done, names),
            forall|i: int| 0 <= i < done.len() ==> self.route_fault((#[trigger] done[i])@) is None,
        ensures
            self.first_fault(names) is None,
        decreases names.len(),
    {
        if names.len() > 0 {
            let rest = names.drop_last();
            assert forall|i: int| 0 <= i < rest.len() implies lists(done, (#[trigger] rest[i])@) by {
                assert(rest[i] == names[i]);
            }
            self.lemma_no_fault(done, rest);
            assert(lists(done, names[names.len() - 1]@));
            let i = choose|i: int| 0 <= i < done.len() && (#[trigger] done[i])@ == names.last()@;
            assert(self.route_fault(done[i]@) is None);
        }
    }

    /// The first fault of two lists is that of the first, or else that of the second.
    proof fn lemma_first_fault_append(self, a: Seq<String>, b: Seq<String>)
        ensures
            self.first_fault(a + b) == if self.first_fault(a) is Some {
                self.first_fault(a)
            } else {
                self.first_fault(b)
            },
        decreases b.len(),
    {
        if b.len() == 0 {
            assert(a + b =~= a);
        } else {
            self.lemma_first_fault_append(a, b.drop_last());
            assert((a + b).drop_last() =~= a + b.drop_last());
        }
    }

    /// A fault among the first of the routes stays the first.
    proof fn lemma_first_fault_grows(self, names: Seq<String>, k: int, depth: nat)
        requires
            0 <= k <= names.len(),
            self.first_fault(unrolled_all(self.dependencies@, names.take(k), depth)) is Some,
        ensures
            self.first_fault(unrolled_all(self.dependencies@, names, depth)) == self.first_fault(
                unrolled_all(self.dependencies@, names.take(k), depth),
            ),
        decreases names.len(),
    {
        if k == names.len() {
            assert(names.take(k) =~= names);
        } else {
            let rest = names.drop_last();
            assert(rest.take(k) =~= names.take(k));
            self.lemma_first_fault_grows(rest, k, depth);
            self.lemma_first_fault_append(
                unrolled_all(self.dependencies@, rest, depth),
                unrolled(self.dependencies@, names.last(), depth),
            );
        }
    }

    /// The addresses of a route and of everything it depends on, directly or through
    /// others: each route once, behind all that it depends on, and the dependencies of a
    /// route in the order in which they were set.
    ///
    /// # Errors
    /// * [`RouterError::RouterPaused`] if the router is paused.
    /// * [`RouterError::RouteNotFound`] if the route, or one that it depends on, is not
    ///   there.
    /// * [`RouterError::RoutePaused`] if one of these routes is paused.
    pub fn resolve_with_dependencies(&self, name: &String) -> (r: Result<
        Vec<(String, Address)>,
        RouterError,
    >)
        ensures
            self.paused ==> r == Err::<Vec<(String, Address)>, _>(RouterError::RouterPaused),
            !self.paused && !self.routes@.contains_key(name@) ==> r == Err::<
                Vec<(String, Address)>,
                _,
            >(RouterError::RouteNotFound),
            self.wf() && !self.paused && self.routes@.contains_key(name@) ==> match r {
                Ok(resolved) => self.first_fault(self.with_dependencies(*name)) is None
                    && resolved@ == self.addressed(with_new(seq![], self.with_dependencies(*name))),
                Err(e) => self.first_fault(self.with_dependencies(*name)) == Some(e),
            },
    {
        if self.paused {
            return Err(RouterError::RouterPaused);
        }
        if !self.routes.contains(name) {
            return Err(RouterError::RouteNotFound);
        }
        let mut resolved: Vec<(String, Address)> = Vec::new();
        let mut resolved_names: Vec<String> = Vec::new();
        let mut active_stack: Vec<String> = Vec::new();
        proof {
            let nothing: Seq<Seq<char>> = seq![];
            assert(texts(active_stack@) =~= nothing);
            assert(resolved@ =~= self.addressed(resolved_names@));
            let no_names: Seq<String> = seq![];
            assert(resolved_names@ =~= no_names);
        }
        match self.resolve_dependencies_recursive(
            name,
            &mut active_stack,
            &mut resolved_names,
            &mut resolved,
        ) {
            Ok(()) => Ok(resolved),
            Err(e) => Err(e),
        }
    }
}

/// A walk that comes back to the stack goes round in a circle.
proof fn lemma_walk_onto_stack(
    dependencies: Map<Seq<char>, Vec<String>>,
    stack: Seq<Seq<char>>,
    route: Seq<char>,
)
    requires
        is_search_stack(dependencies, stack),
        stack.contains(route),
        lists(dependencies_in(dependencies, stack.last()), route),
    ensures
        !acyclic(dependencies),
{
    let path = stack.push(route);
    assert forall|i: int| 0 <= i < path.len() - 1 implies lists(
        dependencies_in(dependencies, #[trigger] path[i]),
        path[i + 1],
    ) by {
        if i < stack.len() - 1 {
            assert(path[i] == stack[i] && path[i + 1] == stack[i + 1]);
        } else {
            assert(path[i] == stack.last());
        }
    }
    assert(is_walk(dependencies, path));
    let i = choose|i: int| 0 <= i < stack.len() && stack[i] == route;
    assert(path[i] == path[path.len() - 1]);
    assert(!path.no_duplicates());
}

/// Without dependencies there is no circle.
pub proof fn lemma_nothing_acyclic()
    ensures
        acyclic(Map::<Seq<char>, Vec<String>>::empty()),
{
    let nothing = Map::<Seq<char>, Vec<String>>::empty();
    assert forall|path: Seq<Seq<char>>| #[trigger] is_walk(nothing, path) implies path.no_duplicates() by {
        if path.len() > 1 {
            assert(lists(dependencies_in(nothing, path[0]), path[1]));
        }
    }
}

/// Taking away the dependencies of a route closes no circle.
pub proof fn lemma_fewer_acyclic(dependencies: Map<Seq<char>, Vec<String>>, route: Seq<char>)
    requires
        acyclic(dependencies),
    ensures
        acyclic(dependencies.remove(route)),
{
    let fewer = dependencies.remove(route);
    assert forall|path: Seq<Seq<char>>| #[trigger] is_walk(fewer, path) implies path.no_duplicates() by {
        assert forall|i: int| 0 <= i < path.len() - 1 implies lists(
            dependencies_in(dependencies, #[trigger] path[i]),
            path[i + 1],
        ) by {
            assert(lists(dependencies_in(fewer, path[i]), path[i + 1]));
        }
        assert(is_walk(dependencies, path));
    }
}

/// A walk over the old and one new dependency starts with a walk over the old ones that
/// goes all the way, or to where the new one starts.
proof fn lemma_walk_until(
    before: Map<Seq<char>, Vec<String>>,
    after: Map<Seq<char>, Vec<String>>,
    route: Seq<char>,
    added: Seq<char>,
    path: Seq<Seq<char>>,
)
    requires
        is_walk(after, path),
        forall|from: Seq<char>, to: Seq<char>| #[trigger]
            lists(dependencies_in(after, from), to) ==> lists(dependencies_in(before, from), to)
                || (from == route && to == added),
    ensures
        is_walk(before, path) || exists|start: Seq<Seq<char>>| #[trigger]
            is_walk(before, start) && start.first() == path.first() && start.last() == route,
    decreases path.len(),
{
    if path.len() == 1 {
        assert(is_walk(before, path));
    } else {
        assert(lists(dependencies_in(after, path[0]), path[1]));
        if path[0] == route {
            let start = seq![route];
            assert(is_walk(before, start));
        } else {
            let rest = path.subrange(1, path.len() as int);
            lemma_walk_part(after, path, 1, path.len() as int);
            lemma_walk_until(before, after, route, added, rest);
            if is_walk(before, rest) {
                lemma_walk_before(before, path[0], rest);
                assert(seq![path[0]] + rest =~= path);
            } else {
                let start = choose|start: Seq<Seq<char>>| #[trigger]
                    is_walk(before, start) && start.first() == rest.first() && start.last()
                        == route;
                lemma_walk_before(before, path[0], start);
                assert(is_walk(before, seq![path[0]] + start));
            }
        }
    }
}

/// A walk over the old and one new dependency ends with a walk over the old ones that
/// comes all the way, or from where the new one ends.
proof fn lemma_walk_since(
    before: Map<Seq<char>, Vec<String>>,
    after: Map<Seq<char>, Vec<String>>,
    route: Seq<char>,
    added: Seq<char>,
    path: Seq<Seq<char>>,
)
    requires
        is_walk(after, path),
        forall|from: Seq<char>, to: Seq<char>| #[trigger]
            lists(dependencies_in(after, from), to) ==> lists(dependencies_in(before, from), to)
                || (from == route && to == added),
    ensures
        is_walk(before, path) || exists|end: Seq<Seq<char>>| #[trigger]
            is_walk(before, end) && end.first() == added && end.last() == path.last(),
    decreases path.len(),
{
    if path.len() == 1 {
        assert(is_walk(before, path));
    } else {
        let rest = path.subrange(1, path.len() as int);
        lemma_walk_part(after, path, 1, path.len() as int);
        lemma_walk_since(before, after, route, added, rest);
        if is_walk(before, rest) {
            assert(lists(dependencies_in(after, path[0]), path[1]));
            if lists(dependencies_in(before, path[0]), path[1]) {
                lemma_walk_before(before, path[0], rest);
                assert(seq![path[0]] + rest =~= path);
            }
        }
    }
}

/// A dependency that closes no circle can be added: nothing then depends on itself that
/// did not before.
pub proof fn dependency_keeps_acyclic(
    before: Map<Seq<char>, Vec<String>>,
    route: Seq<char>,
    depends_on: String,
    after: Map<Seq<char>, Vec<String>>,
)
    requires
        acyclic(before),
        !closes_circle(before, route, depends_on@),
        after == before.insert(route, after[route]),
        after[route]@ == dependencies_in(before, route).push(depends_on),
    ensures
        acyclic(after),
{
    let added = depends_on@;
    assert forall|from: Seq<char>, to: Seq<char>| #[trigger]
        lists(dependencies_in(after, from), to) implies lists(dependencies_in(before, from), to)
        || (from == route && to == added) by {
        if from == route {
            lemma_lists_push(dependencies_in(before, route), depends_on, to);
        }
    }
    assert forall|path: Seq<Seq<char>>| #[trigger] is_walk(after, path) implies path.no_duplicates() by {
        if !path.no_duplicates() {
            let (i, j) = choose|i: int, j: int|
                0 <= i < path.len() && 0 <= j < path.len() && i != j && path[i] == path[j];
            let (a, b) = if i < j {
                (i, j)
            } else {
                (j, i)
            };
            let circle = path.subrange(a, b + 1);
            lemma_walk_part(after, path, a, b + 1);
            lemma_walk_until(before, after, route, added, circle);
            lemma_walk_since(before, after, route, added, circle);
            if is_walk(before, circle) {
                assert(circle[0] == circle[b - a]);
                assert(!circle.no_duplicates());
            } else {
                let start = choose|start: Seq<Seq<char>>| #[trigger]
                    is_walk(before, start) && start.first() == circle.first() && start.last()
                        == route;
                let end = choose|end: Seq<Seq<char>>| #[trigger]
                    is_walk(before, end) && end.first() == added && end.last() == circle.last();
                lemma_walk_join(before, end, start);
                let closing = end + start.drop_first();
                assert(is_obstacle(before, seq![], added, route, closing));
            }
        }
    }
}

/// Where no route depends on itself yet, exactly those dependencies close a circle
/// whose target already needs the route.
pub proof fn circle_needs_the_route(
    dependencies: Map<Seq<char>, Vec<String>>,
    route: Seq<char>,
    depends_on: Seq<char>,
)
    requires
        acyclic(dependencies),
    ensures
        closes_circle(dependencies, route, depends_on) == reaches(dependencies, depends_on, route),
{
    if closes_circle(dependencies, route, depends_on) {
        let path = choose|path: Seq<Seq<char>>| #[trigger]
            is_obstacle(dependencies, seq![], depends_on, route, path);
        assert(is_walk(dependencies, path));
    }
    if reaches(dependencies, depends_on, route) {
        let path = choose|path: Seq<Seq<char>>| #[trigger]
            is_walk(dependencies, path) && path.first() == depends_on && path.last() == route;
        assert(is_obstacle(dependencies, seq![], depends_on, route, path));
    }
}

} // verus!
