//! Route metadata and tags.

use super::contract::{valid_metadata, validate_metadata, MAX_DESCRIPTION_LEN, MAX_TAGS};
use super::types::{MetadataView, RouteMetadata, RouterCore, RouterError, RouterEvent};
use crate::common::Address;
use crate::text::{
    lemma_lists_push, lemma_others, lemma_with_new, lemma_with_new_distinct, list_contains, lists,
    others, with_new, without_text,
};
use vstd::prelude::*;

verus! {

impl RouterCore {
    /// The tags of a route; none where it has no metadata.
    pub open spec fn tags_of(self, name: Seq<char>) -> Seq<String> {
        if self.metadata@.contains_key(name) {
            self.metadata@[name].tags@
        } else {
            seq![]
        }
    }

    /// The tags of all of `names`, each once, in the order of their first use.
    pub open spec fn tags_of_all(self, names: Seq<String>) -> Seq<String>
        decreases names.len(),
    {
        if names.len() == 0 {
            seq![]
        } else {
            with_new(self.tags_of_all(names.drop_last()), self.tags_of(names.last()@))
        }
    }

    /// Those of `names` that carry a tag.
    pub open spec fn tagged(self, names: Seq<String>, tag: Seq<char>) -> Seq<String>
        decreases names.len(),
    {
        if names.len() == 0 {
            seq![]
        } else if lists(self.tags_of(names.last()@), tag) {
            self.tagged(names.drop_last(), tag).push(names.last())
        } else {
            self.tagged(names.drop_last(), tag)
        }
    }

    /// The metadata of a route, or those that a first tag brings with it.
    pub open spec fn metadata_or_new(self, name: Seq<char>, caller: Address) -> MetadataView {
        if self.metadata@.contains_key(name) {
            self.metadata@[name]@
        } else {
            MetadataView { description: ""@, tags: seq![], owner: caller@ }
        }
    }

    /// Why a route cannot be given one more tag.
    pub open spec fn tag_fault(self, name: Seq<char>, caller: Address, tag: Seq<char>) -> Option<
        RouterError,
    > {
        let metadata = self.metadata_or_new(name, caller);
        if !self.routes@.contains_key(name) {
            Some(RouterError::RouteNotFound)
        } else if !lists(metadata.tags, tag) && (metadata.description.len()
            > MAX_DESCRIPTION_LEN || metadata.tags.len() + 1 > MAX_TAGS) {
            Some(RouterError::InvalidMetadata)
        } else {
            None
        }
    }

    /// Sets or, with `None`, deletes the metadata of a route.
    ///
    /// # Errors
    /// * [`RouterError::NotInitialized`] if there is no admin.
    /// * [`RouterError::Unauthorized`] if the caller is not the admin.
    /// * [`RouterError::RouteNotFound`] if there is no such route.
    /// * [`RouterError::InvalidMetadata`] if the metadata are beyond their limits.
    pub fn update_metadata(
        &mut self,
        caller: &Address,
        name: String,
        metadata: Option<RouteMetadata>,
    ) -> (r: Result<(), RouterError>)
        ensures
            r == (match old(self).admin_fault(*caller) {
                Some(e) => Err(e),
                None => if !old(self).routes@.contains_key(name@) {
                    Err(RouterError::RouteNotFound)
                } else if metadata matches Some(m) && !valid_metadata(m) {
                    Err(RouterError::InvalidMetadata)
                } else {
                    Ok(())
                },
            }),
            r is Err ==> *final(self) == *old(self),
            r is Ok ==> {
                &&& *final(self) == (RouterCore {
                    metadata: final(self).metadata,
                    events: final(self).events,
                    ..*old(self)
                })
                &&& final(self).metadata@ == match metadata {
                    Some(m) => old(self).metadata@.insert(name@, m),
                    None => old(self).metadata@.remove(name@),
                }
                &&& final(self).events@ == old(self).events@.push(
                    RouterEvent::MetadataUpdated { name, present: metadata is Some },
                )
            },
            old(self).wf() ==> final(self).wf(),
    {
        match self.require_admin(caller) {
            Err(e) => {
                return Err(e);
            },
            Ok(()) => {},
        }
        if !self.routes.contains(&name) {
            return Err(RouterError::RouteNotFound);
        }
        let present: bool = metadata.is_some();
        match metadata {
            Some(m) => {
                match validate_metadata(&m) {
                    Err(e) => {
                        return Err(e);
                    },
                    Ok(()) => {},
                }
                self.metadata.insert(name.clone(), m);
            },
            None => self.metadata.remove(&name),
        }
        self.events.push(RouterEvent::MetadataUpdated { name, present });
        proof {
            if old(self).wf() {
                lemma_metadata_wf(*old(self), name@, *self);
            }
        }
        Ok(())
    }

    /// The metadata of a route, or `None` if it has none.
    pub fn get_metadata(&self, name: &String) -> (r: Option<RouteMetadata>)
        ensures
            match r {
                Some(m) => self.metadata@.contains_key(name@) && m@ == self.metadata@[name@]@,
                None => !self.metadata@.contains_key(name@),
            },
    {
        match self.metadata.get(name) {
            Some(m) => Some(m.clone()),
            None => None,
        }
    }

    /// The names of the routes that carry `tag`, in the order of registration.
    pub fn get_routes_by_tag(&self, tag: &String) -> (r: Vec<String>)
        ensures
            r@ == self.tagged(self.route_names@, tag@),
    {
        let mut routes: Vec<String> = Vec::new();
        let mut i: usize = 0;
        while i < self.route_names.len()
            invariant
                i <= self.route_names@.len(),
                routes@ == self.tagged(self.route_names@.take(i as int), tag@),
            decreases self.route_names@.len() - i,
        {
            proof {
                assert(self.route_names@.take(i + 1).drop_last() =~= self.route_names@.take(
                    i as int,
                ));
            }
            let found: bool = match self.metadata.get(&self.route_names[i]) {
                Some(m) => list_contains(&m.tags, tag.as_str()),
                None => false,
            };
            if found {
                routes.push(self.route_names[i].clone());
            }
            i = i + 1;
        }
        proof {
            assert(self.route_names@.take(i as int) =~= self.route_names@);
        }
        routes
    }

    /// Adds a tag to a route. A tag that is already there is not added again. A route
    /// without metadata gets some, with an empty description and the caller as owner.
    ///
    /// # Errors
    /// * [`RouterError::NotInitialized`] if there is no admin.
    /// * [`RouterError::Unauthorized`] if the caller is not the admin.
    /// * [`RouterError::RouteNotFound`] if there is no such route.
    /// * [`RouterError::InvalidMetadata`] if the route has as many tags as it may have.
    pub fn add_route_tag(&mut self, caller: &Address, name: String, tag: String) -> (r: Result<
        (),
        RouterError,
    >)
        ensures
            r == (match old(self).admin_fault(*caller) {
                Some(e) => Err(e),
                None => match old(self).tag_fault(name@, *caller, tag@) {
                    Some(e) => Err(e),
                    None => Ok(()),
                },
            }),
            r is Err || lists(old(self).tags_of(name@), tag@) ==> *final(self) == *old(self),
            r is Ok && !lists(old(self).tags_of(name@), tag@) ==> {
                let metadata = old(self).metadata_or_new(name@, *caller);
                &&& *final(self) == (RouterCore {
                    metadata: final(self).metadata,
                    events: final(self).events,
                    ..*old(self)
                })
                &&& final(self).metadata@ == old(self).metadata@.insert(
                    name@,
                    final(self).metadata@[name@],
                )
                &&& final(self).metadata@[name@]@ == (MetadataView {
                    tags: metadata.tags.push(tag),
                    ..metadata
                })
                &&& final(self).events@ == old(self).events@.push(
                    RouterEvent::RouteTagAdded { name, tag },
                )
            },
            old(self).wf() ==> final(self).wf(),
    {
        match self.require_admin(caller) {
            Err(e) => {
                return Err(e);
            },
            Ok(()) => {},
        }
        if !self.routes.contains(&name) {
            return Err(RouterError::RouteNotFound);
        }
        let mut metadata: RouteMetadata = match self.metadata.get(&name) {
            Some(m) => m.clone(),
            None => RouteMetadata {
                description: "".to_owned(),
                tags: Vec::new(),
                owner: caller.clone(),
            },
        };
        let ghost found = old(self).metadata_or_new(name@, *caller);
        proof {
            assert(metadata@.tags =~= found.tags);
        }
        if !list_contains(&metadata.tags, tag.as_str()) {
            metadata.tags.push(tag.clone());
            match validate_metadata(&metadata) {
                Err(e) => {
                    return Err(e);
                },
                Ok(()) => {},
            }
            self.metadata.insert(name.clone(), metadata);
            self.events.push(RouterEvent::RouteTagAdded { name, tag });
            proof {
                if old(self).wf() {
                    lemma_metadata_wf(*old(self), name@, *self);
                }
            }
        }
        Ok(())
    }

    /// Takes a tag off a route. A tag that is not there is no error.
    ///
    /// # Errors
    /// * [`RouterError::NotInitialized`] if there is no admin.
    /// * [`RouterError::Unauthorized`] if the caller is not the admin.
    /// * [`RouterError::RouteNotFound`] if there is no such route.
    pub fn remove_route_tag(&mut self, caller: &Address, name: String, tag: String) -> (r: Result<
        (),
        RouterError,
    >)
        ensures
            r == (match old(self).admin_fault(*caller) {
                Some(e) => Err(e),
                None => if !old(self).routes@.contains_key(name@) {
                    Err(RouterError::RouteNotFound)
                } else {
                    Ok(())
                },
            }),
            r is Err || !lists(old(self).tags_of(name@), tag@) ==> *final(self) == *old(self),
            r is Ok && lists(old(self).tags_of(name@), tag@) ==> {
                let metadata = old(self).metadata@[name@]@;
                &&& *final(self) == (RouterCore {
                    metadata: final(self).metadata,
                    events: final(self).events,
                    ..*old(self)
                })
                &&& final(self).metadata@ == old(self).metadata@.insert(
                    name@,
                    final(self).metadata@[name@],
                )
                &&& final(self).metadata@[name@]@ == (MetadataView {
                    tags: others(metadata.tags, tag@),
                    ..metadata
                })
                &&& final(self).events@ == old(self).events@.push(
                    RouterEvent::RouteTagRemoved { name, tag },
                )
            },
            old(self).wf() ==> final(self).wf(),
    {
        match self.require_admin(caller) {
            Err(e) => {
                return Err(e);
            },
            Ok(()) => {},
        }
        if !self.routes.contains(&name) {
            return Err(RouterError::RouteNotFound);
        }
        let mut metadata: RouteMetadata = match self.metadata.get(&name) {
            Some(m) => m.clone(),
            None => {
                return Ok(());
            },
        };
        if list_contains(&metadata.tags, tag.as_str()) {
            metadata.tags = without_text(&metadata.tags, tag.as_str());
            self.metadata.insert(name.clone(), metadata);
            self.events.push(RouterEvent::RouteTagRemoved { name, tag });
            proof {
                if old(self).wf() {
                    lemma_others(old(self).metadata@[name@].tags@, tag@);
                    lemma_metadata_wf(*old(self), name@, *self);
                }
            }
        }
        Ok(())
    }

    /// Every tag in use, once, in the order of first use.
    pub fn get_all_tags(&self) -> (r: Vec<String>)
        ensures
            r@ == self.tags_of_all(self.route_names@),
    {
        let mut tags: Vec<String> = Vec::new();
        let mut i: usize = 0;
        while i < self.route_names.len()
            invariant
                i <= self.route_names@.len(),
                tags@ == self.tags_of_all(self.route_names@.take(i as int)),
            decreases self.route_names@.len() - i,
        {
            let ghost so_far = tags@;
            proof {
                assert(self.route_names@.take(i + 1).drop_last() =~= self.route_names@.take(
                    i as int,
                ));
            }
            match self.metadata.get(&self.route_names[i]) {
                Some(m) => {
                    let mut j: usize = 0;
                    while j < m.tags.len()
                        invariant
                            j <= m.tags@.len(),
                            tags@ == with_new(so_far, m.tags@.take(j as int)),
                        decreases m.tags@.len() - j,
                    {
                        proof {
                            assert(m.tags@.take(j + 1).drop_last() =~= m.tags@.take(j as int));
                        }
                        if !list_contains(&tags, m.tags[j].as_str()) {
                            tags.push(m.tags[j].clone());
                        }
                        j = j + 1;
                    }
                    proof {
                        assert(m.tags@.take(j as int) =~= m.tags@);
                    }
                },
                None => {},
            }
            i = i + 1;
        }
        proof {
            assert(self.route_names@.take(i as int) =~= self.route_names@);
        }
        tags
    }
}

/// Changing the metadata of one route to valid ones, or deleting them, keeps what holds
/// of the router.
proof fn lemma_metadata_wf(before: RouterCore, name: Seq<char>, after: RouterCore)
    requires
        before.wf(),
        before.routes@.contains_key(name),
        after == (RouterCore { metadata: after.metadata, events: after.events, ..before }),
        forall|n: Seq<char>|
            n != name ==> (#[trigger] after.metadata@.contains_key(n) ==> before.metadata@.contains_key(
                n,
            ) && after.metadata@[n] == before.metadata@[n]),
        after.metadata@.contains_key(name) ==> valid_metadata(after.metadata@[name]),
    ensures
        after.wf(),
{
    assert forall|n: Seq<char>| #[trigger] after.metadata@.contains_key(
        n,
    ) implies after.routes@.contains_key(n) && valid_metadata(after.metadata@[n]) by {
        if n != name {
            assert(before.metadata@.contains_key(n));
        }
    }
}

/// A tag that was added is there, and the route is found by it.
pub proof fn added_tag_is_found(core: RouterCore, names: Seq<String>, i: int, tag: Seq<char>)
    requires
        0 <= i < names.len(),
        lists(core.tags_of(names[i]@), tag),
    ensures
        lists(core.tagged(names, tag), names[i]@),
        lists(core.tags_of_all(names), tag),
    decreases names.len(),
{
    let rest = names.drop_last();
    lemma_with_new(core.tags_of_all(rest), core.tags_of(names.last()@), tag);
    lemma_lists_push(core.tagged(rest, tag), names.last(), names[i]@);
    if i < rest.len() {
        assert(rest[i] == names[i]);
        added_tag_is_found(core, rest, i, tag);
    }
}

/// No tag is reported twice.
pub proof fn all_tags_are_distinct(core: RouterCore, names: Seq<String>)
    ensures
        forall|i: int, j: int|
            0 <= i < j < core.tags_of_all(names).len() ==> (#[trigger] core.tags_of_all(
                names,
            )[i])@ != (#[trigger] core.tags_of_all(names)[j])@,
    decreases names.len(),
{
    if names.len() > 0 {
        all_tags_are_distinct(core, names.drop_last());
        lemma_with_new_distinct(core.tags_of_all(names.drop_last()), core.tags_of(names.last()@));
    }
}

} // verus!
