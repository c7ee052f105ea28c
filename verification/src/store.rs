//! An insertion-ordered keyed store, the shape that contract storage takes in
//! this library.

use vstd::prelude::*;

verus! {

/// A key of a [`KeyedStore`]: what two keys are compared by is `id`.
pub trait StoreKey: Sized {
    type Id;

    spec fn id(&self) -> Self::Id;

    fn same(&self, other: &Self) -> (r: bool)
        ensures
            r == (self.id() == other.id()),
    ;
}

impl StoreKey for String {
    type Id = Seq<char>;

    open spec fn id(&self) -> Seq<char> {
        self@
    }

    fn same(&self, other: &Self) -> (r: bool) {
        self.eq(other)
    }
}

impl StoreKey for (u64, u32) {
    type Id = (u64, u32);

    open spec fn id(&self) -> (u64, u32) {
        *self
    }

    fn same(&self, other: &Self) -> (r: bool) {
        self.0 == other.0 && self.1 == other.1
    }
}

impl StoreKey for (String, u32) {
    type Id = (Seq<char>, u32);

    open spec fn id(&self) -> (Seq<char>, u32) {
        (self.0@, self.1)
    }

    fn same(&self, other: &Self) -> (r: bool) {
        self.0.eq(&other.0) && self.1 == other.1
    }
}

impl StoreKey for (String, String) {
    type Id = (Seq<char>, Seq<char>);

    open spec fn id(&self) -> (Seq<char>, Seq<char>) {
        (self.0@, self.1@)
    }

    fn same(&self, other: &Self) -> (r: bool) {
        self.0.eq(&other.0) && self.1.eq(&other.1)
    }
}

/// The value of the first entry whose key is `id`.
pub open spec fn first_value<K: StoreKey, V>(entries: Seq<(K, V)>, id: K::Id) -> Option<V>
    decreases entries.len(),
{
    if entries.len() == 0 {
        None
    } else if entries[0].0.id() == id {
        Some(entries[0].1)
    } else {
        first_value(entries.drop_first(), id)
    }
}

/// What a list of entries holds under each key.
pub open spec fn contents<K: StoreKey, V>(entries: Seq<(K, V)>) -> Map<K::Id, V> {
    Map::new(
        |id: K::Id| first_value(entries, id) is Some,
        |id: K::Id| first_value(entries, id)->0,
    )
}

/// The keys other than `id`, in order.
pub open spec fn other_ids<I>(ids: Seq<I>, id: I) -> Seq<I>
    decreases ids.len(),
{
    if ids.len() == 0 {
        seq![]
    } else if ids.last() == id {
        other_ids(ids.drop_last(), id)
    } else {
        other_ids(ids.drop_last(), id).push(ids.last())
    }
}

/// Taking out one occurrence of a key leaves the other keys as they were.
proof fn lemma_other_ids_take_out<I>(ids: Seq<I>, i: int)
    requires
        0 <= i < ids.len(),
    ensures
        other_ids(ids.remove(i), ids[i]) == other_ids(ids, ids[i]),
    decreases ids.len(),
{
    let rest = ids.drop_last();
    if i == ids.len() - 1 {
        assert(ids.remove(i) =~= rest);
    } else {
        assert(ids.remove(i).drop_last() =~= rest.remove(i));
        assert(ids.remove(i).last() == ids.last());
        lemma_other_ids_take_out(rest, i);
    }
}

/// Keys among which `id` does not occur are all other keys.
proof fn lemma_other_ids_absent<I>(ids: Seq<I>, id: I)
    requires
        !ids.contains(id),
    ensures
        other_ids(ids, id) == ids,
    decreases ids.len(),
{
    if ids.len() > 0 {
        let rest = ids.drop_last();
        assert(ids[ids.len() - 1] != id);
        assert forall|j: int| 0 <= j < rest.len() implies rest[j] != id by {
            assert(ids[j] != id);
        }
        lemma_other_ids_absent(rest, id);
        assert(rest.push(ids.last()) =~= ids);
    }
}

/// Of different keys the others differ too.
proof fn lemma_other_ids_differ<I>(ids: Seq<I>, id: I)
    requires
        ids.no_duplicates(),
    ensures
        other_ids(ids, id).no_duplicates(),
        forall|other: I| #[trigger] other_ids(ids, id).contains(other) ==> ids.contains(other),
    decreases ids.len(),
{
    if ids.len() > 0 {
        let rest = ids.drop_last();
        let kept = other_ids(rest, id);
        let all = other_ids(ids, id);
        lemma_other_ids_differ(rest, id);
        assert forall|other: I| #[trigger] all.contains(other) implies ids.contains(other) by {
            let i = choose|i: int| 0 <= i < all.len() && all[i] == other;
            if i < kept.len() {
                assert(kept[i] == other);
                assert(kept.contains(other));
                assert(rest.contains(other));
                let j = choose|j: int| 0 <= j < rest.len() && rest[j] == other;
                assert(ids[j] == other);
            } else {
                assert(ids[ids.len() - 1] == other);
            }
        }
        assert(!kept.contains(ids.last())) by {
            if kept.contains(ids.last()) {
                assert(rest.contains(ids.last()));
                let j = choose|j: int| 0 <= j < rest.len() && rest[j] == ids.last();
                assert(ids[j] == ids[ids.len() - 1]);
            }
        }
        assert forall|i: int, j: int| 0 <= i < all.len() && 0 <= j < all.len() && i
            != j implies all[i] != all[j] by {
            assert(i < kept.len() ==> kept[i] == all[i]);
            assert(j < kept.len() ==> kept[j] == all[j]);
            assert(i < kept.len() ==> kept.contains(all[i]));
            assert(j < kept.len() ==> kept.contains(all[j]));
        }
    }
}

/// Entries in the order in which their keys were first written, each key once.
pub struct KeyedStore<K: StoreKey, V> {
    pub entries: Vec<(K, V)>,
}

impl<K: StoreKey, V> View for KeyedStore<K, V> {
    type V = Map<K::Id, V>;

    open spec fn view(&self) -> Map<K::Id, V> {
        contents(self.entries@)
    }
}

/// The first entry of a key decides its value, wherever it stands.
proof fn lemma_first_value_at<K: StoreKey, V>(entries: Seq<(K, V)>, i: int)
    requires
        0 <= i < entries.len(),
        forall|j: int| 0 <= j < i ==> (#[trigger] entries[j]).0.id() != entries[i].0.id(),
    ensures
        first_value(entries, entries[i].0.id()) == Some(entries[i].1),
    decreases i,
{
    if i > 0 {
        let rest = entries.drop_first();
        assert(entries[0].0.id() != entries[i].0.id());
        assert forall|j: int| 0 <= j < i - 1 implies (#[trigger] rest[j]).0.id() != rest[i
            - 1].0.id() by {
            assert(rest[j] == entries[j + 1]);
        }
        lemma_first_value_at(rest, i - 1);
    }
}

/// A key that no entry holds has no value.
proof fn lemma_first_value_absent<K: StoreKey, V>(entries: Seq<(K, V)>, id: K::Id)
    requires
        forall|j: int| 0 <= j < entries.len() ==> (#[trigger] entries[j]).0.id() != id,
    ensures
        first_value(entries, id) is None,
    decreases entries.len(),
{
    if entries.len() > 0 {
        let rest = entries.drop_first();
        assert(entries[0].0.id() != id);
        assert forall|j: int| 0 <= j < rest.len() implies (#[trigger] rest[j]).0.id() != id by {
            assert(rest[j] == entries[j + 1]);
        }
        lemma_first_value_absent(rest, id);
    }
}

/// Writing a value at the first entry of a key changes that key alone.
proof fn lemma_first_value_update<K: StoreKey, V>(
    entries: Seq<(K, V)>,
    updated: Seq<(K, V)>,
    i: int,
    id: K::Id,
)
    requires
        0 <= i < entries.len(),
        updated.len() == entries.len(),
        forall|j: int| 0 <= j < entries.len() && j != i ==> #[trigger] updated[j] == entries[j],
        updated[i].0.id() == entries[i].0.id(),
        id != entries[i].0.id(),
    ensures
        first_value(updated, id) == first_value(entries, id),
    decreases entries.len(),
{
    let rest = entries.drop_first();
    let updated_rest = updated.drop_first();
    if i == 0 {
        assert(rest =~= updated_rest) by {
            assert forall|j: int| 0 <= j < rest.len() implies rest[j] == updated_rest[j] by {
                assert(updated[j + 1] == entries[j + 1]);
            }
        }
    } else {
        assert(updated[0] == entries[0]);
        assert forall|j: int| 0 <= j < rest.len() && j != i - 1 implies #[trigger] updated_rest[j]
            == rest[j] by {
            assert(updated[j + 1] == entries[j + 1]);
        }
        lemma_first_value_update(rest, updated_rest, i - 1, id);
    }
}

/// Writing at the first entry of a key is an insertion.
proof fn lemma_contents_update<K: StoreKey, V>(entries: Seq<(K, V)>, i: int, entry: (K, V))
    requires
        0 <= i < entries.len(),
        entry.0.id() == entries[i].0.id(),
        forall|j: int| 0 <= j < i ==> (#[trigger] entries[j]).0.id() != entries[i].0.id(),
    ensures
        contents(entries.update(i, entry)) == contents(entries).insert(entry.0.id(), entry.1),
{
    let after = entries.update(i, entry);
    lemma_first_value_at(after, i);
    assert forall|other: K::Id| other != entry.0.id() implies first_value(after, other)
        == first_value(entries, other) by {
        lemma_first_value_update(entries, after, i, other);
    }
    assert(contents(after) =~= contents(entries).insert(entry.0.id(), entry.1));
}

/// Appending an entry gives its key a value if the key had none, and leaves
/// every other key as it was.
proof fn lemma_first_value_push<K: StoreKey, V>(entries: Seq<(K, V)>, entry: (K, V), id: K::Id)
    ensures
        first_value(entries.push(entry), id) == (match first_value(entries, id) {
            Some(v) => Some(v),
            None => if entry.0.id() == id { Some(entry.1) } else { None },
        }),
    decreases entries.len(),
{
    let pushed = entries.push(entry);
    if entries.len() == 0 {
        assert(pushed.drop_first() =~= Seq::empty());
        assert(first_value(pushed.drop_first(), id) is None);
    } else {
        assert(pushed.drop_first() =~= entries.drop_first().push(entry));
        lemma_first_value_push(entries.drop_first(), entry, id);
    }
}

/// Taking out one entry leaves every other key as it was.
proof fn lemma_first_value_take_out<K: StoreKey, V>(entries: Seq<(K, V)>, i: int, id: K::Id)
    requires
        0 <= i < entries.len(),
        id != entries[i].0.id(),
    ensures
        first_value(entries.remove(i), id) == first_value(entries, id),
    decreases entries.len(),
{
    let rest = entries.drop_first();
    if i == 0 {
        assert(entries.remove(0) =~= rest);
    } else {
        assert(entries.remove(i).drop_first() =~= rest.remove(i - 1));
        lemma_first_value_take_out(rest, i - 1, id);
    }
}

/// A key that has a value is that of some entry.
pub proof fn lemma_first_value_witness<K: StoreKey, V>(entries: Seq<(K, V)>, id: K::Id)
    requires
        first_value(entries, id) is Some,
    ensures
        exists|i: int| 0 <= i < entries.len() && (#[trigger] entries[i]).0.id() == id,
    decreases entries.len(),
{
    if entries[0].0.id() != id {
        let rest = entries.drop_first();
        lemma_first_value_witness(rest, id);
        let i = choose|i: int| 0 <= i < rest.len() && (#[trigger] rest[i]).0.id() == id;
        assert(entries[i + 1].0.id() == id);
    }
}

/// The keys that are listed are those that have a value.
pub proof fn listed_keys_have_values<K: StoreKey, V>(store: KeyedStore<K, V>, id: K::Id)
    ensures
        store.key_seq().contains(id) == store@.contains_key(id),
{
    let ids = store.key_seq();
    if store@.contains_key(id) {
        lemma_first_value_witness(store.entries@, id);
        let i = choose|i: int|
            0 <= i < store.entries@.len() && (#[trigger] store.entries@[i]).0.id() == id;
        assert(ids[i] == id);
    } else {
        assert forall|i: int| 0 <= i < ids.len() implies ids[i] != id by {
            if ids[i] == id {
                lemma_first_value_present(store.entries@, i);
            }
        }
    }
}

/// The key of an entry has a value.
proof fn lemma_first_value_present<K: StoreKey, V>(entries: Seq<(K, V)>, i: int)
    requires
        0 <= i < entries.len(),
    ensures
        first_value(entries, entries[i].0.id()) is Some,
    decreases entries.len(),
{
    if entries[0].0.id() != entries[i].0.id() {
        assert(entries.drop_first()[i - 1] == entries[i]);
        lemma_first_value_present(entries.drop_first(), i - 1);
    }
}

/// Only finitely many keys have a value.
pub proof fn lemma_contents_finite<K: StoreKey, V>(entries: Seq<(K, V)>)
    ensures
        contents(entries).dom().finite(),
{
    let ids = entries.map_values(|entry: (K, V)| entry.0.id());
    assert forall|id: K::Id| #[trigger] contents(entries).dom().contains(
        id,
    ) implies ids.to_set().contains(id) by {
        lemma_first_value_witness(entries, id);
        let i = choose|i: int| 0 <= i < entries.len() && (#[trigger] entries[i]).0.id() == id;
        assert(ids[i] == id);
    }
    vstd::seq_lib::seq_to_set_is_finite(ids);
    vstd::set_lib::lemma_len_subset(contents(entries).dom(), ids.to_set());
}

impl<K: StoreKey, V> KeyedStore<K, V> {
    /// The keys in the order in which they were first written.
    pub open spec fn key_seq(&self) -> Seq<K::Id> {
        self.entries@.map_values(|e: (K, V)| e.0.id())
    }

    /// No key occurs twice.
    pub open spec fn wf(&self) -> bool {
        self.key_seq().no_duplicates()
    }

    pub fn new() -> (r: Self)
        ensures
            r@ == Map::<K::Id, V>::empty(),
            r.entries@.len() == 0,
            r.wf(),
    {
        let r: KeyedStore<K, V> = KeyedStore { entries: Vec::new() };
        proof {
            assert(r@ =~= Map::<K::Id, V>::empty());
        }
        r
    }

    /// The index of the first entry with this key.
    pub fn position(&self, key: &K) -> (r: Option<usize>)
        ensures
            match r {
                Some(i) => i < self.entries@.len() && self.entries@[i as int].0.id() == key.id()
                    && self@.contains_key(key.id()) && self@[key.id()] == self.entries@[i as int].1
                    && forall|j: int|
                    0 <= j < i ==> (#[trigger] self.entries@[j]).0.id() != key.id(),
                None => !self@.contains_key(key.id()) && forall|j: int|
                    0 <= j < self.entries@.len() ==> (#[trigger] self.entries@[j]).0.id()
                        != key.id(),
            },
    {
        let mut i: usize = 0;
        while i < self.entries.len()
            invariant
                i <= self.entries@.len(),
                forall|j: int| 0 <= j < i ==> (#[trigger] self.entries@[j]).0.id() != key.id(),
            decreases self.entries@.len() - i,
        {
            if self.entries[i].0.same(key) {
                proof {
                    lemma_first_value_at(self.entries@, i as int);
                }
                return Some(i);
            }
            i = i + 1;
        }
        proof {
            lemma_first_value_absent(self.entries@, key.id());
        }
        None
    }

    pub fn contains(&self, key: &K) -> (r: bool)
        ensures
            r == self@.contains_key(key.id()),
    {
        self.position(key).is_some()
    }

    pub fn get(&self, key: &K) -> (r: Option<&V>)
        ensures
            match r {
                Some(v) => self@.contains_key(key.id()) && *v == self@[key.id()],
                None => !self@.contains_key(key.id()),
            },
    {
        match self.position(key) {
            Some(i) => Some(&self.entries[i].1),
            None => None,
        }
    }

    /// Writes `value` under `key`, in place where the key is already there.
    pub fn insert(&mut self, key: K, value: V)
        ensures
            final(self)@ == old(self)@.insert(key.id(), value),
            final(self).key_seq() == if old(self)@.contains_key(key.id()) {
                old(self).key_seq()
            } else {
                old(self).key_seq().push(key.id())
            },
            old(self).wf() ==> final(self).wf(),
    {
        let ghost before = self.entries@;
        let ghost id = key.id();
        match self.position(&key) {
            Some(i) => {
                proof {
                    lemma_contents_update(before, i as int, (key, value));
                }
                self.entries.set(i, (key, value));
            },
            None => {
                self.entries.push((key, value));
                proof {
                    assert forall|other: K::Id|
                        first_value(self.entries@, other) == (match first_value(before, other) {
                            Some(v) => Some(v),
                            None => if id == other { Some(value) } else { None },
                        }) by {
                        lemma_first_value_push(before, (key, value), other);
                    }
                }
            },
        }
        proof {
            assert(self@ =~= old(self)@.insert(id, value));
            assert(self.key_seq() =~= if old(self)@.contains_key(id) {
                old(self).key_seq()
            } else {
                old(self).key_seq().push(id)
            });
            let ids = old(self).key_seq();
            if !old(self)@.contains_key(id) && old(self).wf() {
                assert forall|j: int| 0 <= j < ids.len() implies ids[j] != id by {
                    assert(before[j].0.id() != id);
                }
            }
        }
    }

    /// The value under `key`, to be changed in place.
    pub fn get_mut(&mut self, key: &K) -> (r: Option<&mut V>)
        ensures
            match r {
                Some(v) => old(self)@.contains_key(key.id()) && *v == old(self)@[key.id()]
                    && final(self)@ == old(self)@.insert(key.id(), *final(v)),
                None => !old(self)@.contains_key(key.id()) && final(self)@ == old(self)@,
            },
            final(self).key_seq() == old(self).key_seq(),
    {
        match self.position(key) {
            Some(i) => {
                proof {
                    assert forall|v: V|
                        contents(
                            #[trigger] self.entries@.update(i as int, (self.entries@[i as int].0, v)),
                        ) == self@.insert(key.id(), v) by {
                        lemma_contents_update(
                            self.entries@,
                            i as int,
                            (self.entries@[i as int].0, v),
                        );
                    }
                }
                let slot: &mut (K, V) = &mut self.entries[i];
                Some(&mut slot.1)
            },
            None => None,
        }
    }

    /// Deletes `key`.
    pub fn remove(&mut self, key: &K)
        ensures
            final(self)@ == old(self)@.remove(key.id()),
            final(self).key_seq() == other_ids(old(self).key_seq(), key.id()),
            old(self).wf() ==> final(self).wf(),
    {
        let mut found: Option<usize> = self.position(key);
        while found.is_some()
            invariant
                match found {
                    Some(i) => i < self.entries@.len() && self.entries@[i as int].0.id()
                        == key.id(),
                    None => !self@.contains_key(key.id()) && !self.key_seq().contains(key.id()),
                },
                other_ids(self.key_seq(), key.id()) == other_ids(old(self).key_seq(), key.id()),
                forall|id: K::Id| id != key.id() ==> #[trigger] first_value(self.entries@, id)
                    == first_value(old(self).entries@, id),
            decreases self.entries@.len(),
        {
            let i: usize = found.unwrap();
            proof {
                assert forall|id: K::Id| id != key.id() implies #[trigger] first_value(
                    self.entries@.remove(i as int),
                    id,
                ) == first_value(old(self).entries@, id) by {
                    lemma_first_value_take_out(self.entries@, i as int, id);
                }
            }
            let ghost ids = self.key_seq();
            self.entries.remove(i);
            proof {
                assert(self.key_seq() =~= ids.remove(i as int));
                lemma_other_ids_take_out(ids, i as int);
            }
            found = self.position(key);
        }
        proof {
            lemma_other_ids_absent(self.key_seq(), key.id());
            if old(self).wf() {
                lemma_other_ids_differ(old(self).key_seq(), key.id());
            }
            assert(first_value(self.entries@, key.id()) is None);
            assert(self@ =~= old(self)@.remove(key.id()));
        }
    }
}

} // verus!
