//! What holds of JSON objects and of keyed stores: what is under a key.

use crate::json::{member, Json};
use crate::store::{contents, first_value, other_ids, KeyedStore, StoreKey};
use vstd::prelude::*;

verus! {

/// Under a key of an object stands the first member that is called so.
pub proof fn the_first_member_counts(
    a: Seq<(String, Json)>,
    b: Seq<(String, Json)>,
    one: (String, Json),
    key: Seq<char>,
)
    ensures
        member(a + b, key) == match member(a, key) {
            Some(value) => Some(value),
            None => member(b, key),
        },
        member(seq![one], key) == if one.0@ == key {
            Some(one.1)
        } else {
            None
        },
        member(seq![], key) is None,
    decreases a.len(),
{
    assert(seq![one].drop_first() =~= Seq::<(String, Json)>::empty());
    assert(member(seq![one].drop_first(), key) is None);
    if a.len() == 0 {
        assert(a + b =~= b);
    } else {
        the_first_member_counts(a.drop_first(), b, one, key);
        assert((a + b).drop_first() =~= a.drop_first() + b);
        assert((a + b)[0] == a[0]);
    }
}

/// Only objects have members, only arrays items, and only strings a text.
pub proof fn values_are_of_one_kind(value: Json, key: Seq<char>)
    ensures
        value.field(key) is Some ==> value is Object && member(value->Object_0@, key) == value.field(
            key,
        ),
        value is Object ==> value.field(key) == member(value->Object_0@, key),
        value is Array ==> value.items() == Some(value->Array_0@),
        value is Text ==> value.text() == Some(value->Text_0@),
        !(value is Array) ==> value.items() is None,
        !(value is Text) ==> value.text() is None,
{
}

/// Under a key of a store stands the first entry with that key, and nothing where there is none.
pub proof fn the_first_entry_counts<K: StoreKey, V>(
    a: Seq<(K, V)>,
    b: Seq<(K, V)>,
    one: (K, V),
    id: K::Id,
)
    ensures
        first_value(a + b, id) == match first_value(a, id) {
            Some(value) => Some(value),
            None => first_value(b, id),
        },
        first_value(seq![one], id) == if one.0.id() == id {
            Some(one.1)
        } else {
            None
        },
        first_value(Seq::<(K, V)>::empty(), id) is None,
        contents(a).contains_key(id) <==> first_value(a, id) is Some,
        contents(a).contains_key(id) ==> first_value(a, id) == Some(contents(a)[id]),
    decreases a.len(),
{
    assert(seq![one].drop_first() =~= Seq::<(K, V)>::empty());
    assert(first_value(seq![one].drop_first(), id) is None);
    if a.len() == 0 {
        assert(a + b =~= b);
    } else {
        the_first_entry_counts(a.drop_first(), b, one, id);
        assert((a + b).drop_first() =~= a.drop_first() + b);
        assert((a + b)[0] == a[0]);
    }
}

/// A store holds what its entries do, and lists their keys one by one.
pub proof fn stores_list_their_keys<K: StoreKey, V>(store: KeyedStore<K, V>, i: int)
    ensures
        store@ == contents(store.entries@),
        store.key_seq().len() == store.entries@.len(),
        0 <= i < store.entries@.len() ==> store.key_seq()[i] == store.entries@[i].0.id(),
        store.wf() <==> forall|j: int, k: int|
            0 <= j < k < store.entries@.len() ==> (#[trigger] store.entries@[j]).0.id() != (
            #[trigger] store.entries@[k]).0.id(),
{
    let ids = store.key_seq();
    assert forall|j: int| 0 <= j < store.entries@.len() implies #[trigger] ids[j]
        == store.entries@[j].0.id() by {}
    if store.wf() {
        assert forall|j: int, k: int| 0 <= j < k < store.entries@.len() implies (
        #[trigger] store.entries@[j]).0.id() != (#[trigger] store.entries@[k]).0.id() by {
            assert(ids[j] != ids[k]);
        }
    } else {
        let (j, k) = choose|j: int, k: int|
            0 <= j < ids.len() && 0 <= k < ids.len() && j != k && #[trigger] ids[j]
                == #[trigger] ids[k];
        assert(store.entries@[j].0.id() == store.entries@[k].0.id());
    }
}

/// Two keys are the same exactly if all that they are made of is.
pub proof fn keys_are_what_they_are_made_of(
    a: (String, u32),
    b: (String, u32),
    c: (String, String),
    d: (String, String),
    e: (u64, u32),
    f: (u64, u32),
)
    ensures
        a.0.id() == b.0.id() <==> a.0@ == b.0@,
        a.id() == b.id() <==> a.0@ == b.0@ && a.1 == b.1,
        c.id() == d.id() <==> c.0@ == d.0@ && c.1@ == d.1@,
        e.id() == f.id() <==> e.0 == f.0 && e.1 == f.1,
{
}

/// Leaving a key out leaves the other keys, in order, and nothing else.
pub proof fn other_keys_stay<I>(a: Seq<I>, b: Seq<I>, one: I, id: I)
    ensures
        other_ids(a + b, id) == other_ids(a, id) + other_ids(b, id),
        other_ids(seq![one], id) == if one == id {
            Seq::<I>::empty()
        } else {
            seq![one]
        },
        other_ids(Seq::<I>::empty(), id) == Seq::<I>::empty(),
    decreases b.len(),
{
    assert(seq![one].drop_last() =~= Seq::<I>::empty());
    assert(other_ids(seq![one].drop_last(), id) =~= Seq::<I>::empty());
    if b.len() == 0 {
        assert(a + b =~= a);
        assert(other_ids(a, id) + other_ids(b, id) =~= other_ids(a, id));
    } else {
        other_keys_stay(a, b.drop_last(), one, id);
        assert((a + b).drop_last() =~= a + b.drop_last());
        assert((a + b).last() == b.last());
        assert(other_ids(a + b, id) =~= other_ids(a, id) + other_ids(b, id));
    }
}

} // verus!
