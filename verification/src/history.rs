//! What holds of a store over time: what was saved is what is loaded, and a key is
//! present exactly while its last change is a save.

use vstd::prelude::*;
use crate::capability::{decodable, Deserializer, Serializer};
use crate::storage::{loads, undecodable};

verus! {

/// Whether a serializer keeps `item` whole: its encoding decodes, and only to items
/// with that same encoding.
pub open spec fn faithful<T, S: Serializer<T> + Deserializer<T>>(item: T) -> bool {
    &&& decodable::<T, S>(<S as Serializer<T>>::encoding(item))
    &&& forall|other: T|
        <S as Deserializer<T>>::decodes(<S as Serializer<T>>::encoding(item), other)
            ==> <S as Serializer<T>>::encoding(other) == <S as Serializer<T>>::encoding(item)
}

/// A change to the entries of a store.
pub enum Change {
    /// `bytes` were saved under `key`.
    Save { key: Seq<u8>, bytes: Seq<u8> },
    /// `key` was removed.
    Remove { key: Seq<u8> },
}

/// The entries after one change.
pub open spec fn apply(entries: Map<Seq<u8>, Seq<u8>>, change: Change) -> Map<Seq<u8>, Seq<u8>> {
    match change {
        Change::Save { key, bytes } => entries.insert(key, bytes),
        Change::Remove { key } => entries.remove(key),
    }
}

/// The entries after a run of changes, the first applied first.
pub open spec fn replay(entries: Map<Seq<u8>, Seq<u8>>, changes: Seq<Change>) -> Map<
    Seq<u8>,
    Seq<u8>,
>
    decreases changes.len(),
{
    if changes.len() == 0 {
        entries
    } else {
        apply(replay(entries, changes.drop_last()), changes.last())
    }
}

/// Whether `change` saves under `key`.
pub open spec fn saves(change: Change, key: Seq<u8>) -> bool {
    change matches Change::Save { key: at, .. } && at == key
}

/// Whether `change` removes `key`.
pub open spec fn removes(change: Change, key: Seq<u8>) -> bool {
    change matches Change::Remove { key: at } && at == key
}

/// Whether `changes` hold a save under `key` with no remove of `key` after it.
pub open spec fn saved_last(changes: Seq<Change>, key: Seq<u8>) -> bool {
    exists|i: int|
        0 <= i < changes.len() && saves(#[trigger] changes[i], key) && forall|j: int|
            i < j < changes.len() ==> !removes(#[trigger] changes[j], key)
}

/// Whether `changes` hold no remove of `key`.
pub open spec fn never_removed(changes: Seq<Change>, key: Seq<u8>) -> bool {
    forall|j: int| 0 <= j < changes.len() ==> !removes(#[trigger] changes[j], key)
}

/// An item saved under a key is the item then loaded from it: the bytes under the key
/// decode, and whatever loading finds is an item with the encoding of the item saved.
/// Holds of each item that the serializer keeps whole.
pub proof fn lemma_save_then_load<T, S: Serializer<T> + Deserializer<T>>(
    before: Map<Seq<u8>, Seq<u8>>,
    key: Seq<u8>,
    item: T,
    found: Option<T>,
)
    requires
        faithful::<T, S>(item),
        loads::<T, S>(before.insert(key, <S as Serializer<T>>::encoding(item)), key, found),
    ensures
        !undecodable::<T, S>(before.insert(key, <S as Serializer<T>>::encoding(item)), key),
        found matches Some(loaded) && <S as Serializer<T>>::encoding(loaded) == <S as Serializer<
            T,
        >>::encoding(item),
{
}

/// A save under one key leaves what loading another key gives as it was.
pub proof fn lemma_save_keeps_others<T, D: Deserializer<T>>(
    before: Map<Seq<u8>, Seq<u8>>,
    key: Seq<u8>,
    bytes: Seq<u8>,
    other: Seq<u8>,
    found: Option<T>,
)
    requires
        other != key,
    ensures
        loads::<T, D>(before.insert(key, bytes), other, found) == loads::<T, D>(
            before,
            other,
            found,
        ),
{
}

/// Removing a key leaves it absent, and removing an absent key changes nothing.
pub proof fn lemma_remove_absent(entries: Map<Seq<u8>, Seq<u8>>, key: Seq<u8>)
    ensures
        !entries.remove(key).contains_key(key),
        !entries.contains_key(key) ==> entries.remove(key) == entries,
        entries.remove(key).remove(key) == entries.remove(key),
{
    if !entries.contains_key(key) {
        assert(entries.remove(key) =~= entries);
    }
    assert(entries.remove(key).remove(key) =~= entries.remove(key));
}

/// After a run of saves and removes, a key is present exactly if a save under it came
/// with no remove of it after, or it was present at the start and never removed.
pub proof fn lemma_present_iff_saved_last(
    entries: Map<Seq<u8>, Seq<u8>>,
    changes: Seq<Change>,
    key: Seq<u8>,
)
    ensures
        replay(entries, changes).contains_key(key) <==> saved_last(changes, key) || (
        entries.contains_key(key) && never_removed(changes, key)),
    decreases changes.len(),
{
    if changes.len() > 0 {
        let earlier = changes.drop_last();
        let last = changes.last();
        lemma_present_iff_saved_last(entries, earlier, key);
        assert(forall|j: int| 0 <= j < earlier.len() ==> earlier[j] == changes[j]);
        if removes(last, key) {
            assert(!replay(entries, changes).contains_key(key));
            assert(removes(changes[changes.len() - 1], key));
        } else if saves(last, key) {
            assert(replay(entries, changes).contains_key(key));
            assert(saves(changes[changes.len() - 1], key));
        } else {
            assert(replay(entries, changes).contains_key(key) == replay(
                entries,
                earlier,
            ).contains_key(key));
            if saved_last(earlier, key) {
                let i = choose|i: int|
                    0 <= i < earlier.len() && saves(#[trigger] earlier[i], key) && forall|j: int|
                        i < j < earlier.len() ==> !removes(#[trigger] earlier[j], key);
                assert(saves(changes[i], key));
                assert(forall|j: int|
                    i < j < changes.len() ==> !removes(#[trigger] changes[j], key));
            }
            if saved_last(changes, key) {
                let i = choose|i: int|
                    0 <= i < changes.len() && saves(#[trigger] changes[i], key) && forall|j: int|
                        i < j < changes.len() ==> !removes(#[trigger] changes[j], key);
                assert(i < earlier.len());
                assert(saves(earlier[i], key));
                assert forall|j: int| i < j < earlier.len() implies !removes(
                    #[trigger] earlier[j],
                    key,
                ) by {
                    assert(earlier[j] == changes[j]);
                }
            }
            if never_removed(earlier, key) {
                assert(never_removed(changes, key));
            }
            if never_removed(changes, key) {
                assert forall|j: int| 0 <= j < earlier.len() implies !removes(
                    #[trigger] earlier[j],
                    key,
                ) by {
                    assert(earlier[j] == changes[j]);
                }
            }
        }
    }
}

} // verus!
