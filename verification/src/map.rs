//! A keyed collection of slots: one fixed prefix, and under it one slot for each key.

use vstd::prelude::*;
use std::marker::PhantomData;
use crate::capability::{Deserializer, Serializer};
use crate::key::{compose_key, composed, CompositeKey, WriteCompositeKey};
use crate::storage::{loads, undecodable, MutStorage, Storage};

verus! {

/// A collection of items of type `V` under keys of type `K`, all below a fixed prefix.
/// A composite key of `N` bytes or fewer is built without allocation. The descriptor
/// holds no item itself.
pub struct StoreMap<const N: usize, K, V> {
    prefix: &'static [u8],
    _k: PhantomData<K>,
    _v: PhantomData<V>,
}

impl<const N: usize, K, V> StoreMap<N, K, V> {
    /// The prefix of the collection.
    pub closed spec fn prefix(&self) -> Seq<u8> {
        self.prefix@
    }
}

impl<const N: usize, K, V> Clone for StoreMap<N, K, V> {
    fn clone(&self) -> (map: Self)
        ensures
            map.prefix() == self.prefix(),
    {
        Self { prefix: self.prefix, _k: PhantomData, _v: PhantomData }
    }
}

impl<const N: usize, K, V> Copy for StoreMap<N, K, V> {

}

impl<const N: usize, K: WriteCompositeKey, V> StoreMap<N, K, V> {
    /// The key in the store of the slot for `key`.
    pub open spec fn slot(&self, key: &K) -> Seq<u8> {
        composed(self.prefix(), key.key_bytes())
    }

    /// Whether the slot for `key` has a key that a buffer can hold.
    pub open spec fn fits(&self, key: &K) -> bool {
        self.prefix().len() + key.key_bytes().len() <= isize::MAX
    }

    /// The collection under `prefix`.
    pub fn new(prefix: &'static [u8]) -> (map: Self)
        ensures
            map.prefix() == prefix@,
    {
        Self { prefix, _k: PhantomData, _v: PhantomData }
    }

    /// The composite key of the slot for `key`.
    pub fn key(&self, key: &K) -> (composite: CompositeKey<N>)
        requires
            self.fits(key),
        ensures
            composite@ == self.slot(key),
            composite.is_inline() <==> composite@.len() <= N,
    {
        compose_key::<N, K>(self.prefix, key)
    }

    /// Saves `item` under `key`, in place of what was there.
    pub fn save<Store: MutStorage>(&self, store: &mut Store, key: &K, item: &V) -> (result:
        Result<(), Store::Error>) where Store::Serde: Serializer<V>
        requires
            self.fits(key),
        ensures
            result is Ok ==> (*final(store)).entries() == (*old(store)).entries().insert(
                self.slot(key),
                <Store::Serde as Serializer<V>>::encoding(*item),
            ),
            Store::infallible() ==> result is Ok,
    {
        let composite = self.key(key);
        store.save(composite.as_ref(), item)
    }

    /// Loads the item under `key`, if the key is present.
    pub fn may_load<Store: Storage>(&self, store: &Store, key: &K) -> (result: Result<
        Option<V>,
        Store::Error,
    >) where Store::Serde: Deserializer<V>
        requires
            self.fits(key),
        ensures
            result matches Ok(found) ==> loads::<V, Store::Serde>(
                store.entries(),
                self.slot(key),
                found,
            ),
            Store::infallible() ==> (result is Err <==> undecodable::<V, Store::Serde>(
                store.entries(),
                self.slot(key),
            )),
    {
        let composite = self.key(key);
        store.may_load::<V>(composite.as_ref())
    }

    /// Whether `key` is present.
    pub fn has_key<Store: Storage>(&self, store: &Store, key: &K) -> (result: Result<
        bool,
        Store::Error,
    >)
        requires
            self.fits(key),
        ensures
            result matches Ok(present) ==> present == store.entries().contains_key(
                self.slot(key),
            ),
            Store::infallible() ==> result is Ok,
    {
        let composite = self.key(key);
        store.has_key(composite.as_ref())
    }

    /// Removes `key` and what it holds. An absent key is no failure.
    pub fn remove<Store: MutStorage>(&self, store: &mut Store, key: &K) -> (result: Result<
        (),
        Store::Error,
    >)
        requires
            self.fits(key),
        ensures
            result is Ok ==> (*final(store)).entries() == (*old(store)).entries().remove(
                self.slot(key),
            ),
            Store::infallible() ==> result is Ok,
    {
        let composite = self.key(key);
        store.remove(composite.as_ref())
    }
}

/// Collections under one prefix reach the same slot for a key, whatever capacity each
/// builds its keys with.
pub proof fn lemma_slot_apart_from_capacity<const N: usize, const M: usize, K: WriteCompositeKey, V>(
    first: StoreMap<N, K, V>,
    second: StoreMap<M, K, V>,
    key: K,
)
    requires
        first.prefix() == second.prefix(),
    ensures
        first.slot(&key) == second.slot(&key),
        first.fits(&key) == second.fits(&key),
{
}

} // verus!
