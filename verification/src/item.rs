//! A single slot of a store: one fixed key, one type of item.

use vstd::prelude::*;
use std::marker::PhantomData;
use crate::capability::{Deserializer, Serializer};
use crate::storage::{loads, undecodable, MutStorage, Storage};

verus! {

/// A slot that holds one item of type `T` under a fixed key. The descriptor holds no
/// item itself.
pub struct Item<T> {
    key: &'static [u8],
    _t: PhantomData<T>,
}

/// Whether a slot is empty, from whether its key is present. A failure passes through.
pub fn absent<E>(present: Result<bool, E>) -> (result: Result<bool, E>)
    ensures
        result == (match present {
            Ok(present) => Ok::<bool, E>(!present),
            Err(cause) => Err(cause),
        }),
{
    match present {
        Ok(present) => Ok(!present),
        Err(cause) => Err(cause),
    }
}

impl<T> Clone for Item<T> {
    fn clone(&self) -> (item: Self)
        ensures
            item.key() == self.key(),
    {
        Self { key: self.key, _t: PhantomData }
    }
}

impl<T> Copy for Item<T> {

}

impl<T> Item<T> {
    /// The key of the slot.
    pub closed spec fn key(&self) -> Seq<u8> {
        self.key@
    }

    /// The slot under `key`.
    pub fn new(key: &'static [u8]) -> (item: Self)
        ensures
            item.key() == key@,
    {
        Self { key, _t: PhantomData }
    }

    /// Saves `item` in the slot, in place of what was there.
    pub fn save<Store: MutStorage>(&self, store: &mut Store, item: &T) -> (result: Result<
        (),
        Store::Error,
    >) where Store::Serde: Serializer<T>
        ensures
            result is Ok ==> (*final(store)).entries() == (*old(store)).entries().insert(
                self.key(),
                <Store::Serde as Serializer<T>>::encoding(*item),
            ),
            Store::infallible() ==> result is Ok,
    {
        store.save(self.key, item)
    }

    /// Loads the item of the slot, if it holds one.
    pub fn may_load<Store: Storage>(&self, store: &Store) -> (result: Result<
        Option<T>,
        Store::Error,
    >) where Store::Serde: Deserializer<T>
        ensures
            result matches Ok(found) ==> loads::<T, Store::Serde>(
                store.entries(),
                self.key(),
                found,
            ),
            Store::infallible() ==> (result is Err <==> undecodable::<T, Store::Serde>(
                store.entries(),
                self.key(),
            )),
    {
        store.may_load::<T>(self.key)
    }

    /// Whether the slot holds nothing.
    pub fn is_empty<Store: Storage>(&self, store: &Store) -> (result: Result<bool, Store::Error>)
        ensures
            result matches Ok(empty) ==> empty == !store.entries().contains_key(self.key()),
            Store::infallible() ==> result is Ok,
    {
        absent(store.has_key(self.key))
    }

    /// Empties the slot. An empty slot is no failure.
    pub fn clear<Store: MutStorage>(&self, store: &mut Store) -> (result: Result<
        (),
        Store::Error,
    >)
        ensures
            result is Ok ==> (*final(store)).entries() == (*old(store)).entries().remove(self.key()),
            Store::infallible() ==> result is Ok,
    {
        store.remove(self.key)
    }
}

} // verus!
