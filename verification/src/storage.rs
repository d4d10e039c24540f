//! Typed storage: the capabilities composed into loading and saving items.

use vstd::prelude::*;
use crate::capability::{decodable, Deserializer, Fallible, Serializer};

verus! {

/// Whether `found` is what loading `key` from `entries` may give: `None` for an absent
/// key, else an item that the bytes under the key decode to.
pub open spec fn loads<T, D: Deserializer<T>>(
    entries: Map<Seq<u8>, Seq<u8>>,
    key: Seq<u8>,
    found: Option<T>,
) -> bool {
    match found {
        Some(item) => entries.contains_key(key) && D::decodes(entries[key], item),
        None => !entries.contains_key(key),
    }
}

/// Whether `key` holds bytes in `entries` that decode to no item of type `T`.
pub open spec fn undecodable<T, D: Deserializer<T>>(
    entries: Map<Seq<u8>, Seq<u8>>,
    key: Seq<u8>,
) -> bool {
    entries.contains_key(key) && !decodable::<T, D>(entries[key])
}

/// The read side of a typed store.
pub trait Storage: Fallible {
    type Serde;

    type Repo;

    /// The bytes held under each key that is present. Left open unless an
    /// implementation defines it.
    open spec fn entries(&self) -> Map<Seq<u8>, Seq<u8>> {
        arbitrary()
    }

    /// Loads the item under `key`, if the key is present.
    fn may_load<T>(&self, key: &[u8]) -> (result: Result<Option<T>, Self::Error>) where
        Self::Serde: Deserializer<T>,

        ensures
            result matches Ok(found) ==> loads::<T, Self::Serde>(self.entries(), key@, found),
            Self::infallible() ==> (result is Err <==> undecodable::<T, Self::Serde>(
                self.entries(),
                key@,
            )),
    ;

    /// Whether `key` is present.
    fn has_key(&self, key: &[u8]) -> (result: Result<bool, Self::Error>)
        ensures
            result matches Ok(present) ==> present == self.entries().contains_key(key@),
            Self::infallible() ==> result is Ok,
    ;
}

/// The write side of a typed store.
pub trait MutStorage: Storage {
    /// Saves `item` under `key`, in place of what was there.
    fn save<T>(&mut self, key: &[u8], item: &T) -> (result: Result<(), Self::Error>) where
        Self::Serde: Serializer<T>,

        ensures
            result is Ok ==> final(self).entries() == old(self).entries().insert(
                key@,
                <Self::Serde as Serializer<T>>::encoding(*item),
            ),
            Self::infallible() ==> result is Ok,
    ;

    /// Removes `key` and what it holds. An absent key is no failure.
    fn remove(&mut self, key: &[u8]) -> (result: Result<(), Self::Error>)
        ensures
            result is Ok ==> final(self).entries() == old(self).entries().remove(key@),
            Self::infallible() ==> result is Ok,
    ;
}

impl<'a, S: Fallible> Fallible for &'a S {
    type Error = S::Error;

    open spec fn infallible() -> bool {
        S::infallible()
    }
}

impl<'a, S: Storage> Storage for &'a S {
    type Serde = S::Serde;

    type Repo = S::Repo;

    open spec fn entries(&self) -> Map<Seq<u8>, Seq<u8>> {
        (**self).entries()
    }

    fn may_load<T>(&self, key: &[u8]) -> (result: Result<Option<T>, Self::Error>) where
        Self::Serde: Deserializer<T>,
     {
        <S as Storage>::may_load(*self, key)
    }

    fn has_key(&self, key: &[u8]) -> (result: Result<bool, Self::Error>) {
        <S as Storage>::has_key(*self, key)
    }
}

impl<'a, S: Fallible> Fallible for &'a mut S {
    type Error = S::Error;

    open spec fn infallible() -> bool {
        S::infallible()
    }
}

impl<'a, S: Storage> Storage for &'a mut S {
    type Serde = S::Serde;

    type Repo = S::Repo;

    open spec fn entries(&self) -> Map<Seq<u8>, Seq<u8>> {
        (**self).entries()
    }

    fn may_load<T>(&self, key: &[u8]) -> (result: Result<Option<T>, Self::Error>) where
        Self::Serde: Deserializer<T>,
     {
        <S as Storage>::may_load(&**self, key)
    }

    fn has_key(&self, key: &[u8]) -> (result: Result<bool, Self::Error>) {
        <S as Storage>::has_key(&**self, key)
    }
}

impl<'a, S: MutStorage> MutStorage for &'a mut S {
    fn save<T>(&mut self, key: &[u8], item: &T) -> (result: Result<(), Self::Error>) where
        Self::Serde: Serializer<T>,
     {
        <S as MutStorage>::save(&mut **self, key, item)
    }

    fn remove(&mut self, key: &[u8]) -> (result: Result<(), Self::Error>) {
        <S as MutStorage>::remove(&mut **self, key)
    }
}

} // verus!
