//! The concrete store: one serializer and one repo, and the error that tags which of
//! the two failed.

use vstd::prelude::*;
use vstd::std_specs::convert::IntoSpec;
use crate::capability::{
    decodable,
    Backend,
    Deserializer,
    Fallible,
    HasKey,
    Read,
    Remove,
    Serializer,
    Write,
};
use crate::storage::{MutStorage, Storage};

verus! {

/// A failure of a store: the cause, unchanged, tagged with the side it came from.
#[derive(Debug)]
pub enum Error<S, R> {
    /// The serializer or the deserializer failed.
    Serde(S),
    /// The repo failed.
    Repo(R),
}

impl<S, R> Error<S, R> {
    /// Tags the failure of a serializer or deserializer. A success passes through.
    pub fn from_serde<X>(outcome: Result<X, S>) -> (result: Result<X, Error<S, R>>)
        ensures
            result == (match outcome {
                Ok(value) => Ok::<X, Error<S, R>>(value),
                Err(cause) => Err(Error::Serde(cause)),
            }),
    {
        match outcome {
            Ok(value) => Ok(value),
            Err(cause) => Err(Error::Serde(cause)),
        }
    }

    /// Tags the failure of a repo. A success passes through.
    pub fn from_repo<X>(outcome: Result<X, R>) -> (result: Result<X, Error<S, R>>)
        ensures
            result == (match outcome {
                Ok(value) => Ok::<X, Error<S, R>>(value),
                Err(cause) => Err(Error::Repo(cause)),
            }),
    {
        match outcome {
            Ok(value) => Ok(value),
            Err(cause) => Err(Error::Repo(cause)),
        }
    }
}

/// std's `From<T> for T`, the conversion of a value into its own type. As std
/// documents it, it returns the argument unchanged.
pub assume_specification<Whole>[ <Whole as std::convert::From<Whole>>::from ](whole: Whole) -> (same: Whole)
    ensures
        same == whole,
;

/// What loading gives for an outcome of the deserializer: the item found, or the
/// deserializer's failure, tagged.
pub open spec fn tagged<T, S, R>(outcome: Result<T, S>) -> Result<Option<T>, Error<S, R>> {
    match outcome {
        Ok(item) => Ok(Some(item)),
        Err(cause) => Err(Error::Serde(cause)),
    }
}

/// A store of typed items: a serializer and a repo of raw bytes.
pub struct KvStore<Serde, Repo> {
    serde: Serde,
    repo: Repo,
}

impl<Serde, Repo> KvStore<Serde, Repo> {
    /// The serializer of this store.
    pub closed spec fn spec_serde(&self) -> &Serde {
        &self.serde
    }

    /// The repo of this store.
    pub closed spec fn spec_repo(&self) -> &Repo {
        &self.repo
    }

    /// A store of `serde` and `repo`.
    pub fn new(serde: Serde, repo: Repo) -> (store: Self)
        ensures
            *store.spec_serde() == serde,
            *store.spec_repo() == repo,
    {
        Self { serde, repo }
    }

    /// A store of `repo` and the default serializer.
    pub fn from_repo<I: Into<Repo>>(repo: I) -> (store: Self) where Serde: Default
        ensures
            call_ensures(Serde::default, (), *store.spec_serde()),
            call_ensures(<I as Into<Repo>>::into, (repo,), *store.spec_repo()),
            <I as IntoSpec<Repo>>::obeys_into_spec() ==> *store.spec_repo() == repo.into_spec(),
    {
        Self { serde: Serde::default(), repo: repo.into() }
    }

    /// The repo, for use apart from the accessors.
    #[verifier::when_used_as_spec(spec_repo)]
    pub fn repo(&self) -> (repo: &Repo)
        ensures
            repo == self.spec_repo(),
    {
        &self.repo
    }

    /// The repo, to change it apart from the accessors.
    pub fn mut_repo(&mut self) -> (repo: &mut Repo)
        ensures
            *repo == *old(self).spec_repo(),
            *final(self).spec_repo() == *final(repo),
            *final(self).spec_serde() == *old(self).spec_serde(),
    {
        &mut self.repo
    }

    /// The serializer, for use apart from the accessors.
    #[verifier::when_used_as_spec(spec_serde)]
    pub fn serde(&self) -> (serde: &Serde)
        ensures
            serde == self.spec_serde(),
    {
        &self.serde
    }

    /// The serializer, to change it apart from the accessors.
    pub fn mut_serde(&mut self) -> (serde: &mut Serde)
        ensures
            *serde == *old(self).spec_serde(),
            *final(self).spec_serde() == *final(serde),
            *final(self).spec_repo() == *old(self).spec_repo(),
    {
        &mut self.serde
    }

    /// What loading gives, from what the repo read: a failed read is the repo's failure,
    /// tagged; an absent key is `None`; bytes are decoded, see [`KvStore::decoded`].
    pub fn loaded<T>(read: Result<Option<Vec<u8>>, Repo::Error>) -> (result: Result<
        Option<T>,
        Error<Serde::Error, Repo::Error>,
    >) where Serde: Deserializer<T>, Repo: Fallible
        ensures
            match read {
                Err(cause) => result == Err::<Option<T>, _>(
                    Error::<Serde::Error, Repo::Error>::Repo(cause),
                ),
                Ok(None) => result == Ok::<Option<T>, Error<Serde::Error, Repo::Error>>(None),
                Ok(Some(bytes)) => {
                    &&& exists|outcome: Result<T, Serde::Error>|
                        call_ensures(Serde::deserialize, (bytes,), outcome) && result
                            == tagged::<T, Serde::Error, Repo::Error>(outcome)
                    &&& match result {
                        Ok(Some(item)) => Serde::decodes(bytes@, item),
                        Ok(None) => false,
                        Err(Error::Serde(_)) => !decodable::<T, Serde>(bytes@),
                        Err(Error::Repo(_)) => false,
                    }
                },
            },
    {
        match Error::from_repo(read) {
            Err(failure) => Err(failure),
            Ok(None) => Ok(None),
            Ok(Some(bytes)) => {
                let outcome = Serde::deserialize(bytes);
                assert(call_ensures(Serde::deserialize, (bytes,), outcome));
                Self::decoded(outcome)
            },
        }
    }

    /// What loading gives, from what the deserializer made of the bytes read: the item
    /// found, or the deserializer's failure, tagged.
    pub fn decoded<T>(outcome: Result<T, Serde::Error>) -> (result: Result<
        Option<T>,
        Error<Serde::Error, Repo::Error>,
    >) where Serde: Fallible, Repo: Fallible
        ensures
            result == tagged::<T, Serde::Error, Repo::Error>(outcome),
    {
        match Error::from_serde(outcome) {
            Ok(item) => Ok(Some(item)),
            Err(failure) => Err(failure),
        }
    }

    /// What saving gives, from what the serializer made of the item: its failure,
    /// tagged, with `repo` untouched; or the outcome of writing the bytes under `key`.
    pub fn stored(repo: &mut Repo, key: &[u8], serialized: Result<&[u8], Serde::Error>) -> (result:
        Result<(), Error<Serde::Error, Repo::Error>>) where Serde: Fallible, Repo: Write
        ensures
            match serialized {
                Err(cause) => result == Err::<(), _>(
                    Error::<Serde::Error, Repo::Error>::Serde(cause),
                ) && *final(repo) == *old(repo),
                Ok(bytes) => {
                    &&& result is Ok ==> final(repo).entries() == old(repo).entries().insert(
                        key@,
                        bytes@,
                    )
                    &&& !(result matches Err(Error::Serde(_)))
                    &&& Repo::infallible() ==> result is Ok
                },
            },
    {
        match Error::from_serde(serialized) {
            Err(failure) => Err(failure),
            Ok(bytes) => Error::from_repo(repo.write(key, bytes)),
        }
    }
}

impl<Serde: Default, Repo: Default> Default for KvStore<Serde, Repo> {
    fn default() -> (store: Self)
        ensures
            call_ensures(Serde::default, (), *store.spec_serde()),
            call_ensures(Repo::default, (), *store.spec_repo()),
    {
        Self { serde: Serde::default(), repo: Repo::default() }
    }
}

impl<Serde: Fallible, Repo: Fallible> Fallible for KvStore<Serde, Repo> {
    type Error = Error<Serde::Error, Repo::Error>;

    open spec fn infallible() -> bool {
        Serde::infallible() && Repo::infallible()
    }
}

impl<Serde: Fallible, Repo: Read + HasKey> Storage for KvStore<Serde, Repo> {
    type Serde = Serde;

    type Repo = Repo;

    open spec fn entries(&self) -> Map<Seq<u8>, Seq<u8>> {
        self.spec_repo().entries()
    }

    /// Fails with the repo's failure where the read fails, and with the deserializer's
    /// where the key holds bytes that decode to nothing: see [`KvStore::loaded`].
    fn may_load<T>(&self, key: &[u8]) -> (result: Result<Option<T>, Self::Error>) where
        Serde: Deserializer<T>,

        ensures
            result matches Err(Error::Serde(_)) ==> self.entries().contains_key(key@)
                && !decodable::<T, Serde>(self.entries()[key@]),
            Repo::infallible() ==> !(result matches Err(Error::Repo(_))),
    {
        Self::loaded(self.repo.read(key))
    }

    /// Fails only with the repo's failure.
    fn has_key(&self, key: &[u8]) -> (result: Result<bool, Self::Error>)
        ensures
            !(result matches Err(Error::Serde(_))),
    {
        Error::from_repo(self.repo.has_key(key))
    }
}

impl<Serde: Fallible, Repo: Write + Remove + Read + HasKey> MutStorage for KvStore<Serde, Repo> {
    /// Fails with the serializer's failure, the repo untouched, or with the repo's
    /// where the write fails: see [`KvStore::stored`].
    fn save<T>(&mut self, key: &[u8], item: &T) -> (result: Result<(), Self::Error>) where
        Serde: Serializer<T>,

        ensures
            result matches Err(Error::Serde(_)) ==> final(self).spec_repo() == old(
                self,
            ).spec_repo(),
            Serde::infallible() ==> !(result matches Err(Error::Serde(_))),
            Repo::infallible() ==> !(result matches Err(Error::Repo(_))),
    {
        Self::stored(&mut self.repo, key, self.serde.serialize(item))
    }

    /// Fails only with the repo's failure. The serializer is untouched.
    fn remove(&mut self, key: &[u8]) -> (result: Result<(), Self::Error>)
        ensures
            !(result matches Err(Error::Serde(_))),
            final(self).spec_serde() == old(self).spec_serde(),
    {
        Error::from_repo(self.repo.remove(key))
    }
}

/// A store for repos that cannot remove: a serializer and a repo, to load from and to
/// save to, and nothing more.
pub struct GenericStorage<Serde, Repo> {
    serde: Serde,
    repo: Repo,
}

impl<Serde, Repo> GenericStorage<Serde, Repo> {
    /// The serializer of this store.
    pub closed spec fn spec_serde(&self) -> &Serde {
        &self.serde
    }

    /// The repo of this store.
    pub closed spec fn spec_repo(&self) -> &Repo {
        &self.repo
    }

    /// Saves `item` under `key`, in place of what was there. Fails with the
    /// serializer's failure, the repo untouched, or with the repo's where the write
    /// fails.
    pub fn save<T>(&mut self, key: &[u8], item: &T) -> (result: Result<
        (),
        Error<Serde::Error, Repo::Error>,
    >) where Serde: Serializer<T>, Repo: Write
        ensures
            result is Ok ==> final(self).spec_repo().entries() == old(
                self,
            ).spec_repo().entries().insert(key@, Serde::encoding(*item)),
            result matches Err(Error::Serde(_)) ==> final(self).spec_repo() == old(
                self,
            ).spec_repo(),
            Serde::infallible() ==> !(result matches Err(Error::Serde(_))),
            Repo::infallible() ==> !(result matches Err(Error::Repo(_))),
    {
        KvStore::<Serde, Repo>::stored(&mut self.repo, key, self.serde.serialize(item))
    }
}

impl<Serde: Default, Repo: Default> Default for GenericStorage<Serde, Repo> {
    fn default() -> (store: Self)
        ensures
            call_ensures(Serde::default, (), *store.spec_serde()),
            call_ensures(Repo::default, (), *store.spec_repo()),
    {
        Self { serde: Serde::default(), repo: Repo::default() }
    }
}

impl<Serde: Fallible, Repo: Fallible> Fallible for GenericStorage<Serde, Repo> {
    type Error = Error<Serde::Error, Repo::Error>;

    open spec fn infallible() -> bool {
        Serde::infallible() && Repo::infallible()
    }
}

impl<Serde: Fallible, Repo: Read + HasKey> Storage for GenericStorage<Serde, Repo> {
    type Serde = Serde;

    type Repo = Repo;

    open spec fn entries(&self) -> Map<Seq<u8>, Seq<u8>> {
        self.spec_repo().entries()
    }

    /// Fails with the repo's failure where the read fails, and with the deserializer's
    /// where the key holds bytes that decode to nothing: see [`KvStore::loaded`].
    fn may_load<T>(&self, key: &[u8]) -> (result: Result<Option<T>, Self::Error>) where
        Serde: Deserializer<T>,

        ensures
            result matches Err(Error::Serde(_)) ==> self.entries().contains_key(key@)
                && !decodable::<T, Serde>(self.entries()[key@]),
            Repo::infallible() ==> !(result matches Err(Error::Repo(_))),
    {
        KvStore::<Serde, Repo>::loaded(self.repo.read(key))
    }

    /// Fails only with the repo's failure.
    fn has_key(&self, key: &[u8]) -> (result: Result<bool, Self::Error>)
        ensures
            !(result matches Err(Error::Serde(_))),
    {
        Error::from_repo(self.repo.has_key(key))
    }
}

} // verus!
