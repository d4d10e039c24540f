//! A repo around the storage that a host hands in.

use vstd::prelude::*;
use vstd::std_specs::convert::FromSpecImpl;
use crate::capability::Fallible;

verus! {

/// The failure of a repo that never fails.
#[derive(Debug)]
pub struct Infallible;

/// A repo around `T`, the storage of a host or a reference to it.
pub struct CosmwasmRepo<T>(T);

impl<T> CosmwasmRepo<T> {
    /// The storage inside.
    pub closed spec fn spec_storage(&self) -> &T {
        &self.0
    }

    /// A repo around `storage`.
    pub fn new(storage: T) -> (repo: CosmwasmRepo<T>)
        ensures
            *repo.spec_storage() == storage,
    {
        CosmwasmRepo(storage)
    }

    /// The storage inside.
    #[verifier::when_used_as_spec(spec_storage)]
    pub fn storage(&self) -> (storage: &T)
        ensures
            storage == self.spec_storage(),
    {
        &self.0
    }

    /// The storage inside, to change it.
    pub fn mut_storage(&mut self) -> (storage: &mut T)
        ensures
            *storage == *old(self).spec_storage(),
            *final(self).spec_storage() == *final(storage),
    {
        &mut self.0
    }
}

impl<T> From<T> for CosmwasmRepo<T> {
    fn from(value: T) -> (repo: Self)
        ensures
            *repo.spec_storage() == value,
    {
        CosmwasmRepo(value)
    }
}

impl<T> FromSpecImpl<T> for CosmwasmRepo<T> {
    open spec fn obeys_from_spec() -> bool {
        true
    }

    closed spec fn from_spec(value: T) -> Self {
        CosmwasmRepo(value)
    }
}

impl<T> Fallible for CosmwasmRepo<T> {
    type Error = Infallible;

    open spec fn infallible() -> bool {
        true
    }
}

} // verus!
