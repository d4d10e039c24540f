//! What a backend must provide: one trait for each ability, each with a failure of its
//! own kind.

use vstd::prelude::*;

verus! {

/// Something whose operations can fail.
pub trait Fallible {
    type Error;

    /// Whether no operation ever fails, but for the decoding of bytes that decode to
    /// nothing. No such promise is made unless an implementation makes it.
    open spec fn infallible() -> bool {
        false
    }
}

/// A repo of raw bytes: what it holds under each key.
pub trait Backend {
    /// The bytes held under each key that is present. Left open unless an
    /// implementation defines it.
    open spec fn entries(&self) -> Map<Seq<u8>, Seq<u8>> {
        arbitrary()
    }
}

/// Turns items of type `T` into bytes.
pub trait Serializer<T>: Fallible {
    /// The bytes that stand for `item`. Left open unless an implementation defines it.
    open spec fn encoding(item: T) -> Seq<u8> {
        arbitrary()
    }

    /// Serializes `item` and returns the buffer that holds its encoding. The buffer
    /// may be reused by the next call.
    fn serialize(&mut self, item: &T) -> (result: Result<&[u8], Self::Error>)
        ensures
            result matches Ok(bytes) ==> bytes@ == Self::encoding(*item),
            Self::infallible() ==> result is Ok,
    ;
}

/// Turns bytes back into items of type `T`. Decoding needs no instance: it depends on
/// the bytes alone.
pub trait Deserializer<T>: Fallible {
    /// Whether `bytes` decode, and to `item`. Left open unless an implementation
    /// defines it.
    open spec fn decodes(bytes: Seq<u8>, item: T) -> bool {
        arbitrary()
    }

    /// Deserializes `bytes`. Fails exactly when they decode to nothing.
    fn deserialize(bytes: Vec<u8>) -> (result: Result<T, Self::Error>)
        ensures
            match result {
                Ok(item) => Self::decodes(bytes@, item),
                Err(_) => forall|item: T| !Self::decodes(bytes@, item),
            },
    ;
}

/// Whether `bytes` decode to some item of type `T`.
pub open spec fn decodable<T, D: Deserializer<T>>(bytes: Seq<u8>) -> bool {
    exists|item: T| D::decodes(bytes, item)
}

/// Writes bytes under a key.
pub trait Write: Fallible + Backend {
    /// Stores `bytes` under `key`, in place of what was there.
    fn write(&mut self, key: &[u8], bytes: &[u8]) -> (result: Result<(), Self::Error>)
        ensures
            result is Ok ==> final(self).entries() == old(self).entries().insert(key@, bytes@),
            Self::infallible() ==> result is Ok,
    ;
}

/// Reads the bytes under a key.
pub trait Read: Fallible + Backend {
    /// The bytes under `key`, or `None` where the key is absent.
    fn read(&self, key: &[u8]) -> (result: Result<Option<Vec<u8>>, Self::Error>)
        ensures
            result matches Ok(found) ==> match found {
                Some(bytes) => self.entries().contains_key(key@) && self.entries()[key@]
                    == bytes@,
                None => !self.entries().contains_key(key@),
            },
            Self::infallible() ==> result is Ok,
    ;
}

/// Tells whether a key is present.
pub trait HasKey: Fallible + Backend {
    /// Whether `key` is present.
    fn has_key(&self, key: &[u8]) -> (result: Result<bool, Self::Error>)
        ensures
            result matches Ok(present) ==> present == self.entries().contains_key(key@),
            Self::infallible() ==> result is Ok,
    ;
}

/// Removes a key.
pub trait Remove: Fallible + Backend {
    /// Removes `key` and what it holds. An absent key is no failure.
    fn remove(&mut self, key: &[u8]) -> (result: Result<(), Self::Error>)
        ensures
            result is Ok ==> final(self).entries() == old(self).entries().remove(key@),
            Self::infallible() ==> result is Ok,
    ;
}

} // verus!
