//! A serializer in the bincode format, for numbers and text.
//!
//! A number is its sixteen bytes, the least significant first. A text is the count of
//! its UTF-8 bytes, as eight bytes with the least significant first, and then those
//! bytes. Decoding reads an item from the front and passes over what follows it.

use vstd::prelude::*;
use vstd::bytes::{
    lemma_auto_spec_u128_to_from_le_bytes,
    lemma_auto_spec_u64_to_from_le_bytes,
    spec_u128_from_le_bytes,
    spec_u128_to_le_bytes,
    spec_u64_from_le_bytes,
    spec_u64_to_le_bytes,
};
use vstd::utf8::{decode_utf8, encode_utf8, encode_utf8_decode_utf8, encode_utf8_valid_utf8, valid_utf8};
use crate::capability::{Deserializer, Fallible, Serializer};
use crate::history::faithful;
use crate::storage::{loads, undecodable};

verus! {

/// `bincode::ErrorKind`, the cause of a failure of bincode. It is handed on unread.
#[verifier::external_type_specification]
#[verifier::external_body]
pub struct ExErrorKind(bincode::ErrorKind);

/// The bytes of a number.
pub open spec fn number_bytes(number: u128) -> Seq<u8> {
    spec_u128_to_le_bytes(number)
}

/// Whether `bytes` begin with a number.
pub open spec fn number_framed(bytes: Seq<u8>) -> bool {
    bytes.len() >= 16
}

/// The number that `bytes` begin with.
pub open spec fn number_of(bytes: Seq<u8>) -> u128 {
    spec_u128_from_le_bytes(bytes.take(16))
}

/// The bytes of a text.
pub open spec fn text_bytes(text: Seq<char>) -> Seq<u8> {
    spec_u64_to_le_bytes(encode_utf8(text).len() as u64) + encode_utf8(text)
}

/// The count that `bytes` begin with.
pub open spec fn text_len(bytes: Seq<u8>) -> nat {
    spec_u64_from_le_bytes(bytes.take(8)) as nat
}

/// The UTF-8 bytes of the text that `bytes` begin with.
pub open spec fn text_payload(bytes: Seq<u8>) -> Seq<u8> {
    bytes.subrange(8, 8 + text_len(bytes) as int)
}

/// Whether `bytes` begin with a text: a count, and as many bytes of valid UTF-8.
pub open spec fn text_framed(bytes: Seq<u8>) -> bool {
    &&& bytes.len() >= 8
    &&& 8 + text_len(bytes) <= bytes.len()
    &&& valid_utf8(text_payload(bytes))
}

/// The text that `bytes` begin with.
pub open spec fn text_of(bytes: Seq<u8>) -> Seq<char> {
    decode_utf8(text_payload(bytes))
}

/// Calls `bincode::serialize_into` on a number, with `buffer` as the writer. With the
/// fixed-width, little-endian configuration of that function the call appends the
/// sixteen bytes of the number. Writing to a vector does not fail and no size limit is
/// set, so the call succeeds.
#[verifier::external_body]
fn encode_number_into(buffer: &mut Vec<u8>, number: &u128) -> (result: Result<
    (),
    Box<bincode::ErrorKind>,
>)
    ensures
        result is Ok,
        final(buffer)@ == old(buffer)@ + number_bytes(*number),
{
    bincode::serialize_into(buffer, number)
}

/// Calls `bincode::serialize_into` on a text, with `buffer` as the writer. The call
/// appends the count of the text's UTF-8 bytes as eight little-endian bytes, then the
/// bytes themselves, and succeeds for the reasons given for numbers.
#[verifier::external_body]
fn encode_text_into(buffer: &mut Vec<u8>, text: &String) -> (result: Result<
    (),
    Box<bincode::ErrorKind>,
>)
    ensures
        result is Ok,
        final(buffer)@ == old(buffer)@ + text_bytes(text@),
{
    bincode::serialize_into(buffer, text)
}

/// Calls `bincode::deserialize` for a number. The call reads sixteen little-endian
/// bytes from the front, fails where there are fewer, and ignores what follows.
#[verifier::external_body]
fn decode_number(bytes: &[u8]) -> (result: Result<u128, Box<bincode::ErrorKind>>)
    ensures
        match result {
            Ok(number) => number_framed(bytes@) && number == number_of(bytes@),
            Err(_) => !number_framed(bytes@),
        },
{
    bincode::deserialize(bytes)
}

/// Calls `bincode::deserialize` for a text. The call reads an eight-byte little-endian
/// count and as many bytes after it, and ignores what follows. It fails where the
/// bytes run short or those read are not valid UTF-8.
#[verifier::external_body]
fn decode_text(bytes: &[u8]) -> (result: Result<String, Box<bincode::ErrorKind>>)
    ensures
        match result {
            Ok(text) => text_framed(bytes@) && text@ == text_of(bytes@),
            Err(_) => !text_framed(bytes@),
        },
{
    bincode::deserialize(bytes)
}

/// A bincode serializer with a buffer of its own, reused from one item to the next.
pub struct Bincode {
    buffer: Vec<u8>,
}

impl Bincode {
    /// The bytes in the buffer: the encoding of the item serialized last.
    pub closed spec fn buffered(&self) -> Seq<u8> {
        self.buffer@
    }

    /// A serializer with an empty buffer.
    pub fn new() -> (serde: Self)
        ensures
            serde.buffered() == Seq::<u8>::empty(),
    {
        Self { buffer: Vec::new() }
    }

    /// A serializer that reuses `buffer`.
    pub fn new_with_buffer(buffer: Vec<u8>) -> (serde: Self)
        ensures
            serde.buffered() == buffer@,
    {
        Self { buffer }
    }

    /// A serializer whose buffer has room for `capacity` bytes.
    pub fn new_with_capacity(capacity: usize) -> (serde: Self)
        requires
            capacity <= isize::MAX,
        ensures
            serde.buffered() == Seq::<u8>::empty(),
    {
        Self { buffer: Vec::with_capacity(capacity) }
    }
}

impl Default for Bincode {
    fn default() -> (serde: Self)
        ensures
            serde.buffered() == Seq::<u8>::empty(),
    {
        Bincode::new()
    }
}

impl Fallible for Bincode {
    type Error = Box<bincode::ErrorKind>;

    open spec fn infallible() -> bool {
        true
    }
}

impl Serializer<u128> for Bincode {
    open spec fn encoding(item: u128) -> Seq<u8> {
        number_bytes(item)
    }

    /// Never fails. The buffer then holds the encoding.
    fn serialize(&mut self, item: &u128) -> (result: Result<&[u8], Box<bincode::ErrorKind>>)
        ensures
            result is Ok,
            final(self).buffered() == number_bytes(*item),
    {
        self.buffer.clear();
        match encode_number_into(&mut self.buffer, item) {
            Err(cause) => Err(cause),
            Ok(()) => Ok(self.buffer.as_slice()),
        }
    }
}

impl Serializer<String> for Bincode {
    open spec fn encoding(item: String) -> Seq<u8> {
        text_bytes(item@)
    }

    /// Never fails. The buffer then holds the encoding.
    fn serialize(&mut self, item: &String) -> (result: Result<&[u8], Box<bincode::ErrorKind>>)
        ensures
            result is Ok,
            final(self).buffered() == text_bytes(item@),
    {
        self.buffer.clear();
        match encode_text_into(&mut self.buffer, item) {
            Err(cause) => Err(cause),
            Ok(()) => Ok(self.buffer.as_slice()),
        }
    }
}

impl Deserializer<u128> for Bincode {
    open spec fn decodes(bytes: Seq<u8>, item: u128) -> bool {
        number_framed(bytes) && item == number_of(bytes)
    }

    /// Fails exactly where fewer than sixteen bytes are given: where nothing decodes.
    fn deserialize(bytes: Vec<u8>) -> (result: Result<u128, Box<bincode::ErrorKind>>) {
        decode_number(bytes.as_slice())
    }
}

impl Deserializer<String> for Bincode {
    open spec fn decodes(bytes: Seq<u8>, item: String) -> bool {
        text_framed(bytes) && item@ == text_of(bytes)
    }

    /// Fails exactly where the bytes do not begin with a text: where nothing decodes.
    fn deserialize(bytes: Vec<u8>) -> (result: Result<String, Box<bincode::ErrorKind>>) {
        decode_text(bytes.as_slice())
    }
}

/// The encoding of a number decodes to that number and no other.
pub proof fn lemma_number_round_trip(number: u128)
    ensures
        number_framed(number_bytes(number)),
        number_of(number_bytes(number)) == number,
        faithful::<u128, Bincode>(number),
{
    lemma_auto_spec_u128_to_from_le_bytes();
    let bytes = number_bytes(number);
    assert(bytes.len() == 16);
    assert(bytes.take(16) =~= bytes);
    assert(<Bincode as Deserializer<u128>>::decodes(bytes, number));
}

/// The encoding of a text decodes to that text and no other.
pub proof fn lemma_text_round_trip(text: String)
    requires
        encode_utf8(text@).len() <= u64::MAX,
    ensures
        text_framed(text_bytes(text@)),
        text_of(text_bytes(text@)) == text@,
        faithful::<String, Bincode>(text),
{
    lemma_auto_spec_u64_to_from_le_bytes();
    encode_utf8_valid_utf8(text@);
    encode_utf8_decode_utf8(text@);
    let payload = encode_utf8(text@);
    let count = spec_u64_to_le_bytes(payload.len() as u64);
    let bytes = text_bytes(text@);
    assert(count.len() == 8);
    assert(bytes.take(8) =~= count);
    assert(text_len(bytes) == payload.len());
    assert(text_payload(bytes) =~= payload);
    assert(<Bincode as Deserializer<String>>::decodes(bytes, text));
}

/// A number saved under a key is the number then loaded from it: the bytes under the
/// key decode, and to that number.
pub proof fn lemma_number_saved_is_loaded(
    before: Map<Seq<u8>, Seq<u8>>,
    key: Seq<u8>,
    number: u128,
    found: Option<u128>,
)
    requires
        loads::<u128, Bincode>(before.insert(key, number_bytes(number)), key, found),
    ensures
        !undecodable::<u128, Bincode>(before.insert(key, number_bytes(number)), key),
        found == Some(number),
{
    lemma_number_round_trip(number);
}

/// A text saved under a key is the text then loaded from it: the bytes under the key
/// decode, and to that text.
pub proof fn lemma_text_saved_is_loaded(
    before: Map<Seq<u8>, Seq<u8>>,
    key: Seq<u8>,
    text: String,
    found: Option<String>,
)
    requires
        encode_utf8(text@).len() <= u64::MAX,
        loads::<String, Bincode>(before.insert(key, text_bytes(text@)), key, found),
    ensures
        !undecodable::<String, Bincode>(before.insert(key, text_bytes(text@)), key),
        found matches Some(loaded) && loaded@ == text@,
{
    lemma_text_round_trip(text);
}

} // verus!
