//! Composite keys: one byte string built from a prefix and one, two or three key parts.
//!
//! The parts of a tuple are joined by a separator byte. So that distinct tuples never
//! share a key, every part but the last shows where it ends: a number by its fixed
//! length, bytes and text by an escape byte before each separator and each escape byte
//! they hold. A single key and the last part of a tuple are written as they are. Keys
//! written without escaping, in which such a part holds one of the two bytes, are not
//! found again under this encoding: those entries have to be written anew.

use vstd::prelude::*;
use vstd::slice::slice_subrange;
use vstd::utf8::encode_utf8;

verus! {

/// The byte that stands between the parts of a tuple key.
pub const SEPARATOR: u8 = 58;

/// The byte that marks the byte after it as part of the text, where a part that may
/// hold any byte is followed by another part.
pub const ESCAPE: u8 = 27;

/// The widest integer key part, in bytes.
pub const MAX_WIDTH: usize = 16;

/// The big-endian encoding of `value` in `width` bytes: its base-256 digits, the most
/// significant first.
pub open spec fn be_bytes(value: nat, width: nat) -> Seq<u8>
    decreases width,
{
    if width == 0 {
        Seq::empty()
    } else {
        be_bytes(value / 256, (width - 1) as nat).push((value % 256) as u8)
    }
}

/// Two byte strings with the separator between them: the encoding of a two-part key,
/// from the inner encoding of the first part and the encoding of the second.
pub open spec fn joined2(first: Seq<u8>, second: Seq<u8>) -> Seq<u8> {
    first + seq![SEPARATOR] + second
}

/// Three byte strings with separators between them: the encoding of a three-part key,
/// from the inner encodings of the first two parts and the encoding of the third.
pub open spec fn joined3(first: Seq<u8>, second: Seq<u8>, third: Seq<u8>) -> Seq<u8> {
    first + seq![SEPARATOR] + second + seq![SEPARATOR] + third
}

/// One byte of a part that another part follows: the separator and the escape byte
/// are marked by an escape byte before them, every other byte stands for itself.
pub open spec fn escaped_byte(byte: u8) -> Seq<u8> {
    if byte == SEPARATOR || byte == ESCAPE {
        seq![ESCAPE, byte]
    } else {
        seq![byte]
    }
}

/// The bytes of a part that another part follows, each escaped. What holds neither
/// the separator nor the escape byte is unchanged.
pub open spec fn escaped(bytes: Seq<u8>) -> Seq<u8>
    decreases bytes.len(),
{
    if bytes.len() == 0 {
        Seq::empty()
    } else {
        escaped(bytes.drop_last()) + escaped_byte(bytes.last())
    }
}

/// A sink for the parts of a key, of a size fixed in advance.
pub trait WriteKeyPart {
    /// The bytes written so far. Left open unless an implementation defines it.
    open spec fn written(&self) -> Seq<u8> {
        arbitrary()
    }

    /// The number of bytes that can still be written. Left open unless an
    /// implementation defines it.
    open spec fn room(&self) -> nat {
        arbitrary()
    }

    /// Appends `part`. A part longer than the room left is a programming error.
    fn write_key_part(&mut self, part: &[u8])
        requires
            part@.len() <= old(self).room(),
        ensures
            final(self).written() == old(self).written() + part@,
            final(self).room() == old(self).room() - part@.len(),
    ;
}

/// A key of one or more parts that knows its encoded length and can write itself.
pub trait WriteCompositeKey {
    /// The encoding of this key. Left open unless an implementation defines it.
    open spec fn key_bytes(&self) -> Seq<u8> {
        arbitrary()
    }

    /// The length of the encoding.
    fn total_len(&self) -> (len: usize)
        requires
            self.key_bytes().len() <= usize::MAX,
        ensures
            len == self.key_bytes().len(),
    ;

    /// Writes the encoding into `writer`.
    fn write_into<W: WriteKeyPart>(&self, writer: &mut W)
        requires
            self.key_bytes().len() <= old(writer).room(),
        ensures
            final(writer).written() == old(writer).written() + self.key_bytes(),
            final(writer).room() == old(writer).room() - self.key_bytes().len(),
    ;
}

/// A single key part: a value with a byte encoding of its own, and a second form of
/// it that shows where the part ends, for use where another part follows.
pub trait KeyPart {
    /// The encoding of this part.
    spec fn part_bytes(&self) -> Seq<u8>;

    /// The encoding of this part where another part follows it.
    spec fn inner_bytes(&self) -> Seq<u8>;

    /// The length of the encoding.
    fn part_len(&self) -> (len: usize)
        ensures
            len == self.part_bytes().len(),
    ;

    /// Writes the encoding into `writer`.
    fn write_part<W: WriteKeyPart>(&self, writer: &mut W)
        requires
            self.part_bytes().len() <= old(writer).room(),
        ensures
            final(writer).written() == old(writer).written() + self.part_bytes(),
            final(writer).room() == old(writer).room() - self.part_bytes().len(),
    ;

    /// The length of the encoding where another part follows.
    fn inner_len(&self) -> (len: usize)
        requires
            self.inner_bytes().len() <= usize::MAX,
        ensures
            len == self.inner_bytes().len(),
    ;

    /// Writes into `writer` the encoding for where another part follows.
    fn write_inner<W: WriteKeyPart>(&self, writer: &mut W)
        requires
            self.inner_bytes().len() <= old(writer).room(),
        ensures
            final(writer).written() == old(writer).written() + self.inner_bytes(),
            final(writer).room() == old(writer).room() - self.inner_bytes().len(),
    ;

    /// The part ends where its inner encoding says: two parts of this type, each
    /// followed by a separator and more bytes, give the same bytes only if the parts
    /// have the same encoding and the same bytes follow.
    proof fn lemma_delimited(&self, other: &Self, rest: Seq<u8>, other_rest: Seq<u8>)
        requires
            joined2(self.inner_bytes(), rest) == joined2(other.inner_bytes(), other_rest),
        ensures
            self.part_bytes() == other.part_bytes(),
            rest == other_rest,
    ;
}

/// The escaped form of bytes one after another is the escaped forms one after another.
pub proof fn lemma_escaped_concat(first: Seq<u8>, second: Seq<u8>)
    ensures
        escaped(first + second) == escaped(first) + escaped(second),
    decreases second.len(),
{
    if second.len() == 0 {
        assert(first + second =~= first);
        assert(escaped(first) + escaped(second) =~= escaped(first));
    } else {
        lemma_escaped_concat(first, second.drop_last());
        assert((first + second).drop_last() =~= first + second.drop_last());
        assert((first + second).last() == second.last());
        assert(escaped(first) + escaped(second) =~= escaped(first) + escaped(
            second.drop_last(),
        ) + escaped_byte(second.last()));
    }
}

/// Escaped bytes followed by a separator end at that separator: two such byte strings,
/// each with more bytes after, are the same only if the bytes escaped are the same and
/// the same bytes follow.
pub proof fn lemma_escaped_delimited(
    first: Seq<u8>,
    rest: Seq<u8>,
    second: Seq<u8>,
    other_rest: Seq<u8>,
)
    requires
        joined2(escaped(first), rest) == joined2(escaped(second), other_rest),
    ensures
        first == second,
        rest == other_rest,
    decreases first.len(),
{
    let left = joined2(escaped(first), rest);
    let right = joined2(escaped(second), other_rest);
    if first.len() == 0 {
        assert(left[0] == SEPARATOR);
        if second.len() > 0 {
            lemma_escaped_front(second);
            assert(right[0] == escaped_byte(second[0])[0]);
            assert(false);
        }
        assert(rest =~= left.skip(1));
        assert(other_rest =~= right.skip(1));
        assert(first =~= second);
    } else {
        lemma_escaped_front(first);
        let head = escaped_byte(first[0]);
        assert(left[0] == head[0]);
        if second.len() == 0 {
            assert(right[0] == SEPARATOR);
            assert(false);
        }
        lemma_escaped_front(second);
        let other_head = escaped_byte(second[0]);
        assert(right[0] == other_head[0]);
        if head.len() == 2 {
            assert(left[1] == head[1]);
        }
        if other_head.len() == 2 {
            assert(right[1] == other_head[1]);
        }
        assert(first[0] == second[0]);
        let tail = joined2(escaped(first.drop_first()), rest);
        let other_tail = joined2(escaped(second.drop_first()), other_rest);
        assert(tail =~= left.skip(head.len() as int));
        assert(other_tail =~= right.skip(head.len() as int));
        lemma_escaped_delimited(first.drop_first(), rest, second.drop_first(), other_rest);
        assert(first =~= seq![first[0]] + first.drop_first());
        assert(second =~= seq![second[0]] + second.drop_first());
    }
}

/// The escaped form begins with the escaped form of the first byte.
proof fn lemma_escaped_front(bytes: Seq<u8>)
    requires
        bytes.len() > 0,
    ensures
        escaped(bytes) == escaped_byte(bytes[0]) + escaped(bytes.drop_first()),
{
    let first = seq![bytes[0]];
    assert(bytes =~= first + bytes.drop_first());
    lemma_escaped_concat(first, bytes.drop_first());
    assert(first.drop_last() =~= Seq::<u8>::empty());
    assert(escaped(first.drop_last()) =~= Seq::<u8>::empty());
    assert(first.last() == bytes[0]);
    assert(escaped(first) =~= escaped_byte(bytes[0]));
}

/// Parts of one length end where that length says.
pub proof fn lemma_fixed_delimited(
    first: Seq<u8>,
    rest: Seq<u8>,
    second: Seq<u8>,
    other_rest: Seq<u8>,
)
    requires
        first.len() == second.len(),
        joined2(first, rest) == joined2(second, other_rest),
    ensures
        first == second,
        rest == other_rest,
{
    let left = joined2(first, rest);
    let right = joined2(second, other_rest);
    assert(first =~= left.take(first.len() as int));
    assert(second =~= right.take(first.len() as int));
    assert(rest =~= left.skip(first.len() as int + 1));
    assert(other_rest =~= right.skip(first.len() as int + 1));
}

/// The length of the escaped form of `bytes`.
fn escaped_len(bytes: &[u8]) -> (len: usize)
    requires
        escaped(bytes@).len() <= usize::MAX,
    ensures
        len == escaped(bytes@).len(),
{
    let mut len: usize = 0;
    let mut index: usize = 0;
    while index < bytes.len()
        invariant
            index <= bytes@.len(),
            len == escaped(bytes@.take(index as int)).len(),
            escaped(bytes@).len() <= usize::MAX,
        decreases bytes@.len() - index,
    {
        let byte = bytes[index];
        proof {
            let done = bytes@.take(index + 1);
            assert(done.drop_last() =~= bytes@.take(index as int));
            assert(bytes@ =~= done + bytes@.skip(index + 1));
            lemma_escaped_concat(done, bytes@.skip(index + 1));
        }
        if byte == SEPARATOR || byte == ESCAPE {
            len = len + 2;
        } else {
            len = len + 1;
        }
        index = index + 1;
    }
    assert(bytes@.take(index as int) =~= bytes@);
    len
}

/// Whether `bytes` hold neither the separator nor the escape byte.
pub open spec fn plain(bytes: Seq<u8>) -> bool {
    forall|i: int| 0 <= i < bytes.len() ==> bytes[i] != SEPARATOR && bytes[i] != ESCAPE
}

/// What holds neither the separator nor the escape byte is its own escaped form.
pub proof fn lemma_plain_escaped(bytes: Seq<u8>)
    requires
        plain(bytes),
    ensures
        escaped(bytes) == bytes,
    decreases bytes.len(),
{
    if bytes.len() > 0 {
        lemma_plain_escaped(bytes.drop_last());
        assert(bytes =~= bytes.drop_last().push(bytes.last()));
    }
}

/// Whether `bytes` hold neither the separator nor the escape byte.
fn is_plain(bytes: &[u8]) -> (is: bool)
    ensures
        is == plain(bytes@),
{
    let mut index: usize = 0;
    while index < bytes.len()
        invariant
            index <= bytes@.len(),
            forall|i: int| 0 <= i < index ==> bytes@[i] != SEPARATOR && bytes@[i] != ESCAPE,
        decreases bytes@.len() - index,
    {
        if bytes[index] == SEPARATOR || bytes[index] == ESCAPE {
            return false;
        }
        index = index + 1;
    }
    true
}

/// Writes the escaped form of `bytes` into `writer`: in one piece where nothing needs
/// escaping, else byte by byte.
fn write_escaped<W: WriteKeyPart>(bytes: &[u8], writer: &mut W)
    requires
        escaped(bytes@).len() <= old(writer).room(),
    ensures
        final(writer).written() == old(writer).written() + escaped(bytes@),
        final(writer).room() == old(writer).room() - escaped(bytes@).len(),
{
    if is_plain(bytes) {
        proof { lemma_plain_escaped(bytes@); }
        writer.write_key_part(bytes);
        return ;
    }
    let ghost written = writer.written();
    let ghost room = writer.room();
    let mut index: usize = 0;
    assert(writer.written() =~= written + escaped(bytes@.take(0)));
    while index < bytes.len()
        invariant
            index <= bytes@.len(),
            escaped(bytes@).len() <= room,
            writer.written() == written + escaped(bytes@.take(index as int)),
            writer.room() == room - escaped(bytes@.take(index as int)).len(),
        decreases bytes@.len() - index,
    {
        let byte = bytes[index];
        proof {
            let done = bytes@.take(index + 1);
            assert(done.drop_last() =~= bytes@.take(index as int));
            assert(bytes@ =~= done + bytes@.skip(index + 1));
            lemma_escaped_concat(done, bytes@.skip(index + 1));
        }
        if byte == SEPARATOR || byte == ESCAPE {
            let pair: [u8; 2] = [ESCAPE, byte];
            assert(pair@ =~= escaped_byte(byte));
            writer.write_key_part(pair.as_slice());
        } else {
            let single: [u8; 1] = [byte];
            assert(single@ =~= escaped_byte(byte));
            writer.write_key_part(single.as_slice());
        }
        index = index + 1;
        assert(writer.written() =~= written + escaped(bytes@.take(index as int)));
    }
    assert(bytes@.take(index as int) =~= bytes@);
}

impl<'a> KeyPart for &'a [u8] {
    open spec fn part_bytes(&self) -> Seq<u8> {
        self@
    }

    fn part_len(&self) -> (len: usize) {
        self.len()
    }

    fn write_part<W: WriteKeyPart>(&self, writer: &mut W) {
        writer.write_key_part(*self);
    }

    open spec fn inner_bytes(&self) -> Seq<u8> {
        escaped(self@)
    }

    fn inner_len(&self) -> (len: usize) {
        escaped_len(*self)
    }

    fn write_inner<W: WriteKeyPart>(&self, writer: &mut W) {
        write_escaped(*self, writer);
    }

    proof fn lemma_delimited(&self, other: &Self, rest: Seq<u8>, other_rest: Seq<u8>) {
        lemma_escaped_delimited(self.part_bytes(), rest, other.part_bytes(), other_rest);
    }
}

impl<'a> KeyPart for &'a str {
    open spec fn part_bytes(&self) -> Seq<u8> {
        encode_utf8(self@)
    }

    fn part_len(&self) -> (len: usize) {
        self.as_bytes().len()
    }

    fn write_part<W: WriteKeyPart>(&self, writer: &mut W) {
        writer.write_key_part(self.as_bytes());
    }

    open spec fn inner_bytes(&self) -> Seq<u8> {
        escaped(encode_utf8(self@))
    }

    fn inner_len(&self) -> (len: usize) {
        escaped_len(self.as_bytes())
    }

    fn write_inner<W: WriteKeyPart>(&self, writer: &mut W) {
        write_escaped(self.as_bytes(), writer);
    }

    proof fn lemma_delimited(&self, other: &Self, rest: Seq<u8>, other_rest: Seq<u8>) {
        lemma_escaped_delimited(self.part_bytes(), rest, other.part_bytes(), other_rest);
    }
}

impl KeyPart for String {
    open spec fn part_bytes(&self) -> Seq<u8> {
        encode_utf8(self@)
    }

    fn part_len(&self) -> (len: usize) {
        self.as_str().as_bytes().len()
    }

    fn write_part<W: WriteKeyPart>(&self, writer: &mut W) {
        writer.write_key_part(self.as_str().as_bytes());
    }

    open spec fn inner_bytes(&self) -> Seq<u8> {
        escaped(encode_utf8(self@))
    }

    fn inner_len(&self) -> (len: usize) {
        escaped_len(self.as_str().as_bytes())
    }

    fn write_inner<W: WriteKeyPart>(&self, writer: &mut W) {
        write_escaped(self.as_str().as_bytes(), writer);
    }

    proof fn lemma_delimited(&self, other: &Self, rest: Seq<u8>, other_rest: Seq<u8>) {
        lemma_escaped_delimited(self.part_bytes(), rest, other.part_bytes(), other_rest);
    }
}

impl KeyPart for Vec<u8> {
    open spec fn part_bytes(&self) -> Seq<u8> {
        self@
    }

    fn part_len(&self) -> (len: usize) {
        self.len()
    }

    fn write_part<W: WriteKeyPart>(&self, writer: &mut W) {
        writer.write_key_part(self.as_slice());
    }

    open spec fn inner_bytes(&self) -> Seq<u8> {
        escaped(self@)
    }

    fn inner_len(&self) -> (len: usize) {
        escaped_len(self.as_slice())
    }

    fn write_inner<W: WriteKeyPart>(&self, writer: &mut W) {
        write_escaped(self.as_slice(), writer);
    }

    proof fn lemma_delimited(&self, other: &Self, rest: Seq<u8>, other_rest: Seq<u8>) {
        lemma_escaped_delimited(self.part_bytes(), rest, other.part_bytes(), other_rest);
    }
}

/// Writes `value` into `writer` as `width` big-endian bytes.
fn write_be<W: WriteKeyPart>(value: u128, width: usize, writer: &mut W)
    requires
        width <= MAX_WIDTH,
        width <= old(writer).room(),
    ensures
        final(writer).written() == old(writer).written() + be_bytes(value as nat, width as nat),
        final(writer).room() == old(writer).room() - width,
{
    let mut digits: [u8; 16] = [0u8; 16];
    let mut rest: u128 = value;
    let mut index: usize = MAX_WIDTH;
    let first: usize = MAX_WIDTH - width;
    while index > first
        invariant
            first == MAX_WIDTH - width,
            first <= index <= MAX_WIDTH,
            be_bytes(value as nat, width as nat) == be_bytes(rest as nat, (index - first) as nat)
                + digits@.subrange(index as int, MAX_WIDTH as int),
        decreases index,
    {
        index = index - 1;
        digits[index] = (rest % 256) as u8;
        rest = rest / 256;
    }
    let part = slice_subrange(digits.as_slice(), first, MAX_WIDTH);
    writer.write_key_part(part);
}

impl KeyPart for u8 {
    open spec fn part_bytes(&self) -> Seq<u8> {
        be_bytes(*self as nat, 1)
    }

    fn part_len(&self) -> (len: usize) {
        proof { lemma_be_bytes_len(*self as nat, 1); }
        1
    }

    fn write_part<W: WriteKeyPart>(&self, writer: &mut W) {
        proof { lemma_be_bytes_len(*self as nat, 1); }
        write_be(*self as u128, 1, writer);
    }

    /// A part of a fixed length needs no escaping: its length shows where it ends.
    open spec fn inner_bytes(&self) -> Seq<u8> {
        be_bytes(*self as nat, 1)
    }

    fn inner_len(&self) -> (len: usize) {
        proof { lemma_be_bytes_len(*self as nat, 1); }
        1
    }

    fn write_inner<W: WriteKeyPart>(&self, writer: &mut W) {
        proof { lemma_be_bytes_len(*self as nat, 1); }
        write_be(*self as u128, 1, writer);
    }

    proof fn lemma_delimited(&self, other: &Self, rest: Seq<u8>, other_rest: Seq<u8>) {
        lemma_be_bytes_len(*self as nat, 1);
        lemma_be_bytes_len(*other as nat, 1);
        lemma_fixed_delimited(self.part_bytes(), rest, other.part_bytes(), other_rest);
    }
}

impl KeyPart for u16 {
    open spec fn part_bytes(&self) -> Seq<u8> {
        be_bytes(*self as nat, 2)
    }

    fn part_len(&self) -> (len: usize) {
        proof { lemma_be_bytes_len(*self as nat, 2); }
        2
    }

    fn write_part<W: WriteKeyPart>(&self, writer: &mut W) {
        proof { lemma_be_bytes_len(*self as nat, 2); }
        write_be(*self as u128, 2, writer);
    }

    /// A part of a fixed length needs no escaping: its length shows where it ends.
    open spec fn inner_bytes(&self) -> Seq<u8> {
        be_bytes(*self as nat, 2)
    }

    fn inner_len(&self) -> (len: usize) {
        proof { lemma_be_bytes_len(*self as nat, 2); }
        2
    }

    fn write_inner<W: WriteKeyPart>(&self, writer: &mut W) {
        proof { lemma_be_bytes_len(*self as nat, 2); }
        write_be(*self as u128, 2, writer);
    }

    proof fn lemma_delimited(&self, other: &Self, rest: Seq<u8>, other_rest: Seq<u8>) {
        lemma_be_bytes_len(*self as nat, 2);
        lemma_be_bytes_len(*other as nat, 2);
        lemma_fixed_delimited(self.part_bytes(), rest, other.part_bytes(), other_rest);
    }
}

impl KeyPart for u32 {
    open spec fn part_bytes(&self) -> Seq<u8> {
        be_bytes(*self as nat, 4)
    }

    fn part_len(&self) -> (len: usize) {
        proof { lemma_be_bytes_len(*self as nat, 4); }
        4
    }

    fn write_part<W: WriteKeyPart>(&self, writer: &mut W) {
        proof { lemma_be_bytes_len(*self as nat, 4); }
        write_be(*self as u128, 4, writer);
    }

    /// A part of a fixed length needs no escaping: its length shows where it ends.
    open spec fn inner_bytes(&self) -> Seq<u8> {
        be_bytes(*self as nat, 4)
    }

    fn inner_len(&self) -> (len: usize) {
        proof { lemma_be_bytes_len(*self as nat, 4); }
        4
    }

    fn write_inner<W: WriteKeyPart>(&self, writer: &mut W) {
        proof { lemma_be_bytes_len(*self as nat, 4); }
        write_be(*self as u128, 4, writer);
    }

    proof fn lemma_delimited(&self, other: &Self, rest: Seq<u8>, other_rest: Seq<u8>) {
        lemma_be_bytes_len(*self as nat, 4);
        lemma_be_bytes_len(*other as nat, 4);
        lemma_fixed_delimited(self.part_bytes(), rest, other.part_bytes(), other_rest);
    }
}

impl KeyPart for u64 {
    open spec fn part_bytes(&self) -> Seq<u8> {
        be_bytes(*self as nat, 8)
    }

    fn part_len(&self) -> (len: usize) {
        proof { lemma_be_bytes_len(*self as nat, 8); }
        8
    }

    fn write_part<W: WriteKeyPart>(&self, writer: &mut W) {
        proof { lemma_be_bytes_len(*self as nat, 8); }
        write_be(*self as u128, 8, writer);
    }

    /// A part of a fixed length needs no escaping: its length shows where it ends.
    open spec fn inner_bytes(&self) -> Seq<u8> {
        be_bytes(*self as nat, 8)
    }

    fn inner_len(&self) -> (len: usize) {
        proof { lemma_be_bytes_len(*self as nat, 8); }
        8
    }

    fn write_inner<W: WriteKeyPart>(&self, writer: &mut W) {
        proof { lemma_be_bytes_len(*self as nat, 8); }
        write_be(*self as u128, 8, writer);
    }

    proof fn lemma_delimited(&self, other: &Self, rest: Seq<u8>, other_rest: Seq<u8>) {
        lemma_be_bytes_len(*self as nat, 8);
        lemma_be_bytes_len(*other as nat, 8);
        lemma_fixed_delimited(self.part_bytes(), rest, other.part_bytes(), other_rest);
    }
}

impl KeyPart for u128 {
    open spec fn part_bytes(&self) -> Seq<u8> {
        be_bytes(*self as nat, 16)
    }

    fn part_len(&self) -> (len: usize) {
        proof { lemma_be_bytes_len(*self as nat, 16); }
        16
    }

    fn write_part<W: WriteKeyPart>(&self, writer: &mut W) {
        proof { lemma_be_bytes_len(*self as nat, 16); }
        write_be(*self, 16, writer);
    }

    /// A part of a fixed length needs no escaping: its length shows where it ends.
    open spec fn inner_bytes(&self) -> Seq<u8> {
        be_bytes(*self as nat, 16)
    }

    fn inner_len(&self) -> (len: usize) {
        proof { lemma_be_bytes_len(*self as nat, 16); }
        16
    }

    fn write_inner<W: WriteKeyPart>(&self, writer: &mut W) {
        proof { lemma_be_bytes_len(*self as nat, 16); }
        write_be(*self, 16, writer);
    }

    proof fn lemma_delimited(&self, other: &Self, rest: Seq<u8>, other_rest: Seq<u8>) {
        lemma_be_bytes_len(*self as nat, 16);
        lemma_be_bytes_len(*other as nat, 16);
        lemma_fixed_delimited(self.part_bytes(), rest, other.part_bytes(), other_rest);
    }
}

impl<T: KeyPart> WriteCompositeKey for T {
    open spec fn key_bytes(&self) -> Seq<u8> {
        self.part_bytes()
    }

    fn total_len(&self) -> (len: usize) {
        self.part_len()
    }

    fn write_into<W: WriteKeyPart>(&self, writer: &mut W) {
        self.write_part(writer);
    }
}

impl<T1: KeyPart, T2: KeyPart> WriteCompositeKey for (T1, T2) {
    open spec fn key_bytes(&self) -> Seq<u8> {
        joined2(self.0.inner_bytes(), self.1.part_bytes())
    }

    fn total_len(&self) -> (len: usize) {
        self.0.inner_len() + self.1.part_len() + 1
    }

    fn write_into<W: WriteKeyPart>(&self, writer: &mut W) {
        let separator: [u8; 1] = [SEPARATOR];
        self.0.write_inner(writer);
        writer.write_key_part(separator.as_slice());
        self.1.write_part(writer);
        assert(separator@ =~= seq![SEPARATOR]);
    }
}

impl<T1: KeyPart, T2: KeyPart, T3: KeyPart> WriteCompositeKey for (T1, T2, T3) {
    open spec fn key_bytes(&self) -> Seq<u8> {
        joined3(self.0.inner_bytes(), self.1.inner_bytes(), self.2.part_bytes())
    }

    fn total_len(&self) -> (len: usize) {
        self.0.inner_len() + self.1.inner_len() + self.2.part_len() + 2
    }

    fn write_into<W: WriteKeyPart>(&self, writer: &mut W) {
        let separator: [u8; 1] = [SEPARATOR];
        self.0.write_inner(writer);
        writer.write_key_part(separator.as_slice());
        self.1.write_inner(writer);
        writer.write_key_part(separator.as_slice());
        self.2.write_part(writer);
        assert(separator@ =~= seq![SEPARATOR]);
    }
}

/// Where the bytes of a composite key lie: in a buffer of `N` bytes held in place, of
/// which the first `len` are the key, or in a buffer allocated at the key's length.
enum CompositeKeyBuffer<const N: usize> {
    Stack { buffer: [u8; N], len: usize },
    Heap(Vec<u8>),
}

impl<const N: usize> CompositeKeyBuffer<N> {
    spec fn wf(&self) -> bool {
        match self {
            CompositeKeyBuffer::Stack { buffer, len } => *len <= N && buffer@.len() == N,
            CompositeKeyBuffer::Heap(bytes) => bytes@.len() > N,
        }
    }

    spec fn bytes(&self) -> Seq<u8> {
        match self {
            CompositeKeyBuffer::Stack { buffer, len } => buffer@.take(*len as int),
            CompositeKeyBuffer::Heap(bytes) => bytes@,
        }
    }

    fn as_ref(&self) -> (bytes: &[u8])
        requires
            self.wf(),
        ensures
            bytes@ == self.bytes(),
    {
        match self {
            CompositeKeyBuffer::Stack { buffer, len } => slice_subrange(buffer.as_slice(), 0, *len),
            CompositeKeyBuffer::Heap(bytes) => bytes.as_slice(),
        }
    }

    /// Stores `byte` at `index`.
    fn put(&mut self, index: usize, byte: u8)
        requires
            old(self).wf(),
            index < old(self).bytes().len(),
        ensures
            final(self).wf(),
            final(self).bytes() == old(self).bytes().update(index as int, byte),
            *final(self) is Stack <==> *old(self) is Stack,
        no_unwind
    {
        match self {
            CompositeKeyBuffer::Stack { buffer, len } => {
                buffer[index] = byte;
            },
            CompositeKeyBuffer::Heap(bytes) => {
                bytes[index] = byte;
            },
        }
    }
}

/// A composite key under construction or complete: a buffer of the key's full length
/// and the count of bytes written into it. With `N` or fewer bytes the key is held in
/// place; a longer one is allocated.
pub struct CompositeKey<const N: usize> {
    buffer: CompositeKeyBuffer<N>,
    written: usize,
}

impl<const N: usize> View for CompositeKey<N> {
    type V = Seq<u8>;

    /// The bytes of the key, at its full length.
    closed spec fn view(&self) -> Seq<u8> {
        self.buffer.bytes()
    }
}

impl<const N: usize> CompositeKey<N> {
    #[verifier::type_invariant]
    spec fn inv(&self) -> bool {
        &&& self.buffer.wf()
        &&& self.written <= self.buffer.bytes().len()
    }

    /// Whether the key is held in place, without allocation.
    pub closed spec fn is_inline(&self) -> bool {
        self.buffer is Stack
    }

    /// The number of bytes written so far.
    pub closed spec fn filled(&self) -> nat {
        self.written as nat
    }

    /// An empty key of `len` bytes, all zero and none written yet. No buffer is longer
    /// than `isize::MAX` bytes.
    pub fn new(len: usize) -> (key: Self)
        requires
            len <= isize::MAX,
        ensures
            key@ == Seq::new(len as nat, |i: int| 0u8),
            key.filled() == 0,
            key.written() == Seq::<u8>::empty(),
            key.room() == len,
            key.is_inline() <==> len <= N,
    {
        let buffer = if len > N {
            let mut bytes: Vec<u8> = Vec::with_capacity(len);
            while bytes.len() < len
                invariant
                    bytes@.len() <= len,
                    forall|i: int| 0 <= i < bytes@.len() ==> bytes@[i] == 0u8,
                decreases len - bytes@.len(),
            {
                bytes.push(0u8);
            }
            CompositeKeyBuffer::Heap(bytes)
        } else {
            CompositeKeyBuffer::Stack { buffer: [0u8; N], len }
        };
        assert(buffer.bytes() =~= Seq::new(len as nat, |i: int| 0u8));
        CompositeKey { buffer, written: 0 }
    }

    /// The bytes of the key.
    pub fn as_ref(&self) -> (bytes: &[u8])
        ensures
            bytes@ == self@,
    {
        proof { use_type_invariant(self); }
        self.buffer.as_ref()
    }

    /// Whether the key is held in place, without allocation.
    pub fn inline(&self) -> (held: bool)
        ensures
            held == self.is_inline(),
    {
        match &self.buffer {
            CompositeKeyBuffer::Stack { .. } => true,
            CompositeKeyBuffer::Heap(_) => false,
        }
    }
}

impl<const N: usize> WriteKeyPart for CompositeKey<N> {
    /// The bytes of the key as far as it is filled.
    open spec fn written(&self) -> Seq<u8> {
        self@.take(self.filled() as int)
    }

    /// The bytes of the key that are not filled yet.
    open spec fn room(&self) -> nat {
        (self@.len() - self.filled()) as nat
    }

    /// Copies `part` to where the filled bytes end. The bytes before and after it, the
    /// length of the key and where it is held stay as they were.
    fn write_key_part(&mut self, part: &[u8])
        ensures
            final(self).filled() == old(self).filled() + part@.len(),
            final(self).filled() <= final(self)@.len(),
            final(self)@.len() == old(self)@.len(),
            final(self)@.skip(final(self).filled() as int) == old(self)@.skip(
                final(self).filled() as int,
            ),
            final(self).is_inline() <==> old(self).is_inline(),
    {
        proof { use_type_invariant(&*self); }
        let ghost before = self.buffer.bytes();
        assert(before.len() <= usize::MAX) by {
            match self.buffer {
                CompositeKeyBuffer::Stack { buffer, len } => {
                    assert(buffer@.take(len as int).len() == len);
                },
                CompositeKeyBuffer::Heap(bytes) => {
                    assert(bytes@.len() == bytes.len());
                },
            }
        }
        let start: usize = self.written;
        let mut index: usize = 0;
        while index < part.len()
            invariant
                index <= part@.len(),
                start + part@.len() <= before.len() <= usize::MAX,
                self.written == start,
                self.buffer.wf(),
                self.buffer.bytes().len() == before.len(),
                self.buffer.bytes().take(start as int) == before.take(start as int),
                self.buffer.bytes().subrange(start as int, start + index) == part@.take(index as int),
                self.buffer.bytes().skip(start + part@.len()) == before.skip(start + part@.len()),
                self.buffer is Stack <==> old(self).buffer is Stack,
            decreases part@.len() - index,
        {
            let ghost so_far = self.buffer.bytes();
            self.buffer.put(start + index, part[index]);
            index = index + 1;
            assert(self.buffer.bytes().take(start as int) =~= so_far.take(start as int));
            assert(self.buffer.bytes().subrange(start as int, start + index) =~= part@.take(
                index as int,
            ));
            assert(self.buffer.bytes().skip(start + part@.len()) =~= so_far.skip(
                start + part@.len(),
            ));
        }
        self.written = start + part.len();
        assert(part@.take(part@.len() as int) =~= part@);
        assert(self.buffer.bytes().take(self.written as int) =~= before.take(start as int) + part@);
    }
}

/// The composite key of `keys` under `prefix`: the prefix, then the encoding of the key.
pub open spec fn composed(prefix: Seq<u8>, key: Seq<u8>) -> Seq<u8> {
    prefix + key
}

/// Builds the composite key of `keys` under `prefix`: in place where it has `N` bytes
/// or fewer, allocated otherwise. No buffer is longer than `isize::MAX` bytes.
pub fn compose_key<const N: usize, K: WriteCompositeKey>(prefix: &[u8], keys: &K) -> (key:
    CompositeKey<N>)
    requires
        prefix@.len() + keys.key_bytes().len() <= isize::MAX,
    ensures
        key@ == composed(prefix@, keys.key_bytes()),
        key.filled() == key@.len(),
        key.is_inline() <==> key@.len() <= N,
{
    let total_len = prefix.len() + keys.total_len();
    let mut composite_key = CompositeKey::new(total_len);
    composite_key.write_key_part(prefix);
    keys.write_into(&mut composite_key);
    proof { use_type_invariant(&composite_key); }
    assert(composite_key@.take(composite_key@.len() as int) =~= composite_key@);
    composite_key
}

/// Keys built from one prefix and one key hold the same bytes, whatever capacity each
/// was built with and wherever its bytes are held; with one capacity they are held
/// alike.
pub proof fn lemma_built_alike<const N: usize, const M: usize, K: WriteCompositeKey>(
    prefix: Seq<u8>,
    key: K,
    first: CompositeKey<N>,
    second: CompositeKey<M>,
)
    requires
        first@ == composed(prefix, key.key_bytes()),
        first.is_inline() <==> first@.len() <= N,
        second@ == composed(prefix, key.key_bytes()),
        second.is_inline() <==> second@.len() <= M,
    ensures
        first@ == second@,
        N == M ==> first.is_inline() == second.is_inline(),
{
}

/// A big-endian encoding has as many bytes as its width.
pub proof fn lemma_be_bytes_len(value: nat, width: nat)
    ensures
        be_bytes(value, width).len() == width,
    decreases width,
{
    if width > 0 {
        lemma_be_bytes_len(value / 256, (width - 1) as nat);
    }
}

} // verus!
