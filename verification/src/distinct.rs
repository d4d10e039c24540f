//! Distinct keys have distinct encodings. In a tuple every part but the last shows
//! where it ends: a part of a fixed length by that length, any other by escaping the
//! separator. So no two tuples share a composite key, whatever bytes their parts hold.

use vstd::prelude::*;
use vstd::utf8::encode_utf8_decode_utf8;
use crate::key::{composed, joined2, KeyPart, WriteCompositeKey};
use crate::order::{lemma_be_bytes_distinct, limit};

verus! {

/// Under one prefix, keys with distinct encodings have distinct composite keys.
pub proof fn lemma_composed_distinct(prefix: Seq<u8>, key1: Seq<u8>, key2: Seq<u8>)
    requires
        composed(prefix, key1) == composed(prefix, key2),
    ensures
        key1 == key2,
{
    assert(key1 =~= composed(prefix, key1).skip(prefix.len() as int));
    assert(key2 =~= composed(prefix, key2).skip(prefix.len() as int));
}

/// Two pairs with one composite key under one prefix have the same parts.
pub proof fn lemma_pairs_distinct<T1: KeyPart, T2: KeyPart>(
    prefix: Seq<u8>,
    first: (T1, T2),
    second: (T1, T2),
)
    requires
        composed(prefix, first.key_bytes()) == composed(prefix, second.key_bytes()),
    ensures
        first.0.part_bytes() == second.0.part_bytes(),
        first.1.part_bytes() == second.1.part_bytes(),
{
    lemma_composed_distinct(prefix, first.key_bytes(), second.key_bytes());
    first.0.lemma_delimited(&second.0, first.1.part_bytes(), second.1.part_bytes());
}

/// Two triples with one composite key under one prefix have the same parts.
pub proof fn lemma_triples_distinct<T1: KeyPart, T2: KeyPart, T3: KeyPart>(
    prefix: Seq<u8>,
    first: (T1, T2, T3),
    second: (T1, T2, T3),
)
    requires
        composed(prefix, first.key_bytes()) == composed(prefix, second.key_bytes()),
    ensures
        first.0.part_bytes() == second.0.part_bytes(),
        first.1.part_bytes() == second.1.part_bytes(),
        first.2.part_bytes() == second.2.part_bytes(),
{
    lemma_composed_distinct(prefix, first.key_bytes(), second.key_bytes());
    let rest = joined2(first.1.inner_bytes(), first.2.part_bytes());
    let other_rest = joined2(second.1.inner_bytes(), second.2.part_bytes());
    assert(first.key_bytes() =~= joined2(first.0.inner_bytes(), rest));
    assert(second.key_bytes() =~= joined2(second.0.inner_bytes(), other_rest));
    first.0.lemma_delimited(&second.0, rest, other_rest);
    first.1.lemma_delimited(&second.1, first.2.part_bytes(), second.2.part_bytes());
}

/// Texts with one encoding are the same text.
pub proof fn lemma_texts_distinct(first: &str, second: &str)
    requires
        first.part_bytes() == second.part_bytes(),
    ensures
        first@ == second@,
{
    encode_utf8_decode_utf8(first@);
    encode_utf8_decode_utf8(second@);
}

/// Owned texts with one encoding are the same text.
pub proof fn lemma_strings_distinct(first: String, second: String)
    requires
        first.part_bytes() == second.part_bytes(),
    ensures
        first@ == second@,
{
    encode_utf8_decode_utf8(first@);
    encode_utf8_decode_utf8(second@);
}

/// One-byte numbers with one encoding are the same number.
pub proof fn lemma_u8_distinct(first: u8, second: u8)
    requires
        first.part_bytes() == second.part_bytes(),
    ensures
        first == second,
{
    reveal_with_fuel(limit, 2);
    lemma_be_bytes_distinct(first as nat, second as nat, 1);
}

/// Two-byte numbers with one encoding are the same number.
pub proof fn lemma_u16_distinct(first: u16, second: u16)
    requires
        first.part_bytes() == second.part_bytes(),
    ensures
        first == second,
{
    reveal_with_fuel(limit, 3);
    lemma_be_bytes_distinct(first as nat, second as nat, 2);
}

/// Four-byte numbers with one encoding are the same number.
pub proof fn lemma_u32_distinct(first: u32, second: u32)
    requires
        first.part_bytes() == second.part_bytes(),
    ensures
        first == second,
{
    reveal_with_fuel(limit, 5);
    lemma_be_bytes_distinct(first as nat, second as nat, 4);
}

/// Eight-byte numbers with one encoding are the same number.
pub proof fn lemma_u64_distinct(first: u64, second: u64)
    requires
        first.part_bytes() == second.part_bytes(),
    ensures
        first == second,
{
    reveal_with_fuel(limit, 9);
    lemma_be_bytes_distinct(first as nat, second as nat, 8);
}

/// Sixteen-byte numbers with one encoding are the same number.
pub proof fn lemma_u128_distinct(first: u128, second: u128)
    requires
        first.part_bytes() == second.part_bytes(),
    ensures
        first == second,
{
    reveal_with_fuel(limit, 17);
    lemma_be_bytes_distinct(first as nat, second as nat, 16);
}

} // verus!
