//! Integer key parts sort as their values do: the byte order of big-endian encodings
//! is the numeric order.

use vstd::prelude::*;
use crate::key::{be_bytes, lemma_be_bytes_len, KeyPart};

verus! {

/// The number of values that `width` bytes can encode.
pub open spec fn limit(width: nat) -> nat
    decreases width,
{
    if width == 0 {
        1
    } else {
        256 * limit((width - 1) as nat)
    }
}

/// Whether `s` comes before `t` when byte strings are ordered byte by byte, a proper
/// prefix before what it is a prefix of.
pub open spec fn lex_less(s: Seq<u8>, t: Seq<u8>) -> bool {
    exists|i: int|
        0 <= i <= s.len() && i < t.len() && #[trigger] s.take(i) == t.take(i) && (i < s.len()
            ==> s[i] < t[i])
}

/// Of two values that fit in `width` bytes, the smaller has the encoding that comes
/// first.
pub proof fn lemma_be_bytes_ordered(a: nat, b: nat, width: nat)
    requires
        a < b < limit(width),
    ensures
        lex_less(be_bytes(a, width), be_bytes(b, width)),
    decreases width,
{
    if width > 0 {
        let less = (width - 1) as nat;
        let s = be_bytes(a / 256, less);
        let t = be_bytes(b / 256, less);
        let x = (a % 256) as u8;
        let y = (b % 256) as u8;
        lemma_be_bytes_len(a / 256, less);
        lemma_be_bytes_len(b / 256, less);
        if a / 256 < b / 256 {
            lemma_be_bytes_ordered(a / 256, b / 256, less);
            let i = choose|i: int|
                0 <= i <= s.len() && i < t.len() && #[trigger] s.take(i) == t.take(i) && (i
                    < s.len() ==> s[i] < t[i]);
            assert(s.push(x).take(i) =~= s.take(i));
            assert(t.push(y).take(i) =~= t.take(i));
        } else {
            assert(a / 256 == b / 256);
            assert(s.push(x).take(less as int) =~= s);
            assert(t.push(y).take(less as int) =~= t);
        }
    }
}

/// No byte string comes before itself, and of two byte strings at most one comes
/// before the other.
pub proof fn lemma_lex_less_one_way(s: Seq<u8>, t: Seq<u8>)
    ensures
        !(lex_less(s, t) && lex_less(t, s)),
        !lex_less(s, s),
{
    if lex_less(s, t) && lex_less(t, s) {
        let i = choose|i: int|
            0 <= i <= s.len() && i < t.len() && #[trigger] s.take(i) == t.take(i) && (i < s.len()
                ==> s[i] < t[i]);
        let j = choose|j: int|
            0 <= j <= t.len() && j < s.len() && #[trigger] t.take(j) == s.take(j) && (j < t.len()
                ==> t[j] < s[j]);
        if i < j {
            assert(t.take(j)[i] == s.take(j)[i]);
        } else if j < i {
            assert(s.take(i)[j] == t.take(i)[j]);
        }
    }
}

/// Of two values that fit in `width` bytes, one is the smaller exactly if its encoding
/// comes first.
pub proof fn lemma_be_bytes_order(a: nat, b: nat, width: nat)
    requires
        a < limit(width),
        b < limit(width),
    ensures
        a < b <==> lex_less(be_bytes(a, width), be_bytes(b, width)),
{
    let s = be_bytes(a, width);
    let t = be_bytes(b, width);
    lemma_lex_less_one_way(s, t);
    if a < b {
        lemma_be_bytes_ordered(a, b, width);
    } else if b < a {
        lemma_be_bytes_ordered(b, a, width);
    }
}

/// Distinct values that fit in `width` bytes have distinct encodings.
pub proof fn lemma_be_bytes_distinct(a: nat, b: nat, width: nat)
    requires
        a < limit(width),
        b < limit(width),
        be_bytes(a, width) == be_bytes(b, width),
    ensures
        a == b,
    decreases width,
{
    if width > 0 {
        let less = (width - 1) as nat;
        let s = be_bytes(a / 256, less);
        let t = be_bytes(b / 256, less);
        assert(s.push((a % 256) as u8).drop_last() =~= s);
        assert(t.push((b % 256) as u8).drop_last() =~= t);
        assert(s.push((a % 256) as u8).last() == (a % 256) as u8);
        assert(t.push((b % 256) as u8).last() == (b % 256) as u8);
        lemma_be_bytes_distinct(a / 256, b / 256, less);
    }
}

/// One-byte keys sort as their values do.
pub proof fn lemma_u8_keys_ordered(a: u8, b: u8)
    ensures
        a < b <==> lex_less(a.part_bytes(), b.part_bytes()),
{
    reveal_with_fuel(limit, 2);
    lemma_be_bytes_order(a as nat, b as nat, 1);
}

/// Two-byte keys sort as their values do.
pub proof fn lemma_u16_keys_ordered(a: u16, b: u16)
    ensures
        a < b <==> lex_less(a.part_bytes(), b.part_bytes()),
{
    reveal_with_fuel(limit, 3);
    lemma_be_bytes_order(a as nat, b as nat, 2);
}

/// Four-byte keys sort as their values do.
pub proof fn lemma_u32_keys_ordered(a: u32, b: u32)
    ensures
        a < b <==> lex_less(a.part_bytes(), b.part_bytes()),
{
    reveal_with_fuel(limit, 5);
    lemma_be_bytes_order(a as nat, b as nat, 4);
}

/// Eight-byte keys sort as their values do.
pub proof fn lemma_u64_keys_ordered(a: u64, b: u64)
    ensures
        a < b <==> lex_less(a.part_bytes(), b.part_bytes()),
{
    reveal_with_fuel(limit, 9);
    lemma_be_bytes_order(a as nat, b as nat, 8);
}

/// Sixteen-byte keys sort as their values do.
pub proof fn lemma_u128_keys_ordered(a: u128, b: u128)
    ensures
        a < b <==> lex_less(a.part_bytes(), b.part_bytes()),
{
    reveal_with_fuel(limit, 17);
    lemma_be_bytes_order(a as nat, b as nat, 16);
}

} // verus!
