//! Deterministic object identifiers: a hash of what an object is and is called,
//! in the shape of a UUID.

use vstd::prelude::*;
use vstd::utf8::encode_utf8;

use crate::numeral::{hex, hex_digit, hex_of, lemma_hex_len};
use crate::text::cat3;

verus! {

/// The FNV-1a hash of the first `n` bytes, from a given start.
pub open spec fn fnv_of(seed: u64, bytes: Seq<u8>, n: nat) -> u64
    decreases n,
{
    if n == 0 {
        seed
    } else {
        (fnv_of(seed, bytes, (n - 1) as nat) ^ (bytes[n - 1] as u64)).wrapping_mul(
            0x0000_0100_0000_01B3,
        )
    }
}

pub fn fnv1a(seed: u64, bytes: &[u8]) -> (r: u64)
    ensures
        r == fnv_of(seed, bytes@, bytes@.len()),
{
    let mut hash = seed;
    let mut i: usize = 0;
    while i < bytes.len()
        invariant
            i <= bytes.len(),
            hash == fnv_of(seed, bytes@, i as nat),
        decreases bytes.len() - i,
    {
        hash = (hash ^ (bytes[i] as u64)).wrapping_mul(0x0000_0100_0000_01B3);
        i = i + 1;
    }
    hash
}

/// The high half: the version nibble is 4.
pub open spec fn high_of(h: u64) -> u64 {
    (h & 0xFFFF_FFFF_FFFF_0FFF) | 0x0000_0000_0000_4000
}

/// The low half: the variant bits are 10.
pub open spec fn low_of(h: u64) -> u64 {
    (h & 0x3FFF_FFFF_FFFF_FFFF) | 0x8000_0000_0000_0000
}

/// The two halves in hexadecimal, grouped as a UUID is.
pub open spec fn grouped_of(hi: u64, lo: u64) -> Seq<char> {
    hex_of((hi >> 32) as nat, 8) + "-"@ + hex_of(((hi >> 16) & 0xFFFF) as nat, 4) + "-"@ + hex_of(
        (hi & 0xFFFF) as nat,
        4,
    ) + "-"@ + hex_of((lo >> 48) as nat, 4) + "-"@ + hex_of((lo & 0xFFFF_FFFF_FFFF) as nat, 12)
}

/// The identifier of a tag.
pub open spec fn uuid_of(tag: Seq<char>) -> Seq<char> {
    let bytes = encode_utf8(tag);
    grouped_of(
        high_of(fnv_of(0xcbf2_9ce4_8422_2325, bytes, bytes.len())),
        low_of(fnv_of(0x6c62_272e_07bb_0142, bytes, bytes.len())),
    )
}

pub fn uuid(tag: &str) -> (r: String)
    ensures
        r@ == uuid_of(tag@),
{
    let bytes = tag.as_bytes();
    let hi = (fnv1a(0xcbf2_9ce4_8422_2325, bytes) & 0xFFFF_FFFF_FFFF_0FFF) | 0x0000_0000_0000_4000;
    let lo = (fnv1a(0x6c62_272e_07bb_0142, bytes) & 0x3FFF_FFFF_FFFF_FFFF) | 0x8000_0000_0000_0000;
    let a = hex(hi >> 32, 8);
    let b = hex((hi >> 16) & 0xFFFF, 4);
    let c = hex(hi & 0xFFFF, 4);
    let d = hex(lo >> 48, 4);
    let e = hex(lo & 0xFFFF_FFFF_FFFF, 12);
    let ab = cat3(a.as_str(), "-", b.as_str());
    let abc = cat3(ab.as_str(), "-", c.as_str());
    let abcd = cat3(abc.as_str(), "-", d.as_str());
    cat3(abcd.as_str(), "-", e.as_str())
}

proof fn lemma_high_nibble(h: u64)
    by (bit_vector)
    ensures
        (((h & 0xFFFF_FFFF_FFFF_0FFF) | 0x4000) & 0xFFFF) >> 12 == 4,
{
}

proof fn lemma_low_nibble(h: u64)
    by (bit_vector)
    ensures
        8 <= (((h & 0x3FFF_FFFF_FFFF_FFFF) | 0x8000_0000_0000_0000) >> 48) >> 12 <= 11,
{
}

proof fn lemma_shift12(x: u64)
    by (bit_vector)
    ensures
        x >> 12 == x / 4096,
{
}

proof fn lemma_first_nibble(n: nat)
    ensures
        hex_of(n, 4)[0] == hex_digit((n / 4096 % 16) as int),
{
    reveal_with_fuel(hex_of, 5);
    assert(n / 16 / 16 / 16 == n / 4096);
}

/// Every identifier has the shape of a version 4 UUID: 36 characters, dashes
/// after the 8th, 12th, 16th and 20th digit, the version digit 4, and a variant
/// digit from 8 to b.
pub proof fn lemma_uuid_shape(tag: Seq<char>)
    ensures
        uuid_of(tag).len() == 36,
        uuid_of(tag)[8] == '-',
        uuid_of(tag)[13] == '-',
        uuid_of(tag)[18] == '-',
        uuid_of(tag)[23] == '-',
        uuid_of(tag)[14] == '4',
        uuid_of(tag)[19] == '8' || uuid_of(tag)[19] == '9' || uuid_of(tag)[19] == 'a' || uuid_of(
            tag,
        )[19] == 'b',
{
    let bytes = encode_utf8(tag);
    let h = fnv_of(0xcbf2_9ce4_8422_2325, bytes, bytes.len());
    let l = fnv_of(0x6c62_272e_07bb_0142, bytes, bytes.len());
    let hi = high_of(h);
    let lo = low_of(l);
    reveal_strlit("-");
    lemma_hex_len((hi >> 32) as nat, 8);
    lemma_hex_len(((hi >> 16) & 0xFFFF) as nat, 4);
    lemma_hex_len((hi & 0xFFFF) as nat, 4);
    lemma_hex_len((lo >> 48) as nat, 4);
    lemma_hex_len((lo & 0xFFFF_FFFF_FFFF) as nat, 12);
    lemma_high_nibble(h);
    lemma_low_nibble(l);
    lemma_shift12(hi & 0xFFFF);
    lemma_shift12(lo >> 48);
    lemma_first_nibble((hi & 0xFFFF) as nat);
    lemma_first_nibble((lo >> 48) as nat);
}

} // verus!
