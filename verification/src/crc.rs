//! The CRC-32 (IEEE 802.3) checksum that guards every datagram on the wire.
use vstd::prelude::*;

verus! {

/// The reflected generator polynomial of CRC-32.
pub const CRC32_POLYNOMIAL: u32 = 0xEDB8_8320;

/// One bit of polynomial division: shift right, and subtract the generator
/// when the bit shifted out was set.
pub open spec fn crc_shift(c: u32) -> u32 {
    if c & 1 == 1 {
        (c >> 1) ^ CRC32_POLYNOMIAL
    } else {
        c >> 1
    }
}

/// The register after one more byte of input.
pub open spec fn crc_byte(c: u32, b: u8) -> u32 {
    crc_shift(
        crc_shift(
            crc_shift(crc_shift(crc_shift(crc_shift(crc_shift(crc_shift(c ^ (b as u32))))))),
        ),
    )
}

/// The register after all of `bytes`, starting from all ones.
pub open spec fn crc_register(bytes: Seq<u8>) -> u32
    decreases bytes.len(),
{
    if bytes.len() == 0 {
        0xFFFF_FFFF
    } else {
        crc_byte(crc_register(bytes.drop_last()), bytes.last())
    }
}

/// CRC-32 of `bytes`: the final register, complemented.
pub open spec fn spec_crc32(bytes: Seq<u8>) -> u32 {
    crc_register(bytes) ^ 0xFFFF_FFFF
}

/// Computes CRC-32 with `crc32fast::hash`.
///
/// Trusted: the result is the IEEE CRC-32 of the input, which is what that
/// crate documents and what its byte-at-a-time fallback computes from the
/// table of the polynomial above, starting from and finishing with a complement.
#[verifier::external_body]
pub(crate) fn crc32(bytes: &[u8]) -> (sum: u32)
    ensures
        sum == spec_crc32(bytes@),
{
    crc32fast::hash(bytes)
}

/// A division step loses nothing: different registers stay different.
pub proof fn lemma_crc_shift_injective(a: u32, b: u32)
    requires
        a != b,
    ensures
        crc_shift(a) != crc_shift(b),
{
    assert(a & 1 == 1 && b & 1 == 1 && a != b ==> ((a >> 1) ^ 0xEDB8_8320u32) != ((b >> 1)
        ^ 0xEDB8_8320u32)) by (bit_vector);
    assert(a & 1 != 1 && b & 1 != 1 && a != b ==> (a >> 1) != (b >> 1)) by (bit_vector);
    assert(a & 1 == 1 && b & 1 != 1 ==> ((a >> 1) ^ 0xEDB8_8320u32) != (b >> 1))
        by (bit_vector);
    assert(a & 1 != 1 && b & 1 == 1 ==> (a >> 1) != ((b >> 1) ^ 0xEDB8_8320u32))
        by (bit_vector);
}

/// Feeding a byte keeps two registers apart when the registers or the bytes
/// differ, but not both in a way that cancels.
pub proof fn lemma_crc_byte_injective(c1: u32, b1: u8, c2: u32, b2: u8)
    requires
        (c1 != c2 && b1 == b2) || (c1 == c2 && b1 != b2),
    ensures
        crc_byte(c1, b1) != crc_byte(c2, b2),
{
    let x0 = c1 ^ (b1 as u32);
    let y0 = c2 ^ (b2 as u32);
    assert(x0 != y0) by (bit_vector)
        requires
            (c1 != c2 && b1 == b2) || (c1 == c2 && b1 != b2),
            x0 == c1 ^ (b1 as u32),
            y0 == c2 ^ (b2 as u32),
    ;
    let x1 = crc_shift(x0);
    let y1 = crc_shift(y0);
    lemma_crc_shift_injective(x0, y0);
    let x2 = crc_shift(x1);
    let y2 = crc_shift(y1);
    lemma_crc_shift_injective(x1, y1);
    let x3 = crc_shift(x2);
    let y3 = crc_shift(y2);
    lemma_crc_shift_injective(x2, y2);
    let x4 = crc_shift(x3);
    let y4 = crc_shift(y3);
    lemma_crc_shift_injective(x3, y3);
    let x5 = crc_shift(x4);
    let y5 = crc_shift(y4);
    lemma_crc_shift_injective(x4, y4);
    let x6 = crc_shift(x5);
    let y6 = crc_shift(y5);
    lemma_crc_shift_injective(x5, y5);
    let x7 = crc_shift(x6);
    let y7 = crc_shift(y6);
    lemma_crc_shift_injective(x6, y6);
    lemma_crc_shift_injective(x7, y7);
}

/// Two inputs of one length that differ in exactly one byte leave different
/// registers.
pub proof fn lemma_crc_register_detects_byte(a: Seq<u8>, b: Seq<u8>, at: int)
    requires
        a.len() == b.len(),
        0 <= at < a.len(),
        a[at] != b[at],
        forall|i: int| 0 <= i < a.len() && i != at ==> a[i] == b[i],
    ensures
        crc_register(a) != crc_register(b),
    decreases a.len(),
{
    let last = a.len() - 1;
    if at == last {
        assert(a.drop_last() =~= b.drop_last());
        lemma_crc_byte_injective(
            crc_register(a.drop_last()),
            a.last(),
            crc_register(b.drop_last()),
            b.last(),
        );
    } else {
        lemma_crc_register_detects_byte(a.drop_last(), b.drop_last(), at);
        lemma_crc_byte_injective(
            crc_register(a.drop_last()),
            a.last(),
            crc_register(b.drop_last()),
            b.last(),
        );
    }
}

/// CRC-32 tells apart any two inputs of one length that differ in exactly one
/// byte, and so in particular in a single bit.
pub proof fn lemma_crc32_detects_byte(a: Seq<u8>, b: Seq<u8>, at: int)
    requires
        a.len() == b.len(),
        0 <= at < a.len(),
        a[at] != b[at],
        forall|i: int| 0 <= i < a.len() && i != at ==> a[i] == b[i],
    ensures
        spec_crc32(a) != spec_crc32(b),
{
    lemma_crc_register_detects_byte(a, b, at);
    let x = crc_register(a);
    let y = crc_register(b);
    assert(x != y ==> (x ^ 0xFFFF_FFFFu32) != (y ^ 0xFFFF_FFFFu32)) by (bit_vector);
}

} // verus!
