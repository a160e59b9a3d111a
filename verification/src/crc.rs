//! CRC32c checksums (the `crc32c` crate) over v2 headers.

use vstd::prelude::*;

verus! {

/// One step of the reflected CRC-32C register (Castagnoli polynomial, reversed
/// bit order `0x82F63B78`): shift right by one bit, folding the polynomial in
/// when the bit shifted out is set.
pub open spec fn crc32c_shift(c: u32) -> u32 {
    if c & 1 == 1 { (c >> 1u32) ^ 0x82F6_3B78u32 } else { c >> 1u32 }
}

/// `k` register steps.
pub open spec fn crc32c_shifts(c: u32, k: nat) -> u32
    decreases k,
{
    if k == 0 { c } else { crc32c_shifts(crc32c_shift(c), (k - 1) as nat) }
}

/// The register after taking in the bytes of `data`, lowest bit first.
pub open spec fn crc32c_register(state: u32, data: Seq<u8>) -> u32
    decreases data.len(),
{
    if data.len() == 0 {
        state
    } else {
        crc32c_register(crc32c_shifts(state ^ (data[0] as u32), 8), data.drop_first())
    }
}

/// The CRC-32C of `data` continued from the CRC value `crc`: the register
/// starts at `!crc` and the result is the complement of its last value.
#[verifier::opaque]
pub open spec fn spec_crc32c_append(crc: u32, data: Seq<u8>) -> u32 {
    !crc32c_register(!crc, data)
}

/// The CRC-32C of `data`; `crc32c::crc32c(data)` is `crc32c_append(0, data)`.
pub open spec fn spec_crc32c(data: Seq<u8>) -> u32 {
    spec_crc32c_append(0, data)
}

/// Taking in two pieces of data one after the other is taking in both at once.
pub proof fn lemma_crc32c_register_concat(state: u32, a: Seq<u8>, b: Seq<u8>)
    ensures
        crc32c_register(state, a + b) == crc32c_register(crc32c_register(state, a), b),
    decreases a.len(),
{
    if a.len() > 0 {
        assert((a + b).drop_first() =~= a.drop_first() + b);
        assert((a + b)[0] == a[0]);
        lemma_crc32c_register_concat(crc32c_shifts(state ^ (a[0] as u32), 8), a.drop_first(), b);
    } else {
        assert(a + b =~= b);
    }
}

/// Continuing the CRC of `a` with `b` gives the CRC of `a` followed by `b`.
pub proof fn lemma_crc32c_append(a: Seq<u8>, b: Seq<u8>)
    ensures
        spec_crc32c_append(spec_crc32c(a), b) == spec_crc32c(a + b),
{
    reveal(spec_crc32c_append);
    let r = crc32c_register(!0u32, a);
    assert(!(!r) == r) by (bit_vector);
    lemma_crc32c_register_concat(!0u32, a, b);
}

/// Calls `crc32c::crc32c`, which the crate's source defines as
/// `crc32c_append(0, data)`.
#[verifier::external_body]
pub(crate) fn crc32c(data: &[u8]) -> (r: u32)
    ensures
        r == spec_crc32c(data@),
{
    crc32c::crc32c(data)
}

/// Calls `crc32c::crc32c_append`, which computes the CRC-32C of `data`
/// continued from a previous CRC value (table-driven in software, the SSE4.2
/// `crc32` instruction where the machine has it; both give this function).
#[verifier::external_body]
pub(crate) fn crc32c_append(crc: u32, data: &[u8]) -> (r: u32)
    ensures
        r == spec_crc32c_append(crc, data@),
{
    crc32c::crc32c_append(crc, data)
}

} // verus!
