//! The CRC-32 checksum that guards every chunk.

use vstd::prelude::*;

verus! {

/// The CRC-32 checksum of `bytes`, as zlib and the PNG format define it
/// (the IEEE 802.3 polynomial). The value is computed by the `crc32fast`
/// crate; nothing but its being a function of the bytes is known of it here.
pub uninterp spec fn crc32(bytes: Seq<u8>) -> u32;

/// Computes the checksum with `crc32fast::hash`, which feeds the whole slice
/// to a fresh hasher and returns its final state. The contract claims that
/// the result is the CRC-32 of exactly these bytes: the same bytes always
/// give the same value, whichever implementation the crate selects for the
/// processor at hand.
#[verifier::external_body]
pub(crate) fn checksum(bytes: &[u8]) -> (crc: u32)
    ensures
        crc == crc32(bytes@),
{
    crc32fast::hash(bytes)
}

} // verus!
