//! The 32-bit checksum that protects every chunk.
//!
//! The checksum itself is computed by the `crc` crate; the library only
//! names its result and builds contracts on that name.

use vstd::prelude::*;

verus! {

/// The CRC-32/ISO-HDLC checksum of a byte sequence, as the `crc` crate
/// computes it. The algorithm is left unstated: every contract of this
/// library speaks of the checksum only through this name.
pub uninterp spec fn crc32_of(bytes: Seq<u8>) -> u32;

/// Relies on the `crc` crate: `Crc::<u32>::new(&CRC_32_ISO_HDLC).checksum`
/// computes the CRC-32/ISO-HDLC checksum, a pure function of the input
/// bytes.
#[verifier::external_body]
pub(crate) fn crc32(bytes: &[u8]) -> (r: u32)
    ensures
        r == crc32_of(bytes@),
{
    crc::Crc::<u32>::new(&crc::CRC_32_ISO_HDLC).checksum(bytes)
}

} // verus!
