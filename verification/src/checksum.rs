use vstd::prelude::*;

verus! {

/// The CRC-32/ISO-HDLC checksum of `bytes` (the CRC that the PNG specification
/// prescribes), as the `crc` crate computes it.
pub uninterp spec fn crc32_iso_hdlc(bytes: Seq<u8>) -> u32;

/// Calls `crc::Crc::<u32>::checksum` with the `crc::CRC_32_ISO_HDLC` algorithm.
/// The contract claims only that the result is that checksum of the bytes given,
/// a function of those bytes alone; what the checksum is on given bytes is left
/// to the crate.
#[verifier::external_body]
pub(crate) fn crc32(bytes: &[u8]) -> (r: u32)
    ensures
        r == crc32_iso_hdlc(bytes@),
{
    crc::Crc::<u32>::new(&crc::CRC_32_ISO_HDLC).checksum(bytes)
}

} // verus!
