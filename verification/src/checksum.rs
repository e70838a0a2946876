use vstd::prelude::*;

verus! {

/// The CRC-32/ISO-HDLC checksum of a byte sequence, the variant that zlib
/// and PNG use. It is left uninterpreted: the library relies only on its
/// being a function of the bytes.
pub uninterp spec fn crc32_iso_hdlc(bytes: Seq<u8>) -> u32;

/// Calls `crc::Crc::<u32>::checksum` with the `CRC_32_ISO_HDLC` algorithm.
/// Trusted: the result is the checksum of exactly these bytes.
#[verifier::external_body]
pub(crate) fn checksum(bytes: &[u8]) -> (r: u32)
    ensures
        r == crc32_iso_hdlc(bytes@),
{
    crc::Crc::<u32>::new(&crc::CRC_32_ISO_HDLC).checksum(bytes)
}

} // verus!
