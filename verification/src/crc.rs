//! Whole-payload integrity checking for icon transfers.

use vstd::prelude::*;

verus! {

/// The IEEE CRC-32 checksum of a byte sequence; a function of the bytes
/// alone.
pub uninterp spec fn crc32_of(data: Seq<u8>) -> u32;

/// Relies on `crc32fast::hash`: computes the IEEE CRC-32 checksum of the
/// byte slice, a function of the bytes alone.
#[verifier::external_body]
pub fn crc32(data: &[u8]) -> (r: u32)
    ensures
        r == crc32_of(data@),
{
    crc32fast::hash(data)
}

/// Whether the bytes checksum to the value an end marker declared.
pub fn checksum_matches(data: &[u8], expected: u32) -> (r: bool)
    ensures
        r == (crc32_of(data@) == expected),
{
    crc32(data) == expected
}

} // verus!
