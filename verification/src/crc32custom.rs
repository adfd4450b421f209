//! CRC32C checksums of record payloads.
use vstd::prelude::*;

verus! {

/// The reflected CRC32C (Castagnoli) polynomial.
pub const CRC32C_POLY: u32 = 0x82F6_3B78;

/// `k` steps of the bitwise CRC shift register from the state `c`.
pub open spec fn crc_shift(c: u32, k: nat) -> u32
    decreases k,
{
    if k == 0 {
        c
    } else {
        crc_shift(if c & 1 == 1 { (c >> 1) ^ CRC32C_POLY } else { c >> 1 }, (k - 1) as nat)
    }
}

/// The shift register state after the bytes `data`, starting from `c`.
pub open spec fn crc_register(c: u32, data: Seq<u8>) -> u32
    decreases data.len(),
{
    if data.len() == 0 {
        c
    } else {
        crc_shift(crc_register(c, data.drop_last()) ^ (data.last() as u32), 8)
    }
}

/// The CRC32C checksum `crc` continued over `data`: the register starts from the
/// complement of `crc`, and the result is the complement of the register.
pub open spec fn crc32c_append_spec(crc: u32, data: Seq<u8>) -> u32 {
    !crc_register(!crc, data)
}

/// Calls `crc32c::crc32c_append`, which continues the CRC32C checksum `crc` over
/// `data` (complemented register, reflected polynomial 0x82F63B78, eight shifts per
/// byte, complemented result). Trusted: its result is [crc32c_append_spec] of the
/// arguments.
#[verifier::external_body]
fn crc32c_append_call(crc: u32, data: &[u8]) -> (r: u32)
    ensures
        r == crc32c_append_spec(crc, data@),
{
    crc32c::crc32c_append(crc, data)
}

/// Continues the CRC32C checksum `crc` over `data`.
pub fn fast_crc32c(crc: u32, data: &[u8]) -> (r: u32)
    ensures
        r == crc32c_append_spec(crc, data@),
{
    crc32c_append_call(crc, data)
}

} // verus!
