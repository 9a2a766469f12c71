//! Byte layout of the SPDM messages that the CHUNK_GET exchange reads and writes.

use vstd::prelude::*;

verus! {

/// Size of the common SPDM message header: version byte and request/response code.
pub const SPDM_MSG_HDR_SIZE: usize = 2;

/// Size of the CHUNK_GET body after the common header: param1, handle, sequence number.
pub const CHUNK_GET_REQ_BODY_SIZE: usize = 4;

/// Size of the fixed part of the CHUNK_RESPONSE body: sender attributes, handle,
/// sequence number, reserved field and chunk size.
pub const CHUNK_RESPONSE_FIXED_BODY_SIZE: usize = 10;

/// Size of the large-response size field that the first chunk carries.
pub const LARGE_RESPONSE_SIZE_FIELD_SIZE: usize = 4;

/// Chunk sender attribute bit that marks the last chunk of a large response.
pub const CHUNK_ATTR_LAST_CHUNK: u8 = 0x01;

/// Response code of CHUNK_RESPONSE.
pub const CHUNK_RESPONSE_CODE: u8 = 0x06;

/// The little-endian 16-bit value of two bytes.
pub open spec fn le_u16(lo: u8, hi: u8) -> u16 {
    (lo as int + 256 * (hi as int)) as u16
}

/// The two little-endian bytes of a 16-bit value.
pub open spec fn u16_le_bytes(v: u16) -> Seq<u8> {
    seq![(v % 256) as u8, (v / 256) as u8]
}

/// The four little-endian bytes of a 32-bit value.
pub open spec fn u32_le_bytes(v: u32) -> Seq<u8> {
    seq![
        (v % 256) as u8,
        ((v / 256) % 256) as u8,
        ((v / 65536) % 256) as u8,
        (v / 16777216) as u8,
    ]
}

/// Reads the little-endian 16-bit value that starts at `at`.
pub fn read_u16_le(bytes: &[u8], at: usize) -> (v: u16)
    requires
        at + 2 <= bytes@.len(),
    ensures
        v == le_u16(bytes@[at as int], bytes@[at + 1]),
{
    let lo: u16 = bytes[at] as u16;
    let hi: u16 = bytes[at + 1] as u16;
    lo + 256 * hi
}

/// Appends the little-endian bytes of a 16-bit value.
pub fn push_u16_le(out: &mut Vec<u8>, v: u16)
    ensures
        final(out)@ == old(out)@ + u16_le_bytes(v),
{
    out.push((v % 256) as u8);
    out.push((v / 256) as u8);
}

/// Appends the little-endian bytes of a 32-bit value.
pub fn push_u32_le(out: &mut Vec<u8>, v: u32)
    ensures
        final(out)@ == old(out)@ + u32_le_bytes(v),
{
    out.push((v % 256) as u8);
    out.push(((v / 256) % 256) as u8);
    out.push(((v / 65536) % 256) as u8);
    out.push((v / 16777216) as u8);
}

/// Two bytes read little-endian give the low byte plus 256 times the high byte.
pub proof fn lemma_le_u16_value(lo: u8, hi: u8)
    ensures
        le_u16(lo, hi) as int == lo as int + 256 * (hi as int),
{
}

/// The little-endian bytes of a 16-bit value are two, and read back
/// little-endian they give the value.
pub proof fn lemma_u16_le_bytes_decode(v: u16)
    ensures
        u16_le_bytes(v).len() == 2,
        u16_le_bytes(v)[0] as int + 256 * (u16_le_bytes(v)[1] as int) == v as int,
        le_u16(u16_le_bytes(v)[0], u16_le_bytes(v)[1]) == v,
{
    let b = u16_le_bytes(v);
    assert(b[0] as int == v as int % 256);
    assert(b[1] as int == v as int / 256);
    assert(v as int == 256 * (v as int / 256) + v as int % 256) by (nonlinear_arith);
}

/// The little-endian bytes of a 32-bit value are four, and read back
/// little-endian they give the value.
pub proof fn lemma_u32_le_bytes_decode(v: u32)
    ensures
        u32_le_bytes(v).len() == 4,
        u32_le_bytes(v)[0] as int + 256 * (u32_le_bytes(v)[1] as int) + 65536 * (
        u32_le_bytes(v)[2] as int) + 16777216 * (u32_le_bytes(v)[3] as int) == v as int,
{
    let b = u32_le_bytes(v);
    let x = v as int;
    assert(b[0] as int == x % 256);
    assert(b[1] as int == (x / 256) % 256);
    assert(b[2] as int == (x / 65536) % 256);
    assert(b[3] as int == x / 16777216);
    assert(x % 256 + 256 * ((x / 256) % 256) + 65536 * ((x / 65536) % 256) + 16777216 * (x
        / 16777216) == x) by (nonlinear_arith)
        requires
            0 <= x < 4294967296,
    ;
}

} // verus!
