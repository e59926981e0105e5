//! Little-endian integers in byte sequences, and the reads of them that go through
//! `zerocopy`'s byte-order types.
use vstd::prelude::*;
use zerocopy::FromBytes;

verus! {

/// The unsigned 16-bit little-endian integer stored at `s[i..i + 2]`.
pub open spec fn le_u16(s: Seq<u8>, i: int) -> u16 {
    (s[i] + 256 * s[i + 1]) as u16
}

/// The unsigned 32-bit little-endian integer stored at `s[i..i + 4]`.
pub open spec fn le_u32(s: Seq<u8>, i: int) -> u32 {
    (s[i] + 256 * s[i + 1] + 65536 * s[i + 2] + 16777216 * s[i + 3]) as u32
}

/// The two's-complement 16-bit little-endian integer stored at `s[i..i + 2]`.
pub open spec fn le_i16(s: Seq<u8>, i: int) -> i16 {
    let u = le_u16(s, i);
    if u < 0x8000 {
        u as i16
    } else {
        (u - 0x10000) as i16
    }
}

/// The two's-complement 32-bit little-endian integer stored at `s[i..i + 4]`.
pub open spec fn le_i32(s: Seq<u8>, i: int) -> i32 {
    let u = le_u32(s, i);
    if u < 0x8000_0000 {
        u as i32
    } else {
        (u - 0x1_0000_0000) as i32
    }
}

/// Reads a `u16` through `zerocopy::byteorder::little_endian::U16::read_from_bytes` and
/// `U16::get`: for a slice of exactly two bytes the read succeeds, and the value is the
/// little-endian reading of the two bytes.
#[verifier::external_body]
pub(crate) fn read_u16_le(bytes: &[u8]) -> (v: u16)
    requires
        bytes@.len() == 2,
    ensures
        v == le_u16(bytes@, 0),
{
    zerocopy::byteorder::little_endian::U16::read_from_bytes(bytes).unwrap().get()
}

/// Reads a `u32` through `zerocopy::byteorder::little_endian::U32::read_from_bytes` and
/// `U32::get`: for a slice of exactly four bytes the read succeeds, and the value is the
/// little-endian reading of the four bytes.
#[verifier::external_body]
pub(crate) fn read_u32_le(bytes: &[u8]) -> (v: u32)
    requires
        bytes@.len() == 4,
    ensures
        v == le_u32(bytes@, 0),
{
    zerocopy::byteorder::little_endian::U32::read_from_bytes(bytes).unwrap().get()
}

/// Reads an `i16` through `zerocopy::byteorder::little_endian::I16::read_from_bytes` and
/// `I16::get`: for a slice of exactly two bytes the read succeeds, and the value is the
/// two's-complement little-endian reading of the two bytes.
#[verifier::external_body]
pub(crate) fn read_i16_le(bytes: &[u8]) -> (v: i16)
    requires
        bytes@.len() == 2,
    ensures
        v == le_i16(bytes@, 0),
{
    zerocopy::byteorder::little_endian::I16::read_from_bytes(bytes).unwrap().get()
}

/// Reads an `i32` through `zerocopy::byteorder::little_endian::I32::read_from_bytes` and
/// `I32::get`: for a slice of exactly four bytes the read succeeds, and the value is the
/// two's-complement little-endian reading of the four bytes.
#[verifier::external_body]
pub(crate) fn read_i32_le(bytes: &[u8]) -> (v: i32)
    requires
        bytes@.len() == 4,
    ensures
        v == le_i32(bytes@, 0),
{
    zerocopy::byteorder::little_endian::I32::read_from_bytes(bytes).unwrap().get()
}

}
