//! Little-endian integer fields read out of byte sequences.
use byteorder::ByteOrder;
use byteorder::LittleEndian;
use vstd::prelude::*;

verus! {

/// The unsigned value of the two bytes at `o..o + 2`, least significant first.
pub open spec fn le_u16(s: Seq<u8>, o: int) -> int {
    s[o] as int + s[o + 1] as int * 0x100
}

/// The unsigned value of the four bytes at `o..o + 4`, least significant first.
pub open spec fn le_u32(s: Seq<u8>, o: int) -> int {
    le_u16(s, o) + le_u16(s, o + 2) * 0x1_0000
}

/// The unsigned value of the eight bytes at `o..o + 8`, least significant first.
pub open spec fn le_u64(s: Seq<u8>, o: int) -> int {
    le_u32(s, o) + le_u32(s, o + 4) * 0x1_0000_0000
}

/// Reads the little-endian `u16` at `buf[off..off + 2]` with
/// `byteorder::LittleEndian::read_u16`, which decodes the first two bytes of
/// the slice it is given (`u16::from_le_bytes`) and panics on a shorter slice.
#[verifier::external_body]
pub(crate) fn read_u16_at(buf: &[u8], off: usize) -> (v: u16)
    requires
        off + 2 <= buf@.len(),
    ensures
        v as int == le_u16(buf@, off as int),
{
    LittleEndian::read_u16(&buf[off..])
}

/// Reads the little-endian `u32` at `buf[off..off + 4]` with
/// `byteorder::LittleEndian::read_u32` (`u32::from_le_bytes` of the first four
/// bytes; panics on a shorter slice).
#[verifier::external_body]
pub(crate) fn read_u32_at(buf: &[u8], off: usize) -> (v: u32)
    requires
        off + 4 <= buf@.len(),
    ensures
        v as int == le_u32(buf@, off as int),
{
    LittleEndian::read_u32(&buf[off..])
}

/// Reads the little-endian `u64` at `buf[off..off + 8]` with
/// `byteorder::LittleEndian::read_u64` (`u64::from_le_bytes` of the first eight
/// bytes; panics on a shorter slice).
#[verifier::external_body]
pub(crate) fn read_u64_at(buf: &[u8], off: usize) -> (v: u64)
    requires
        off + 8 <= buf@.len(),
    ensures
        v as int == le_u64(buf@, off as int),
{
    LittleEndian::read_u64(&buf[off..])
}

} // verus!
