//! Little-endian fields of a byte buffer.

use vstd::prelude::*;

verus! {

/// The unsigned value of the two bytes at `off`, least significant first.
pub open spec fn le_u16_at(b: Seq<u8>, off: int) -> int {
    b[off] + 256 * b[off + 1]
}

/// The unsigned value of the four bytes at `off`, least significant first.
pub open spec fn le_u32_at(b: Seq<u8>, off: int) -> int {
    le_u16_at(b, off) + 0x1_0000 * le_u16_at(b, off + 2)
}

/// The two's complement value of the four bytes at `off`, least significant
/// first.
pub open spec fn le_i32_at(b: Seq<u8>, off: int) -> int {
    if le_u32_at(b, off) < 0x8000_0000 {
        le_u32_at(b, off)
    } else {
        le_u32_at(b, off) - 0x1_0000_0000
    }
}

/// Reads the `u16` field at `off`, or gives `None` where it runs past the
/// buffer.
pub fn le_u16(b: &[u8], off: usize) -> (field: Option<u16>)
    requires
        off + 2 <= usize::MAX,
    ensures
        field is Some <==> off + 2 <= b@.len(),
        field matches Some(v) ==> v == le_u16_at(b@, off as int),
{
    if off + 2 <= b.len() {
        Some((b[off] as u16) + 256 * (b[off + 1] as u16))
    } else {
        None
    }
}

/// Reads the `i32` field at `off`, or gives `None` where it runs past the
/// buffer.
pub fn le_i32(b: &[u8], off: usize) -> (field: Option<i32>)
    requires
        off + 4 <= usize::MAX,
    ensures
        field is Some <==> off + 4 <= b@.len(),
        field matches Some(v) ==> v == le_i32_at(b@, off as int),
{
    if off + 4 <= b.len() {
        let low: u32 = (b[off] as u32) + 256 * (b[off + 1] as u32);
        let high: u32 = (b[off + 2] as u32) + 256 * (b[off + 3] as u32);
        let raw: u32 = low + 0x1_0000 * high;
        assert(raw < 0x8000_0000u32 ==> raw as i32 == raw) by (bit_vector);
        assert(raw >= 0x8000_0000u32 ==> raw as i32 == raw - 0x1_0000_0000) by (bit_vector);
        Some(raw as i32)
    } else {
        None
    }
}

} // verus!
