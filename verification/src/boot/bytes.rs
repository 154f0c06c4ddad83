//! Little-endian readers over the raw boot-record bytes.

use vstd::prelude::*;

verus! {

/// The 16-bit little-endian value at `off`.
pub open spec fn le16(b: Seq<u8>, off: int) -> int {
    b[off] + 0x100 * b[off + 1]
}

/// The 32-bit little-endian value at `off`.
pub open spec fn le32(b: Seq<u8>, off: int) -> int {
    b[off] + 0x100 * b[off + 1] + 0x1_0000 * b[off + 2] + 0x100_0000 * b[off + 3]
}

/// The 64-bit little-endian value at `off`.
pub open spec fn le64(b: Seq<u8>, off: int) -> int {
    le32(b, off) + 0x1_0000_0000 * le32(b, off + 4)
}

/// Read a 16-bit little-endian value.
pub fn read_u16(b: &Vec<u8>, off: usize) -> (r: u16)
    requires
        off + 2 <= b.len(),
    ensures
        r == le16(b@, off as int),
{
    let x: u64 = (b[off] as u64) + 0x100 * (b[off + 1] as u64);
    x as u16
}

/// Read a 32-bit little-endian value.
pub fn read_u32(b: &Vec<u8>, off: usize) -> (r: u32)
    requires
        off + 4 <= b.len(),
    ensures
        r == le32(b@, off as int),
{
    let x: u64 = (b[off] as u64) + 0x100 * (b[off + 1] as u64) + 0x1_0000 * (b[off + 2] as u64)
        + 0x100_0000 * (b[off + 3] as u64);
    x as u32
}

/// Read a 64-bit little-endian value.
pub fn read_u64(b: &Vec<u8>, off: usize) -> (r: u64)
    requires
        off + 8 <= b.len(),
    ensures
        r == le64(b@, off as int),
{
    let lo = read_u32(b, off);
    let hi = read_u32(b, off + 4);
    let x: u64 = (lo as u64) + 0x1_0000_0000 * (hi as u64);
    x
}

} // verus!
