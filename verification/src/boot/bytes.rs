//! Integers in a boot information block.

use vstd::prelude::*;

verus! {

/// The 32-bit integer whose four bytes lie at `off`, the lowest byte first.
pub open spec fn u32_le(b: Seq<u8>, off: int) -> u32 {
    (b[off] + b[off + 1] * 0x100 + b[off + 2] * 0x1_0000 + b[off + 3] * 0x100_0000) as u32
}

/// The 32-bit integer whose four bytes lie at `off`, the highest byte first.
pub open spec fn u32_be(b: Seq<u8>, off: int) -> u32 {
    (b[off + 3] + b[off + 2] * 0x100 + b[off + 1] * 0x1_0000 + b[off] * 0x100_0000) as u32
}

/// The 64-bit integer whose eight bytes lie at `off`, the lowest byte first.
pub open spec fn u64_le(b: Seq<u8>, off: int) -> u64 {
    (u32_le(b, off) + u32_le(b, off + 4) * 0x1_0000_0000) as u64
}

/// Reads a 32-bit integer, the lowest byte first.
pub fn read_u32_le(b: &[u8], off: usize) -> (v: u32)
    requires
        off + 4 <= b@.len(),
    ensures
        v == u32_le(b@, off as int),
{
    let _ = b.len();
    b[off] as u32 + b[off + 1] as u32 * 0x100 + b[off + 2] as u32 * 0x1_0000 + b[off + 3] as u32
        * 0x100_0000
}

/// Reads a 32-bit integer, the highest byte first.
pub fn read_u32_be(b: &[u8], off: usize) -> (v: u32)
    requires
        off + 4 <= b@.len(),
    ensures
        v == u32_be(b@, off as int),
{
    let _ = b.len();
    b[off + 3] as u32 + b[off + 2] as u32 * 0x100 + b[off + 1] as u32 * 0x1_0000 + b[off] as u32
        * 0x100_0000
}

/// Reads a 64-bit integer, the lowest byte first.
pub fn read_u64_le(b: &[u8], off: usize) -> (v: u64)
    requires
        off + 8 <= b@.len(),
    ensures
        v == u64_le(b@, off as int),
{
    let _ = b.len();
    read_u32_le(b, off) as u64 + read_u32_le(b, off + 4) as u64 * 0x1_0000_0000
}

} // verus!
