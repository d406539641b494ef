//! Little-endian integer decoding over byte sequences.

use vstd::prelude::*;

verus! {

/// The little-endian value of the 2 bytes of `d` starting at `i`.
pub open spec fn spec_le_u16(d: Seq<u8>, i: int) -> u16
    recommends
        0 <= i,
        i + 2 <= d.len(),
{
    (d[i] + d[i + 1] * 0x100) as u16
}

/// The little-endian value of the 4 bytes of `d` starting at `i`.
pub open spec fn spec_le_u32(d: Seq<u8>, i: int) -> u32
    recommends
        0 <= i,
        i + 4 <= d.len(),
{
    (d[i] + d[i + 1] * 0x100 + d[i + 2] * 0x1_0000 + d[i + 3] * 0x100_0000) as u32
}

/// The little-endian value of the 8 bytes of `d` starting at `i`.
pub open spec fn spec_le_u64(d: Seq<u8>, i: int) -> u64
    recommends
        0 <= i,
        i + 8 <= d.len(),
{
    (d[i] + d[i + 1] * 0x100 + d[i + 2] * 0x1_0000 + d[i + 3] * 0x100_0000
        + d[i + 4] * 0x1_0000_0000 + d[i + 5] * 0x100_0000_0000
        + d[i + 6] * 0x1_0000_0000_0000 + d[i + 7] * 0x100_0000_0000_0000) as u64
}

/// Reads the little-endian u16 at byte offset `pos`.
pub fn read_le_u16(d: &Vec<u8>, pos: usize) -> (r: u16)
    requires
        pos + 2 <= d.len(),
    ensures
        r == spec_le_u16(d@, pos as int),
{
    let b0 = d[pos];
    let b1 = d[pos + 1];
    b0 as u16 + (b1 as u16) * 0x100
}

/// Reads the little-endian u32 at byte offset `pos`.
pub fn read_le_u32(d: &Vec<u8>, pos: usize) -> (r: u32)
    requires
        pos + 4 <= d.len(),
    ensures
        r == spec_le_u32(d@, pos as int),
{
    let b0 = d[pos];
    let b1 = d[pos + 1];
    let b2 = d[pos + 2];
    let b3 = d[pos + 3];
    b0 as u32 + (b1 as u32) * 0x100 + (b2 as u32) * 0x1_0000 + (b3 as u32) * 0x100_0000
}

/// Reads the little-endian u64 at byte offset `pos`.
pub fn read_le_u64(d: &Vec<u8>, pos: usize) -> (r: u64)
    requires
        pos + 8 <= d.len(),
    ensures
        r == spec_le_u64(d@, pos as int),
{
    let b0 = d[pos];
    let b1 = d[pos + 1];
    let b2 = d[pos + 2];
    let b3 = d[pos + 3];
    let b4 = d[pos + 4];
    let b5 = d[pos + 5];
    let b6 = d[pos + 6];
    let b7 = d[pos + 7];
    b0 as u64 + (b1 as u64) * 0x100 + (b2 as u64) * 0x1_0000 + (b3 as u64) * 0x100_0000
        + (b4 as u64) * 0x1_0000_0000 + (b5 as u64) * 0x100_0000_0000
        + (b6 as u64) * 0x1_0000_0000_0000 + (b7 as u64) * 0x100_0000_0000_0000
}

} // verus!
