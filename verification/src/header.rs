//! The fixed-layout container header and its decoding model.

use vstd::prelude::*;
use crate::bytes::{spec_le_u16, spec_le_u32, spec_le_u64};

verus! {

/// The magic signature, read as a little-endian u64 from the first 8 bytes.
pub const CFBF_MAGIC: u64 = 0xE11AB1A1E011CFD0;

/// The largest sector number that refers to a real sector; anything above
/// is a sentinel (FREESECT, ENDOFCHAIN, FATSECT, DIFSECT).
pub const MAX_REGULAR_SECTOR: u32 = 0xFFFF_FFFA;

/// Whether a sector or directory-entry id is a sentinel, never to be
/// dereferenced as a real sector or entry.
pub open spec fn is_sentinel(s: u32) -> bool {
    s > MAX_REGULAR_SECTOR
}

/// A physical sector location in a container.
#[derive(Clone, Copy, PartialEq, Eq, Structural, Debug)]
pub struct SectorLocation(pub u32);

/// The header of a container, excluding the trailing inline DIFAT entries.
#[derive(Clone, Copy, PartialEq, Eq, Structural, Debug)]
pub struct Header {
    pub signature: u64,
    pub minor_version: u16,
    pub major_version: u16,
    pub byte_order: u16,
    pub sector_shift: u16,
    /// Derived: 1 << sector_shift; not stored in the file.
    pub sector_size: u64,
    pub mini_sector_shift: u16,
    /// Derived: 1 << mini_sector_shift; not stored in the file.
    pub mini_sector_size: u64,
    pub number_of_directory_sectors: u32,
    pub number_of_fat_sectors: u32,
    pub first_directory_sector_location: SectorLocation,
    pub mini_stream_cutoff_size: u32,
    pub first_mini_fat_sector_location: SectorLocation,
    pub number_of_mini_fat_sectors: u32,
    pub first_difat_sector_location: SectorLocation,
    pub number_of_difat_sectors: u32,
}

/// 2 to the power `s`, as a u64; 0 where the exponent does not fit.
pub open spec fn spec_pow2_u64(s: u16) -> u64 {
    if s <= 63 {
        1u64 << (s as u64)
    } else {
        0u64
    }
}

/// The header record denoted by the first 76 bytes of `d`.
pub open spec fn spec_header(d: Seq<u8>) -> Header
    recommends
        d.len() >= 76,
{
    Header {
        signature: spec_le_u64(d, 0),
        minor_version: spec_le_u16(d, 24),
        major_version: spec_le_u16(d, 26),
        byte_order: spec_le_u16(d, 28),
        sector_shift: spec_le_u16(d, 30),
        sector_size: spec_pow2_u64(spec_le_u16(d, 30)),
        mini_sector_shift: spec_le_u16(d, 32),
        mini_sector_size: spec_pow2_u64(spec_le_u16(d, 32)),
        number_of_directory_sectors: spec_le_u32(d, 40),
        number_of_fat_sectors: spec_le_u32(d, 44),
        first_directory_sector_location: SectorLocation(spec_le_u32(d, 48)),
        mini_stream_cutoff_size: spec_le_u32(d, 56),
        first_mini_fat_sector_location: SectorLocation(spec_le_u32(d, 60)),
        number_of_mini_fat_sectors: spec_le_u32(d, 64),
        first_difat_sector_location: SectorLocation(spec_le_u32(d, 68)),
        number_of_difat_sectors: spec_le_u32(d, 72),
    }
}

/// The geometry bounds under which all sector arithmetic stays in u64:
/// sectors of 8 bytes to 2 GiB.  Files declaring anything else are
/// rejected at construction.
pub open spec fn spec_geometry_ok(d: Seq<u8>) -> bool {
    &&& 3 <= spec_le_u16(d, 30) <= 31
    &&& spec_le_u16(d, 32) <= 31
}

/// A well-formed header: decoded from these bytes, carrying the magic
/// signature, with supported geometry.
pub open spec fn header_wf(d: Seq<u8>, h: Header) -> bool {
    &&& d.len() >= 76
    &&& h == spec_header(d)
    &&& h.signature == CFBF_MAGIC
    &&& spec_geometry_ok(d)
}

/// Bounds of the derived sector size under a well-formed header.
pub proof fn lemma_sector_size_bounds(h: Header)
    requires
        3 <= h.sector_shift <= 31,
        h.sector_size == spec_pow2_u64(h.sector_shift),
    ensures
        8 <= h.sector_size <= 0x8000_0000,
{
    let s = h.sector_shift as u64;
    assert(3 <= s <= 31 ==> 8 <= (1u64 << s) && (1u64 << s) <= 0x8000_0000) by (bit_vector);
}

} // verus!
