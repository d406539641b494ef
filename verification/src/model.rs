//! Mathematical model of the on-disk container format.
//!
//! Every executable operation of [`crate::cfbf::Container`] is specified
//! against the functions here, which define what the bytes of a container
//! denote: FAT successors, DIFAT lookups, chain walks, directory entries,
//! tree searches and stream contents.

use vstd::prelude::*;
use crate::bytes::{spec_le_u16, spec_le_u32, spec_le_u64};
use crate::header::{Header, is_sentinel, MAX_REGULAR_SECTOR};
use crate::utf16::spec_utf16_decode;
use crate::cfbf::{Error, ObjectType, ObjectV};

verus! {

/// Absolute byte offset of the start of sector `s`: the header occupies
/// the space of one sector before sector 0.
pub open spec fn sector_pos(h: Header, s: u32) -> int {
    (s + 1) * h.sector_size
}

/// A 4-byte read made while navigating the sector structures; a read out
/// of range means the chain points outside the file.
pub open spec fn spec_nav_u32(d: Seq<u8>, pos: int) -> Result<u32, Error> {
    if 0 <= pos && pos + 4 <= d.len() {
        Ok(spec_le_u32(d, pos))
    } else {
        Err(Error::CorruptChain)
    }
}

/// The `j`-th FAT-sector location held in the DIFAT sector chain rooted at
/// `difat_sector`.  Each DIFAT sector carries `sector_size/4 - 1` entries
/// followed by the location of the next DIFAT sector.
pub open spec fn spec_difat_walk(d: Seq<u8>, h: Header, difat_sector: u32, j: nat) -> Result<
    u32,
    Error,
>
    decreases j,
{
    let per = h.sector_size as int / 4 - 1;
    if per < 1 {
        Err(Error::CorruptChain)
    } else if j < per {
        spec_nav_u32(d, sector_pos(h, difat_sector) + j * 4)
    } else {
        match spec_nav_u32(d, sector_pos(h, difat_sector) + per * 4) {
            Ok(next) => if is_sentinel(next) {
                Err(Error::CorruptChain)
            } else {
                spec_difat_walk(d, h, next, (j - per) as nat)
            },
            Err(e) => Err(e),
        }
    }
}

/// The location of FAT sector number `fat_index`: the first 109 are inline
/// in the header at offset 0x4C, the rest live in the DIFAT sector chain.
pub open spec fn spec_difat_entry(d: Seq<u8>, h: Header, fat_index: u32) -> Result<u32, Error> {
    if fat_index < 109 {
        spec_nav_u32(d, 0x4C + fat_index * 4)
    } else if is_sentinel(h.first_difat_sector_location.0) {
        Err(Error::CorruptChain)
    } else {
        spec_difat_walk(d, h, h.first_difat_sector_location.0, (fat_index - 109) as nat)
    }
}

/// The FAT successor of sector `s`.
pub open spec fn spec_next_sector(d: Seq<u8>, h: Header, s: u32) -> Result<u32, Error> {
    if is_sentinel(s) {
        Err(Error::CorruptChain)
    } else if h.sector_size < 8 {
        Err(Error::CorruptChain)
    } else {
        let per = h.sector_size as int / 4;
        let fat_index = s as int / per;
        let fat_offset = (s as int % per) * 4;
        match spec_difat_entry(d, h, fat_index as u32) {
            Ok(fat_sector) => if is_sentinel(fat_sector) {
                Err(Error::CorruptChain)
            } else {
                spec_nav_u32(d, sector_pos(h, fat_sector) + fat_offset)
            },
            Err(e) => Err(e),
        }
    }
}

/// The absolute position of byte `off` of the stream that starts in sector
/// `s`, following the FAT across sector boundaries.
pub open spec fn spec_resolve(d: Seq<u8>, h: Header, s: u32, off: int) -> Result<int, Error>
    recommends
        off >= 0,
    decreases off,
{
    if h.sector_size < 8 {
        Err(Error::CorruptChain)
    } else if is_sentinel(s) {
        Err(Error::CorruptChain)
    } else if off < h.sector_size {
        Ok(sector_pos(h, s) + off)
    } else {
        match spec_next_sector(d, h, s) {
            Ok(nx) => spec_resolve(d, h, nx, off - h.sector_size),
            Err(e) => Err(e),
        }
    }
}

/// The sector reached from `s` by `k` FAT steps.
pub open spec fn spec_walk_chain(d: Seq<u8>, h: Header, s: u32, k: nat) -> Result<u32, Error>
    decreases k,
{
    if k == 0 {
        Ok(s)
    } else {
        match spec_next_sector(d, h, s) {
            Ok(nx) => spec_walk_chain(d, h, nx, (k - 1) as nat),
            Err(e) => Err(e),
        }
    }
}

/// The mini-FAT successor of mini-sector `m`.  The mini-FAT is an ordinary
/// sector chain rooted at the header's first mini-FAT location.
pub open spec fn spec_next_mini_sector(d: Seq<u8>, h: Header, m: u32) -> Result<u32, Error> {
    if h.sector_size < 8 {
        Err(Error::CorruptChain)
    } else {
        let per = h.sector_size as int / 4;
        match spec_walk_chain(d, h, h.first_mini_fat_sector_location.0, (m as int / per) as nat) {
            Ok(loc) => if is_sentinel(loc) {
                Err(Error::CorruptChain)
            } else {
                spec_nav_u32(d, sector_pos(h, loc) + (m as int % per) * 4)
            },
            Err(e) => Err(e),
        }
    }
}

/// The absolute position of byte `off` of the small stream that starts
/// in mini-sector `m`, following the mini-FAT across mini-sector
/// boundaries; a mini-sector holds 64 bytes and sits at byte `m * 64` of
/// the mini-stream, whose own sector chain starts at `ministream_start`.
pub open spec fn spec_resolve_mini(
    d: Seq<u8>,
    h: Header,
    ministream_start: u32,
    m: u32,
    off: int,
) -> Result<int, Error>
    recommends
        off >= 0,
    decreases off,
{
    if off < 64 {
        spec_resolve(d, h, ministream_start, m * 64 + off)
    } else {
        match spec_next_mini_sector(d, h, m) {
            Ok(nm) => spec_resolve_mini(d, h, ministream_start, nm, off - 64),
            Err(e) => Err(e),
        }
    }
}

/// How many UTF-16 units of a directory-entry name are in use: the stored
/// length counts bytes including the trailing NUL unit, capped at the 32
/// units the 64-byte field can hold; 0 means an empty name.
pub open spec fn spec_entry_name_unit_count(d: Seq<u8>, pos: int) -> int {
    let nl = spec_le_u16(d, pos + 64) as int;
    if nl < 2 {
        0
    } else if nl / 2 - 1 > 32 {
        32
    } else {
        nl / 2 - 1
    }
}

/// The UTF-16 units of the name of the directory entry at `pos`.
pub open spec fn spec_entry_name_units(d: Seq<u8>, pos: int) -> Seq<u16> {
    Seq::new(spec_entry_name_unit_count(d, pos) as nat, |i: int| spec_le_u16(d, pos + 2 * i))
}

/// The object type denoted by the type byte of a directory entry.
pub open spec fn spec_object_type(b: u8) -> ObjectType {
    if b == 1 {
        ObjectType::Storage
    } else if b == 2 {
        ObjectType::Stream
    } else if b == 5 {
        ObjectType::RootStorage
    } else {
        ObjectType::Unknown
    }
}

/// The object denoted by the 128-byte directory entry at `pos`, labelled
/// with the entry id it was read under.
pub open spec fn spec_decode_entry(d: Seq<u8>, pos: int, id: u32) -> ObjectV
    recommends
        0 <= pos,
        pos + 128 <= d.len(),
{
    ObjectV {
        id: id,
        name: spec_utf16_decode(spec_entry_name_units(d, pos)),
        object_type: spec_object_type(d[pos + 66]),
        left_sibling_id: spec_le_u32(d, pos + 68),
        right_sibling_id: spec_le_u32(d, pos + 72),
        child_id: spec_le_u32(d, pos + 76),
        creation_time: spec_le_u64(d, pos + 100),
        modified_time: spec_le_u64(d, pos + 108),
        starting_sector_location: spec_le_u32(d, pos + 116),
        stream_size: spec_le_u64(d, pos + 120),
    }
}

/// The directory entry with the given id: 128 bytes at offset `id * 128`
/// of the directory stream.
pub open spec fn spec_get_object(d: Seq<u8>, h: Header, id: u32) -> Result<ObjectV, Error> {
    match spec_resolve(d, h, h.first_directory_sector_location.0, id * 128) {
        Ok(pos) => if pos + 128 <= d.len() {
            Ok(spec_decode_entry(d, pos, id))
        } else {
            Err(Error::UnexpectedEof)
        },
        Err(e) => Err(e),
    }
}

/// A tree-pointer dereference: a sentinel id means the pointed-to object
/// is absent, any real id is looked up in the directory.
pub open spec fn spec_lookup(d: Seq<u8>, h: Header, id: u32) -> Result<Option<ObjectV>, Error> {
    if id > MAX_REGULAR_SECTOR {
        Ok(None)
    } else {
        match spec_get_object(d, h, id) {
            Ok(o) => Ok(Some(o)),
            Err(e) => Err(e),
        }
    }
}

/// Unordered search for the first object named `name`, trying the node
/// itself, then its left-sibling subtree, right-sibling subtree and child
/// subtree.  `depth` bounds the recursion so that malformed cyclic trees
/// fail with `CorruptChain` instead of diverging.
pub open spec fn spec_find_by_name(
    d: Seq<u8>,
    h: Header,
    id: u32,
    name: Seq<char>,
    depth: nat,
) -> Result<Option<ObjectV>, Error>
    decreases depth,
{
    if id > MAX_REGULAR_SECTOR {
        Ok(None)
    } else if depth == 0 {
        Err(Error::CorruptChain)
    } else {
        match spec_get_object(d, h, id) {
            Err(e) => Err(e),
            Ok(o) => if o.name == name {
                Ok(Some(o))
            } else {
                match spec_find_by_name(d, h, o.left_sibling_id, name, (depth - 1) as nat) {
                    Err(e) => Err(e),
                    Ok(Some(r)) => Ok(Some(r)),
                    Ok(None) => match spec_find_by_name(
                        d,
                        h,
                        o.right_sibling_id,
                        name,
                        (depth - 1) as nat,
                    ) {
                        Err(e) => Err(e),
                        Ok(Some(r)) => Ok(Some(r)),
                        Ok(None) => spec_find_by_name(d, h, o.child_id, name, (depth - 1) as nat),
                    },
                }
            },
        }
    }
}

/// Path-directed search: match segment `i` against the current object's
/// name; on a match descend to the child with the next segment, otherwise
/// try the left and right sibling subtrees with the same segment.
pub open spec fn spec_find_by_path(
    d: Seq<u8>,
    h: Header,
    id: u32,
    path: Seq<Seq<char>>,
    i: int,
    depth: nat,
) -> Result<Option<ObjectV>, Error>
    recommends
        0 <= i < path.len(),
    decreases depth,
{
    if id > MAX_REGULAR_SECTOR {
        Ok(None)
    } else if depth == 0 {
        Err(Error::CorruptChain)
    } else {
        match spec_get_object(d, h, id) {
            Err(e) => Err(e),
            Ok(o) => if o.name == path[i] {
                if i + 1 == path.len() {
                    Ok(Some(o))
                } else {
                    spec_find_by_path(d, h, o.child_id, path, i + 1, (depth - 1) as nat)
                }
            } else {
                match spec_find_by_path(d, h, o.left_sibling_id, path, i, (depth - 1) as nat) {
                    Err(e) => Err(e),
                    Ok(Some(r)) => Ok(Some(r)),
                    Ok(None) => spec_find_by_path(
                        d,
                        h,
                        o.right_sibling_id,
                        path,
                        i,
                        (depth - 1) as nat,
                    ),
                }
            },
        }
    }
}

/// The bytes of a stream read through the FAT: whole sectors, except that
/// the last chunk stops at the stream size.  The FAT is consulted only
/// while bytes remain, so a chain that ends exactly at the stream's end is
/// never stepped past.
pub open spec fn spec_dump_normal(d: Seq<u8>, h: Header, s: u32, size: u64) -> Result<
    Seq<u8>,
    Error,
>
    decreases size,
{
    if size == 0 {
        Ok(Seq::empty())
    } else if h.sector_size < 8 {
        Err(Error::CorruptChain)
    } else if is_sentinel(s) {
        Err(Error::CorruptChain)
    } else {
        let n = if size < h.sector_size {
            size as int
        } else {
            h.sector_size as int
        };
        let pos = sector_pos(h, s);
        if pos + n <= d.len() {
            let chunk = d.subrange(pos, pos + n);
            if size == n {
                Ok(chunk)
            } else {
                match spec_next_sector(d, h, s) {
                    Ok(nx) => match spec_dump_normal(d, h, nx, (size - n) as u64) {
                        Ok(rest) => Ok(chunk + rest),
                        Err(e) => Err(e),
                    },
                    Err(e) => Err(e),
                }
            }
        } else {
            Err(Error::UnexpectedEof)
        }
    }
}

/// The bytes of a small stream read through the mini-FAT: 64-byte chunks
/// taken from the mini-stream, whose own sector chain starts at
/// `ministream_start`.
pub open spec fn spec_dump_mini(
    d: Seq<u8>,
    h: Header,
    ministream_start: u32,
    m: u32,
    size: u64,
) -> Result<Seq<u8>, Error>
    decreases size,
{
    if size == 0 {
        Ok(Seq::empty())
    } else {
        let n = if size < 64 {
            size as int
        } else {
            64
        };
        match spec_resolve(d, h, ministream_start, m * 64) {
            Ok(pos) => if pos + n <= d.len() {
                let chunk = d.subrange(pos, pos + n);
                if size == n {
                    Ok(chunk)
                } else {
                    match spec_next_mini_sector(d, h, m) {
                        Ok(nm) => match spec_dump_mini(
                            d,
                            h,
                            ministream_start,
                            nm,
                            (size - n) as u64,
                        ) {
                            Ok(rest) => Ok(chunk + rest),
                            Err(e) => Err(e),
                        },
                        Err(e) => Err(e),
                    }
                }
            } else {
                Err(Error::UnexpectedEof)
            },
            Err(e) => Err(e),
        }
    }
}

/// What dumping an object yields: the root storage's stream is the
/// mini-stream and is read through the FAT; a stream object strictly below
/// the cutoff is read through the mini-FAT, any other stream through the
/// FAT; storages and unknown objects cannot be dumped.
pub open spec fn spec_dump(d: Seq<u8>, h: Header, o: ObjectV) -> Result<Seq<u8>, Error> {
    match o.object_type {
        ObjectType::RootStorage => spec_dump_normal(d, h, o.starting_sector_location, o.stream_size),
        ObjectType::Stream => if o.stream_size < h.mini_stream_cutoff_size {
            match spec_get_object(d, h, 0) {
                Ok(root) => spec_dump_mini(
                    d,
                    h,
                    root.starting_sector_location,
                    o.starting_sector_location,
                    o.stream_size,
                ),
                Err(e) => Err(e),
            }
        } else {
            spec_dump_normal(d, h, o.starting_sector_location, o.stream_size)
        },
        _ => Err(Error::NotAStream),
    }
}

/// A resolved position is never negative.
pub proof fn lemma_resolve_nonneg(d: Seq<u8>, h: Header, s: u32, off: int)
    requires
        off >= 0,
    ensures
        spec_resolve(d, h, s, off) matches Ok(pos) ==> pos >= 0,
    decreases off,
{
    if h.sector_size >= 8 && !is_sentinel(s) {
        if off < h.sector_size {
            assert((s + 1) * h.sector_size >= 0) by (nonlinear_arith)
                requires
                    s >= 0,
                    h.sector_size >= 0,
            ;
        } else {
            match spec_next_sector(d, h, s) {
                Ok(nx) => {
                    lemma_resolve_nonneg(d, h, nx, off - h.sector_size);
                },
                Err(_) => {},
            }
        }
    }
}

/// A dump through the FAT that succeeds yields exactly `size` bytes.
pub proof fn lemma_dump_normal_len(d: Seq<u8>, h: Header, s: u32, size: u64)
    ensures
        spec_dump_normal(d, h, s, size) matches Ok(b) ==> b.len() == size,
    decreases size,
{
    if size != 0 && h.sector_size >= 8 && !is_sentinel(s) {
        let n = if size < h.sector_size {
            size as int
        } else {
            h.sector_size as int
        };
        if size != n {
            match spec_next_sector(d, h, s) {
                Ok(nx) => {
                    lemma_dump_normal_len(d, h, nx, (size - n) as u64);
                },
                Err(_) => {},
            }
        }
    }
}

/// A dump through the mini-FAT that succeeds yields exactly `size` bytes.
pub proof fn lemma_dump_mini_len(d: Seq<u8>, h: Header, ministream_start: u32, m: u32, size: u64)
    ensures
        spec_dump_mini(d, h, ministream_start, m, size) matches Ok(b) ==> b.len() == size,
    decreases size,
{
    if size != 0 {
        let n = if size < 64 {
            size as int
        } else {
            64
        };
        lemma_resolve_nonneg(d, h, ministream_start, m * 64);
        match spec_resolve(d, h, ministream_start, m * 64) {
            Ok(pos) => {
                if pos + n <= d.len() {
                    let chunk = d.subrange(pos, pos + n);
                    if size == n {
                        assert(spec_dump_mini(d, h, ministream_start, m, size) == Ok::<
                            Seq<u8>,
                            Error,
                        >(chunk));
                    } else {
                        match spec_next_mini_sector(d, h, m) {
                            Ok(nm) => {
                                lemma_dump_mini_len(d, h, ministream_start, nm, (size - n) as u64);
                                match spec_dump_mini(d, h, ministream_start, nm, (size - n) as u64) {
                                    Ok(rest) => {
                                        assert(spec_dump_mini(d, h, ministream_start, m, size)
                                            == Ok::<Seq<u8>, Error>(chunk + rest));
                                        assert((chunk + rest).len() == size);
                                    },
                                    Err(_) => {},
                                }
                            },
                            Err(_) => {},
                        }
                    }
                }
            },
            Err(_) => {},
        }
    }
}

} // verus!
