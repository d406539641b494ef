//! Container-wide laws: properties of the model that hold for every
//! container, stated and proved once and for all.

use vstd::prelude::*;
use crate::bytes::spec_le_u16;
use crate::cfbf::{Error, ObjectType, ObjectV};
use crate::header::{Header, is_sentinel};
use crate::model::{
    lemma_dump_normal_len, lemma_resolve_nonneg, sector_pos, spec_decode_entry, spec_dump,
    spec_dump_mini, spec_dump_normal, spec_entry_name_units, spec_find_by_name, spec_find_by_path,
    spec_get_object, spec_next_mini_sector, spec_next_sector, spec_resolve,
};
use crate::utf16::spec_utf16_decode;
use vstd::arithmetic::div_mod::{
    lemma_fundamental_div_mod, lemma_mod_bound, lemma_mod_mod, lemma_mod_multiples_basic,
    lemma_mod_sub_multiples_vanish, lemma_small_mod,
};

verus! {

/// Walking the FAT is a pure function of the container's bytes: any two
/// lookups of the successor of the same sector give the same answer.
pub proof fn lemma_next_sector_deterministic(
    d: Seq<u8>,
    h: Header,
    s: u32,
    r1: Result<u32, Error>,
    r2: Result<u32, Error>,
)
    requires
        r1 == spec_next_sector(d, h, s),
        r2 == spec_next_sector(d, h, s),
    ensures
        r1 == r2,
{
}

/// A directory entry whose stored name length is 0 decodes to the empty
/// name; no unit of the name field enters the result.
pub proof fn lemma_empty_name_decodes_empty(d: Seq<u8>, pos: int, id: u32)
    requires
        spec_le_u16(d, pos + 64) == 0,
    ensures
        spec_decode_entry(d, pos, id).name == Seq::<char>::empty(),
{
    assert(spec_entry_name_units(d, pos) =~= Seq::<u16>::empty());
    assert(spec_utf16_decode(Seq::<u16>::empty()) =~= Seq::<char>::empty());
}

/// Every object the name search returns was read out of the directory
/// under its own id.
pub proof fn lemma_find_by_name_located(d: Seq<u8>, h: Header, id: u32, name: Seq<char>, depth: nat)
    ensures
        spec_find_by_name(d, h, id, name, depth) matches Ok(Some(o)) ==> spec_get_object(
            d,
            h,
            o.id,
        ) == Ok::<ObjectV, Error>(o),
    decreases depth,
{
    if id <= 0xFFFF_FFFAu32 && depth > 0 {
        match spec_get_object(d, h, id) {
            Err(_) => {},
            Ok(o) => {
                if o.name == name {
                    assert(o.id == id);
                } else {
                    lemma_find_by_name_located(d, h, o.left_sibling_id, name, (depth - 1) as nat);
                    lemma_find_by_name_located(d, h, o.right_sibling_id, name, (depth - 1) as nat);
                    lemma_find_by_name_located(d, h, o.child_id, name, (depth - 1) as nat);
                }
            },
        }
    }
}

/// Every object the path search returns was read out of the directory
/// under its own id.
pub proof fn lemma_find_by_path_located(
    d: Seq<u8>,
    h: Header,
    id: u32,
    path: Seq<Seq<char>>,
    i: int,
    depth: nat,
)
    ensures
        spec_find_by_path(d, h, id, path, i, depth) matches Ok(Some(o)) ==> spec_get_object(
            d,
            h,
            o.id,
        ) == Ok::<ObjectV, Error>(o),
    decreases depth,
{
    if id <= 0xFFFF_FFFAu32 && depth > 0 {
        match spec_get_object(d, h, id) {
            Err(_) => {},
            Ok(o) => {
                if o.name == path[i] {
                    if i + 1 == path.len() {
                        assert(o.id == id);
                    } else {
                        lemma_find_by_path_located(d, h, o.child_id, path, i + 1, (depth - 1) as nat);
                    }
                } else {
                    lemma_find_by_path_located(d, h, o.left_sibling_id, path, i, (depth - 1) as nat);
                    lemma_find_by_path_located(d, h, o.right_sibling_id, path, i, (depth - 1) as nat);
                }
            },
        }
    }
}

/// Reachable ids are bounded by the directory's extent: if no entry at or
/// beyond `n` can be read, then any object found by the tree search has
/// an id below `n`.
pub proof fn lemma_reachable_id_bounded(
    d: Seq<u8>,
    h: Header,
    name: Seq<char>,
    depth: nat,
    n: u32,
    o: ObjectV,
)
    requires
        spec_find_by_name(d, h, 0, name, depth) == Ok::<Option<ObjectV>, Error>(Some(o)),
        forall|m: u32| n <= m ==> (#[trigger] spec_get_object(d, h, m)) is Err,
    ensures
        o.id < n,
{
    lemma_find_by_name_located(d, h, 0, name, depth);
    assert(spec_get_object(d, h, o.id) == Ok::<ObjectV, Error>(o));
}

/// The root storage's stream is read as an ordinary FAT stream: dumping
/// the root object yields the raw mini-stream itself.
pub proof fn lemma_dump_root_is_ministream(d: Seq<u8>, h: Header, root: ObjectV)
    requires
        root.object_type == ObjectType::RootStorage,
    ensures
        spec_dump(d, h, root) == spec_dump_normal(
            d,
            h,
            root.starting_sector_location,
            root.stream_size,
        ),
{
}

/// A linked run of real, in-range sectors: each one's FAT successor is
/// the next.  Nothing is said about the FAT entry of the last sector.
pub open spec fn spec_is_chain(d: Seq<u8>, h: Header, cs: Seq<u32>) -> bool {
    &&& forall|k: int|
        0 <= k < cs.len() ==> !is_sentinel(#[trigger] cs[k]) && sector_pos(h, cs[k])
            + h.sector_size <= d.len()
    &&& forall|k: int|
        0 <= k < cs.len() - 1 ==> spec_next_sector(d, h, #[trigger] cs[k]) == Ok::<u32, Error>(
            cs[k + 1],
        )
}

/// A stream whose size is an exact multiple of the sector size ends at a
/// sector boundary, and dumping it succeeds without ever consulting the
/// FAT entry of the last sector: that entry is unconstrained here, so it
/// may well be ENDOFCHAIN.
pub proof fn lemma_dump_exact_multiple(d: Seq<u8>, h: Header, cs: Seq<u32>, size: u64)
    requires
        8 <= h.sector_size <= 0x8000_0000,
        cs.len() >= 1,
        spec_is_chain(d, h, cs),
        size == cs.len() * h.sector_size,
    ensures
        spec_dump_normal(d, h, cs[0], size) is Ok,
    decreases cs.len(),
{
    assert(cs.len() * h.sector_size >= 1 * h.sector_size) by (nonlinear_arith)
        requires
            cs.len() >= 1,
            h.sector_size >= 0,
    ;
    let n = h.sector_size as int;
    if cs.len() == 1 {
        assert(size == n);
    } else {
        let rest = cs.subrange(1, cs.len() as int);
        assert(spec_is_chain(d, h, rest)) by {
            assert(forall|k: int| 0 <= k < rest.len() ==> rest[k] == cs[k + 1]);
        }
        let size2 = (size - n) as u64;
        assert(size2 == rest.len() * h.sector_size) by (nonlinear_arith)
            requires
                size == cs.len() * h.sector_size,
                size2 == size - h.sector_size,
                rest.len() == cs.len() - 1,
                cs.len() >= 1,
        ;
        assert(rest.len() >= 1);
        lemma_dump_exact_multiple(d, h, rest, size2);
        assert(spec_next_sector(d, h, cs[0]) == Ok::<u32, Error>(cs[1]));
        assert(rest[0] == cs[1]);
        assert(size != n) by (nonlinear_arith)
            requires
                size == cs.len() * h.sector_size,
                n == h.sector_size,
                cs.len() >= 2,
                h.sector_size >= 8,
        ;
    }
}

/// Mini-path selection is strict: a stream whose size equals the cutoff
/// is read through the FAT, not the mini-FAT.
pub proof fn lemma_cutoff_takes_normal_path(d: Seq<u8>, h: Header, o: ObjectV)
    requires
        o.object_type == ObjectType::Stream,
        o.stream_size >= h.mini_stream_cutoff_size,
    ensures
        spec_dump(d, h, o) == spec_dump_normal(d, h, o.starting_sector_location, o.stream_size),
{
}

/// Each byte of a successfully dumped FAT stream comes from the resolved
/// position of its offset.
pub proof fn lemma_dump_normal_index(d: Seq<u8>, h: Header, s: u32, size: u64, p: int)
    requires
        spec_dump_normal(d, h, s, size) is Ok,
        0 <= p < size,
    ensures
        spec_resolve(d, h, s, p) is Ok,
        ({
            let b = spec_dump_normal(d, h, s, size)->Ok_0;
            let pos = spec_resolve(d, h, s, p)->Ok_0;
            0 <= pos && pos + 1 <= d.len() && b[p] == d[pos]
        }),
    decreases size,
{
    let ssz = h.sector_size as int;
    let n = if size < h.sector_size {
        size as int
    } else {
        ssz
    };
    let pos0 = sector_pos(h, s);
    assert(pos0 >= 0) by (nonlinear_arith)
        requires
            s >= 0,
            h.sector_size >= 0,
            pos0 == (s + 1) * h.sector_size,
    ;
    lemma_dump_normal_len(d, h, s, size);
    let b = spec_dump_normal(d, h, s, size)->Ok_0;
    let chunk = d.subrange(pos0, pos0 + n);
    if p < n {
        assert(spec_resolve(d, h, s, p) == Ok::<int, Error>(pos0 + p));
        if size == n {
            assert(b == chunk);
        } else {
            let nx = spec_next_sector(d, h, s)->Ok_0;
            let rest = spec_dump_normal(d, h, nx, (size - n) as u64)->Ok_0;
            assert(b == chunk + rest);
            assert(b[p] == chunk[p]);
        }
        assert(b[p] == d[pos0 + p]);
    } else {
        let nx = spec_next_sector(d, h, s)->Ok_0;
        lemma_dump_normal_index(d, h, nx, (size - n) as u64, p - n);
        lemma_dump_normal_len(d, h, nx, (size - n) as u64);
        let rest = spec_dump_normal(d, h, nx, (size - n) as u64)->Ok_0;
        assert(b == chunk + rest);
        assert(b[p] == rest[p - n]);
        assert(spec_resolve(d, h, s, p) == spec_resolve(d, h, nx, p - ssz));
    }
}

/// Offsets that stay within one sector resolve to consecutive positions.
pub proof fn lemma_resolve_contiguous(d: Seq<u8>, h: Header, s: u32, off: int, n: int)
    requires
        off >= 0,
        n >= 1,
        spec_resolve(d, h, s, off) is Ok,
        (off % (h.sector_size as int)) + n <= h.sector_size,
    ensures
        forall|j: int|
            0 <= j < n ==> #[trigger] spec_resolve(d, h, s, off + j) == Ok::<int, Error>(
                spec_resolve(d, h, s, off)->Ok_0 + j,
            ),
    decreases off,
{
    let ssz = h.sector_size as int;
    if off < ssz {
        lemma_small_mod(off as nat, ssz as nat);
        assert forall|j: int| 0 <= j < n implies (#[trigger] spec_resolve(d, h, s, off + j))
            == Ok::<int, Error>(spec_resolve(d, h, s, off)->Ok_0 + j) by {
            assert(off + j < ssz);
        }
    } else {
        lemma_mod_sub_multiples_vanish(off, ssz);
        let nx = spec_next_sector(d, h, s)->Ok_0;
        lemma_resolve_contiguous(d, h, nx, off - ssz, n);
        assert forall|j: int| 0 <= j < n implies (#[trigger] spec_resolve(d, h, s, off + j))
            == Ok::<int, Error>(spec_resolve(d, h, s, off)->Ok_0 + j) by {
            assert(off + j >= ssz);
            assert(spec_resolve(d, h, s, off + j) == spec_resolve(d, h, nx, off - ssz + j));
        }
    }
}

/// A mini-sector offset leaves at least one whole mini-sector of room
/// before the end of its containing sector.
proof fn lemma_mini_offset_fits(m: u32, ssz: int)
    requires
        ssz % 64 == 0,
        ssz >= 64,
    ensures
        0 <= (m * 64) % ssz,
        (m * 64) % ssz + 64 <= ssz,
{
    let off = m as int * 64;
    let r = off % ssz;
    lemma_mod_bound(off, ssz);
    let q = ssz / 64;
    lemma_fundamental_div_mod(ssz, 64);
    assert(ssz == 64 * q);
    lemma_mod_mod(off, 64, q);
    lemma_mod_multiples_basic(m as int, 64);
    assert(r % 64 == 0);
    let k = r / 64;
    lemma_fundamental_div_mod(r, 64);
    assert(r == 64 * k);
    assert(k < q) by (nonlinear_arith)
        requires
            64 * k < 64 * q,
    ;
    assert(r <= ssz - 64);
}

/// The mini-sector chain of a small stream, checked to lie inside the
/// mini-stream: every chunk it touches ends at or before `ms_size`.
pub open spec fn spec_mini_chain_in_stream(
    d: Seq<u8>,
    h: Header,
    m: u32,
    size: u64,
    ms_size: u64,
) -> bool
    decreases size,
{
    if size == 0 {
        true
    } else {
        let n = if size < 64 {
            size as int
        } else {
            64
        };
        &&& m * 64 + n <= ms_size
        &&& (size == n || (spec_next_mini_sector(d, h, m) matches Ok(nm)
            && spec_mini_chain_in_stream(d, h, nm, (size - n) as u64, ms_size)))
    }
}

/// The 64-byte slices of the mini-stream `ms` that the mini-FAT chain
/// starting at `m` designates for a stream of `size` bytes.
pub open spec fn spec_mini_slices(d: Seq<u8>, h: Header, ms: Seq<u8>, m: u32, size: u64) -> Seq<
    u8,
>
    decreases size,
{
    if size == 0 {
        Seq::empty()
    } else {
        let n = if size < 64 {
            size as int
        } else {
            64
        };
        let chunk = ms.subrange(m * 64, m * 64 + n);
        if size == n {
            chunk
        } else {
            match spec_next_mini_sector(d, h, m) {
                Ok(nm) => chunk + spec_mini_slices(d, h, ms, nm, (size - n) as u64),
                Err(_) => chunk,
            }
        }
    }
}

/// A stream dumped through the mini-FAT is assembled from slices of the
/// mini-stream: chunk by chunk, its bytes equal the mini-stream bytes at
/// `mini_sector * 64`, following the mini-FAT chain.
pub proof fn lemma_mini_dump_is_ministream_slices(
    d: Seq<u8>,
    h: Header,
    msstart: u32,
    ms_size: u64,
    m: u32,
    size: u64,
)
    requires
        spec_dump_normal(d, h, msstart, ms_size) is Ok,
        spec_dump_mini(d, h, msstart, m, size) is Ok,
        h.sector_size % 64 == 0,
        h.sector_size >= 64,
        spec_mini_chain_in_stream(d, h, m, size, ms_size),
    ensures
        spec_dump_mini(d, h, msstart, m, size)->Ok_0 == spec_mini_slices(
            d,
            h,
            spec_dump_normal(d, h, msstart, ms_size)->Ok_0,
            m,
            size,
        ),
    decreases size,
{
    let ms = spec_dump_normal(d, h, msstart, ms_size)->Ok_0;
    lemma_dump_normal_len(d, h, msstart, ms_size);
    if size == 0 {
        assert(spec_dump_mini(d, h, msstart, m, size)->Ok_0 =~= spec_mini_slices(
            d,
            h,
            ms,
            m,
            size,
        ));
    } else {
        let ssz = h.sector_size as int;
        let n = if size < 64 {
            size as int
        } else {
            64
        };
        let off = m as int * 64;
        let pos = spec_resolve(d, h, msstart, off)->Ok_0;
        lemma_mini_offset_fits(m, ssz);
        lemma_resolve_nonneg(d, h, msstart, off);
        lemma_resolve_contiguous(d, h, msstart, off, n);
        assert forall|j: int| 0 <= j < n implies (#[trigger] d.subrange(pos, pos + n)[j])
            == ms.subrange(off, off + n)[j] by {
            lemma_dump_normal_index(d, h, msstart, ms_size, off + j);
            assert(spec_resolve(d, h, msstart, off + j) == Ok::<int, Error>(pos + j));
            assert(ms[off + j] == d[pos + j]);
        }
        assert(d.subrange(pos, pos + n) =~= ms.subrange(off, off + n));
        if size == n {
        } else {
            let nm = spec_next_mini_sector(d, h, m)->Ok_0;
            lemma_mini_dump_is_ministream_slices(d, h, msstart, ms_size, nm, (size - n) as u64);
        }
    }
}

/// The single-chunk reading of the correspondence: a stream that fits in
/// one mini-sector is exactly the mini-stream slice at
/// `[start * 64 .. start * 64 + size]`.
pub proof fn lemma_small_stream_is_ministream_slice(
    d: Seq<u8>,
    h: Header,
    msstart: u32,
    ms_size: u64,
    m: u32,
    size: u64,
)
    requires
        spec_dump_normal(d, h, msstart, ms_size) is Ok,
        spec_dump_mini(d, h, msstart, m, size) is Ok,
        h.sector_size % 64 == 0,
        h.sector_size >= 64,
        0 < size <= 64,
        m * 64 + size <= ms_size,
    ensures
        spec_dump_mini(d, h, msstart, m, size)->Ok_0 == spec_dump_normal(
            d,
            h,
            msstart,
            ms_size,
        )->Ok_0.subrange(m * 64, m * 64 + size),
{
    lemma_mini_dump_is_ministream_slices(d, h, msstart, ms_size, m, size);
}

} // verus!
