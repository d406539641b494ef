//! The container reader: directory objects, tree searches and stream
//! extraction over an in-memory byte buffer.

use vstd::prelude::*;
use crate::bytes::{read_le_u16, read_le_u32, read_le_u64, spec_le_u64};
use crate::header::{
    Header, SectorLocation, CFBF_MAGIC, MAX_REGULAR_SECTOR, header_wf, is_sentinel,
    lemma_sector_size_bounds, spec_geometry_ok, spec_header,
};
use crate::model::{
    lemma_dump_mini_len, lemma_dump_normal_len, spec_decode_entry, spec_difat_entry,
    spec_difat_walk, spec_dump, spec_dump_mini, spec_dump_normal, spec_entry_name_unit_count,
    spec_entry_name_units, spec_find_by_name, spec_find_by_path, spec_get_object, spec_lookup,
    spec_nav_u32, spec_next_mini_sector, spec_next_sector, spec_resolve, spec_resolve_mini,
    spec_walk_chain,
};
use crate::utf16::decode_utf16_units;

verus! {

/// How reading a container can fail.
#[derive(Clone, Copy, PartialEq, Eq, Structural, Debug)]
pub enum Error {
    /// The magic signature is missing or the declared geometry is not
    /// supported.
    BadFormat,
    /// A chain ended or left the file while more data was required, or a
    /// sentinel id stood where a real id was needed.
    CorruptChain,
    /// A dump was requested of an object that carries no stream.
    NotAStream,
    /// A layout-mandated read reached past the end of the buffer.
    UnexpectedEof,
}

/// Whether a directory object is a folder, a file, or the root.
#[derive(Clone, Copy, PartialEq, Eq, Structural, Debug)]
pub enum ObjectType {
    /// The root folder, whose stream is the mini-stream.
    RootStorage,
    /// A folder.
    Storage,
    /// A file.
    Stream,
    Unknown,
}

/// The mathematical value of a directory object.
pub ghost struct ObjectV {
    pub id: u32,
    pub name: Seq<char>,
    pub object_type: ObjectType,
    pub left_sibling_id: u32,
    pub right_sibling_id: u32,
    pub child_id: u32,
    pub creation_time: u64,
    pub modified_time: u64,
    pub starting_sector_location: u32,
    pub stream_size: u64,
}

/// A decoded 128-byte directory entry.
#[derive(Clone, Debug)]
pub struct Object {
    /// Position of the entry in the directory stream.
    pub id: u32,
    pub name: String,
    /// Whether this object is a folder or a file.
    pub object_type: ObjectType,
    /// The id of the left sibling object in this folder's binary tree.
    pub left_sibling_id: u32,
    /// The id of the right sibling object in this folder's binary tree.
    pub right_sibling_id: u32,
    /// For a folder: the id of the object at the root of its child tree.
    pub child_id: u32,
    pub creation_time: u64,
    pub modified_time: u64,
    /// For a file: the first sector (or mini-sector) of its content.  For
    /// the root storage: the first sector of the mini-stream.
    pub starting_sector_location: u32,
    /// For a file: the content length.  For the root storage: the length
    /// of the mini-stream.
    pub stream_size: u64,
}

impl View for Object {
    type V = ObjectV;

    open spec fn view(&self) -> ObjectV {
        ObjectV {
            id: self.id,
            name: self.name@,
            object_type: self.object_type,
            left_sibling_id: self.left_sibling_id,
            right_sibling_id: self.right_sibling_id,
            child_id: self.child_id,
            creation_time: self.creation_time,
            modified_time: self.modified_time,
            starting_sector_location: self.starting_sector_location,
            stream_size: self.stream_size,
        }
    }
}

/// The outcome of dereferencing a tree pointer: the object, or nothing
/// when the pointer held a sentinel.
#[derive(Clone, Debug)]
pub enum ObjectResult {
    Found(Object),
    Missing,
}

/// The model value of an object-returning result.
pub open spec fn res_view(r: Result<Object, Error>) -> Result<ObjectV, Error> {
    match r {
        Ok(o) => Ok(o@),
        Err(e) => Err(e),
    }
}

/// The model value of an optional-object-returning result.
pub open spec fn ores_view(r: Result<ObjectResult, Error>) -> Result<Option<ObjectV>, Error> {
    match r {
        Ok(ObjectResult::Found(o)) => Ok(Some(o@)),
        Ok(ObjectResult::Missing) => Ok(None),
        Err(e) => Err(e),
    }
}

/// Appends `d[pos .. pos + n]` to `out`.
fn push_range(out: &mut Vec<u8>, d: &Vec<u8>, pos: usize, n: usize)
    requires
        pos + n <= d.len(),
    ensures
        final(out)@ == old(out)@ + d@.subrange(pos as int, pos as int + n as int),
{
    let mut k: usize = 0;
    proof {
        assert(out@ + d@.subrange(pos as int, pos as int) =~= out@);
    }
    while k < n
        invariant
            k <= n,
            pos + n <= d.len(),
            out@ == old(out)@ + d@.subrange(pos as int, pos as int + k as int),
        decreases n - k,
    {
        out.push(d[pos + k]);
        proof {
            assert(old(out)@ + d@.subrange(pos as int, pos as int + k as int + 1) =~= out@);
        }
        k = k + 1;
    }
}

/// Recursion bound for the sibling/child tree walks: a well-formed
/// directory tree is balanced and stays far below this; a malformed
/// cyclic one fails with `CorruptChain` instead of diverging.
pub const SEARCH_DEPTH_LIMIT: u32 = 512;

/// A read-only container over an in-memory byte buffer.
pub struct Container {
    data: Vec<u8>,
    header: Header,
}

impl Container {
    /// The bytes the container was opened over.
    pub closed spec fn bytes(&self) -> Seq<u8> {
        self.data@
    }

    /// The parsed header.
    pub closed spec fn head(&self) -> Header {
        self.header
    }

    #[verifier::type_invariant]
    spec fn wf(self) -> bool {
        header_wf(self.data@, self.header)
    }

    /// Opens a container: decodes the 76-byte header and checks the magic
    /// signature and the geometry bounds.
    pub fn new(data: Vec<u8>) -> (r: Result<Container, Error>)
        ensures
            data@.len() < 76 ==> r == Err::<Container, Error>(Error::UnexpectedEof),
            data@.len() >= 76 && (spec_le_u64(data@, 0) != CFBF_MAGIC || !spec_geometry_ok(data@))
                ==> r == Err::<Container, Error>(Error::BadFormat),
            data@.len() >= 76 && spec_le_u64(data@, 0) == CFBF_MAGIC && spec_geometry_ok(data@)
                ==> (r matches Ok(c) && c.bytes() == data@ && c.head() == spec_header(data@)),
    {
        if data.len() < 76 {
            return Err(Error::UnexpectedEof);
        }
        let signature = read_le_u64(&data, 0);
        if signature != CFBF_MAGIC {
            return Err(Error::BadFormat);
        }
        let sector_shift = read_le_u16(&data, 30);
        let mini_sector_shift = read_le_u16(&data, 32);
        if sector_shift < 3 || sector_shift > 31 || mini_sector_shift > 31 {
            return Err(Error::BadFormat);
        }
        let header = Header {
            signature,
            minor_version: read_le_u16(&data, 24),
            major_version: read_le_u16(&data, 26),
            byte_order: read_le_u16(&data, 28),
            sector_shift,
            sector_size: 1u64 << (sector_shift as u64),
            mini_sector_shift,
            mini_sector_size: 1u64 << (mini_sector_shift as u64),
            number_of_directory_sectors: read_le_u32(&data, 40),
            number_of_fat_sectors: read_le_u32(&data, 44),
            first_directory_sector_location: SectorLocation(read_le_u32(&data, 48)),
            mini_stream_cutoff_size: read_le_u32(&data, 56),
            first_mini_fat_sector_location: SectorLocation(read_le_u32(&data, 60)),
            number_of_mini_fat_sectors: read_le_u32(&data, 64),
            first_difat_sector_location: SectorLocation(read_le_u32(&data, 68)),
            number_of_difat_sectors: read_le_u32(&data, 72),
        };
        Ok(Container { data, header })
    }

    /// A 4-byte navigation read at an absolute position.
    fn nav_read_u32(&self, pos: u64) -> (r: Result<u32, Error>)
        ensures
            r == spec_nav_u32(self.bytes(), pos as int),
    {
        let len = self.data.len();
        if pos <= u64::MAX - 4 && pos + 4 <= len as u64 {
            Ok(read_le_u32(&self.data, pos as usize))
        } else {
            Err(Error::CorruptChain)
        }
    }

    /// The location of FAT sector `fat_index`, from the header's inline
    /// DIFAT entries or from the DIFAT sector chain.
    fn difat_entry(&self, fat_index: u32) -> (r: Result<u32, Error>)
        ensures
            r == spec_difat_entry(self.bytes(), self.head(), fat_index),
    {
        proof {
            use_type_invariant(&*self);
            lemma_sector_size_bounds(self.header);
        }
        if fat_index < 109 {
            return self.nav_read_u32(0x4C + (fat_index as u64) * 4);
        }
        let first = self.header.first_difat_sector_location.0;
        if first > MAX_REGULAR_SECTOR {
            return Err(Error::CorruptChain);
        }
        let per_minus_one: u64 = self.header.sector_size / 4 - 1;
        let mut j: u64 = (fat_index - 109) as u64;
        let mut cur: u32 = first;
        proof {
            assert(spec_difat_entry(self.bytes(), self.head(), fat_index) == spec_difat_walk(
                self.bytes(),
                self.head(),
                first,
                (fat_index - 109) as nat,
            ));
        }
        while j >= per_minus_one
            invariant
                self.wf(),
                8 <= self.head().sector_size <= 0x8000_0000,
                per_minus_one == self.head().sector_size as int / 4 - 1,
                per_minus_one >= 1,
                !is_sentinel(cur),
                spec_difat_entry(self.bytes(), self.head(), fat_index) == spec_difat_walk(
                    self.bytes(),
                    self.head(),
                    cur,
                    j as nat,
                ),
            decreases j,
        {
            proof {
                assert((cur + 1) * self.head().sector_size <= 0xFFFF_FFFB * 0x8000_0000u64) by (
                nonlinear_arith)
                    requires
                        cur + 1 <= 0xFFFF_FFFB,
                        0 < self.head().sector_size <= 0x8000_0000,
                ;
            }
            let pos: u64 = (cur as u64 + 1) * self.header.sector_size + per_minus_one * 4;
            let next = match self.nav_read_u32(pos) {
                Ok(v) => v,
                Err(e) => {
                    return Err(e);
                },
            };
            if next > MAX_REGULAR_SECTOR {
                return Err(Error::CorruptChain);
            }
            cur = next;
            j = j - per_minus_one;
        }
        proof {
            assert((cur + 1) * self.head().sector_size <= 0xFFFF_FFFB * 0x8000_0000u64) by (
            nonlinear_arith)
                requires
                    cur + 1 <= 0xFFFF_FFFB,
                    0 < self.head().sector_size <= 0x8000_0000,
            ;
        }
        let pos: u64 = (cur as u64 + 1) * self.header.sector_size + j * 4;
        self.nav_read_u32(pos)
    }

    /// The FAT successor of sector `s`: looks up the FAT sector that
    /// covers `s` through the DIFAT and reads the entry.
    pub fn next_sector(&self, s: u32) -> (r: Result<u32, Error>)
        ensures
            r == spec_next_sector(self.bytes(), self.head(), s),
    {
        proof {
            use_type_invariant(&*self);
            lemma_sector_size_bounds(self.header);
        }
        if s > MAX_REGULAR_SECTOR {
            return Err(Error::CorruptChain);
        }
        let per: u64 = self.header.sector_size / 4;
        let fat_index_wide: u64 = (s as u64) / per;
        let fat_offset: u64 = ((s as u64) % per) * 4;
        proof {
            assert((s as u64) / per <= s as u64) by (nonlinear_arith)
                requires
                    per >= 1,
            ;
            assert((s as u64) % per < per) by (nonlinear_arith)
                requires
                    per >= 1,
            ;
        }
        let fat_index: u32 = fat_index_wide as u32;
        let fat_sector = match self.difat_entry(fat_index) {
            Ok(v) => v,
            Err(e) => {
                return Err(e);
            },
        };
        if fat_sector > MAX_REGULAR_SECTOR {
            return Err(Error::CorruptChain);
        }
        proof {
            assert((fat_sector + 1) * self.head().sector_size <= 0xFFFF_FFFB * 0x8000_0000u64)
                by (nonlinear_arith)
                requires
                    fat_sector + 1 <= 0xFFFF_FFFB,
                    0 < self.head().sector_size <= 0x8000_0000,
            ;
        }
        let pos: u64 = (fat_sector as u64 + 1) * self.header.sector_size + fat_offset;
        self.nav_read_u32(pos)
    }

    /// The absolute position of byte `off` of the stream starting in
    /// sector `s`, walking the FAT while the offset exceeds a sector.
    fn resolve_offset(&self, s: u32, off: u64) -> (r: Result<u64, Error>)
        ensures
            match r {
                Ok(pos) => spec_resolve(self.bytes(), self.head(), s, off as int) == Ok::<
                    int,
                    Error,
                >(pos as int),
                Err(e) => spec_resolve(self.bytes(), self.head(), s, off as int) == Err::<
                    int,
                    Error,
                >(e),
            },
    {
        proof {
            use_type_invariant(&*self);
            lemma_sector_size_bounds(self.header);
        }
        let ssz: u64 = self.header.sector_size;
        let mut cur: u32 = s;
        let mut o: u64 = off;
        while o >= ssz
            invariant
                self.wf(),
                8 <= ssz <= 0x8000_0000,
                ssz == self.head().sector_size,
                spec_resolve(self.bytes(), self.head(), s, off as int) == spec_resolve(
                    self.bytes(),
                    self.head(),
                    cur,
                    o as int,
                ),
            decreases o,
        {
            if cur > MAX_REGULAR_SECTOR {
                return Err(Error::CorruptChain);
            }
            let nx = match self.next_sector(cur) {
                Ok(v) => v,
                Err(e) => {
                    return Err(e);
                },
            };
            cur = nx;
            o = o - ssz;
        }
        if cur > MAX_REGULAR_SECTOR {
            return Err(Error::CorruptChain);
        }
        proof {
            assert((cur + 1) * ssz <= 0xFFFF_FFFB * 0x8000_0000u64) by (nonlinear_arith)
                requires
                    cur + 1 <= 0xFFFF_FFFB,
                    0 < ssz <= 0x8000_0000,
            ;
        }
        Ok((cur as u64 + 1) * ssz + o)
    }

    /// The mini-FAT successor of mini-sector `m`: chains to the mini-FAT
    /// sector that covers `m` and reads the entry.
    pub fn next_mini_sector(&self, m: u32) -> (r: Result<u32, Error>)
        ensures
            r == spec_next_mini_sector(self.bytes(), self.head(), m),
    {
        proof {
            use_type_invariant(&*self);
            lemma_sector_size_bounds(self.header);
        }
        let per: u64 = self.header.sector_size / 4;
        let jumps: u64 = (m as u64) / per;
        let entry_offset: u64 = ((m as u64) % per) * 4;
        proof {
            assert((m as u64) / per <= m as u64) by (nonlinear_arith)
                requires
                    per >= 1,
            ;
            assert((m as u64) % per < per) by (nonlinear_arith)
                requires
                    per >= 1,
            ;
        }
        let mut cur: u32 = self.header.first_mini_fat_sector_location.0;
        let mut k: u64 = 0;
        while k < jumps
            invariant
                self.wf(),
                k <= jumps,
                jumps == m as int / (self.head().sector_size as int / 4),
                spec_walk_chain(
                    self.bytes(),
                    self.head(),
                    self.head().first_mini_fat_sector_location.0,
                    jumps as nat,
                ) == spec_walk_chain(self.bytes(), self.head(), cur, (jumps - k) as nat),
            decreases jumps - k,
        {
            let nx = match self.next_sector(cur) {
                Ok(v) => v,
                Err(e) => {
                    return Err(e);
                },
            };
            cur = nx;
            k = k + 1;
        }
        if cur > MAX_REGULAR_SECTOR {
            return Err(Error::CorruptChain);
        }
        proof {
            lemma_sector_size_bounds(self.header);
            assert((cur + 1) * self.head().sector_size <= 0xFFFF_FFFB * 0x8000_0000u64) by (
            nonlinear_arith)
                requires
                    cur + 1 <= 0xFFFF_FFFB,
                    0 < self.head().sector_size <= 0x8000_0000,
            ;
        }
        let pos: u64 = (cur as u64 + 1) * self.header.sector_size + entry_offset;
        self.nav_read_u32(pos)
    }

    /// The absolute position of byte `off` of the small stream starting
    /// in mini-sector `m`, walking the mini-FAT while the offset exceeds
    /// a mini-sector and then locating the byte inside the mini-stream.
    fn resolve_mini_offset(&self, ministream_start: u32, m: u32, off: u64) -> (r: Result<
        u64,
        Error,
    >)
        ensures
            match r {
                Ok(pos) => spec_resolve_mini(
                    self.bytes(),
                    self.head(),
                    ministream_start,
                    m,
                    off as int,
                ) == Ok::<int, Error>(pos as int),
                Err(e) => spec_resolve_mini(
                    self.bytes(),
                    self.head(),
                    ministream_start,
                    m,
                    off as int,
                ) == Err::<int, Error>(e),
            },
    {
        let mut cur: u32 = m;
        let mut o: u64 = off;
        while o >= 64
            invariant
                spec_resolve_mini(self.bytes(), self.head(), ministream_start, m, off as int)
                    == spec_resolve_mini(self.bytes(), self.head(), ministream_start, cur, o as int),
            decreases o,
        {
            let nm = match self.next_mini_sector(cur) {
                Ok(v) => v,
                Err(e) => {
                    return Err(e);
                },
            };
            cur = nm;
            o = o - 64;
        }
        self.resolve_offset(ministream_start, (cur as u64) * 64 + o)
    }

    /// Decodes the 128-byte directory entry at absolute position `pos`.
    fn read_dir_entry(&self, pos: u64, id: u32) -> (r: Object)
        requires
            pos + 128 <= self.bytes().len(),
        ensures
            r@ == spec_decode_entry(self.bytes(), pos as int, id),
            r.id == id,
    {
        let d = &self.data;
        let dlen: usize = d.len();
        proof {
            assert(pos + 128 <= dlen);
        }
        let p = pos as usize;
        let name_length = read_le_u16(d, p + 64);
        let unit_count: u16 = if name_length < 2 {
            0
        } else if name_length / 2 - 1 > 32 {
            32
        } else {
            name_length / 2 - 1
        };
        let ghost want = spec_entry_name_units(d@, pos as int);
        proof {
            assert(unit_count as int == spec_entry_name_unit_count(d@, pos as int));
        }
        let mut units: Vec<u16> = Vec::new();
        let mut k: usize = 0;
        while k < unit_count as usize
            invariant
                unit_count <= 32,
                k <= unit_count,
                p == pos,
                p + 128 <= d@.len(),
                d@.len() <= usize::MAX,
                want == spec_entry_name_units(d@, pos as int),
                unit_count as int == want.len(),
                units@ == want.take(k as int),
            decreases unit_count as int - k,
        {
            let u = read_le_u16(d, p + 2 * k);
            units.push(u);
            proof {
                assert(units@ =~= want.take(k as int + 1));
            }
            k = k + 1;
        }
        proof {
            assert(units@ =~= want);
        }
        let name = decode_utf16_units(&units);
        let type_byte = d[p + 66];
        let object_type = if type_byte == 1 {
            ObjectType::Storage
        } else if type_byte == 2 {
            ObjectType::Stream
        } else if type_byte == 5 {
            ObjectType::RootStorage
        } else {
            ObjectType::Unknown
        };
        Object {
            id,
            name,
            object_type,
            left_sibling_id: read_le_u32(d, p + 68),
            right_sibling_id: read_le_u32(d, p + 72),
            child_id: read_le_u32(d, p + 76),
            creation_time: read_le_u64(d, p + 100),
            modified_time: read_le_u64(d, p + 108),
            starting_sector_location: read_le_u32(d, p + 116),
            stream_size: read_le_u64(d, p + 120),
        }
    }

    /// Reads the directory entry with the given id.  A returned object
    /// always carries the id it was asked for.
    pub fn get_object(&self, id: u32) -> (r: Result<Object, Error>)
        ensures
            res_view(r) == spec_get_object(self.bytes(), self.head(), id),
            r matches Ok(o) ==> o.id == id,
    {
        proof {
            use_type_invariant(&*self);
        }
        let first = self.header.first_directory_sector_location.0;
        let pos = match self.resolve_offset(first, (id as u64) * 128) {
            Ok(v) => v,
            Err(e) => {
                return Err(e);
            },
        };
        let len = self.data.len();
        if pos <= u64::MAX - 128 && pos + 128 <= len as u64 {
            Ok(self.read_dir_entry(pos, id))
        } else {
            Err(Error::UnexpectedEof)
        }
    }

    /// Reads the root storage object, the directory entry with id 0.
    pub fn get_root_object(&self) -> (r: Result<Object, Error>)
        ensures
            res_view(r) == spec_get_object(self.bytes(), self.head(), 0),
            r matches Ok(o) ==> o.id == 0,
    {
        self.get_object(0)
    }

    /// Dereferences a tree-pointer id: absent for a sentinel, otherwise
    /// the object it names.
    fn lookup(&self, id: u32) -> (r: Result<ObjectResult, Error>)
        ensures
            ores_view(r) == spec_lookup(self.bytes(), self.head(), id),
    {
        if id > MAX_REGULAR_SECTOR {
            return Ok(ObjectResult::Missing);
        }
        match self.get_object(id) {
            Ok(o) => Ok(ObjectResult::Found(o)),
            Err(e) => Err(e),
        }
    }

    /// The object named by this object's first-child pointer, if any.
    pub fn get_first_child(&self, object: &Object) -> (r: Result<ObjectResult, Error>)
        ensures
            ores_view(r) == spec_lookup(self.bytes(), self.head(), object.child_id),
    {
        self.lookup(object.child_id)
    }

    /// The object named by this object's left-sibling pointer, if any.
    pub fn get_left_sibling(&self, object: &Object) -> (r: Result<ObjectResult, Error>)
        ensures
            ores_view(r) == spec_lookup(self.bytes(), self.head(), object.left_sibling_id),
    {
        self.lookup(object.left_sibling_id)
    }

    /// The object named by this object's right-sibling pointer, if any.
    pub fn get_right_sibling(&self, object: &Object) -> (r: Result<ObjectResult, Error>)
        ensures
            ores_view(r) == spec_lookup(self.bytes(), self.head(), object.right_sibling_id),
    {
        self.lookup(object.right_sibling_id)
    }

    fn find_by_name_rec(&self, id: u32, name: &String, depth: u32) -> (r: Result<
        ObjectResult,
        Error,
    >)
        ensures
            ores_view(r) == spec_find_by_name(self.bytes(), self.head(), id, name@, depth as nat),
        decreases depth,
    {
        if id > MAX_REGULAR_SECTOR {
            return Ok(ObjectResult::Missing);
        }
        if depth == 0 {
            return Err(Error::CorruptChain);
        }
        let o = match self.get_object(id) {
            Ok(o) => o,
            Err(e) => {
                return Err(e);
            },
        };
        if o.name == *name {
            return Ok(ObjectResult::Found(o));
        }
        match self.find_by_name_rec(o.left_sibling_id, name, depth - 1) {
            Ok(ObjectResult::Found(r)) => Ok(ObjectResult::Found(r)),
            Ok(ObjectResult::Missing) => match self.find_by_name_rec(
                o.right_sibling_id,
                name,
                depth - 1,
            ) {
                Ok(ObjectResult::Found(r)) => Ok(ObjectResult::Found(r)),
                Ok(ObjectResult::Missing) => self.find_by_name_rec(o.child_id, name, depth - 1),
                Err(e) => Err(e),
            },
            Err(e) => Err(e),
        }
    }

    /// Finds the first object with the given name, searching the whole
    /// sibling/child tree from the root entry: each node is tried itself,
    /// then its left-sibling, right-sibling and child subtrees, in that
    /// order.
    pub fn find_child_by_name(&self, name: &str) -> (r: Result<ObjectResult, Error>)
        ensures
            ores_view(r) == spec_find_by_name(
                self.bytes(),
                self.head(),
                0,
                name@,
                SEARCH_DEPTH_LIMIT as nat,
            ),
    {
        let owned = name.to_owned();
        self.find_by_name_rec(0, &owned, SEARCH_DEPTH_LIMIT)
    }

    fn find_by_path_rec(&self, id: u32, path: &Vec<String>, i: usize, depth: u32) -> (r: Result<
        ObjectResult,
        Error,
    >)
        requires
            i < path.len(),
        ensures
            ores_view(r) == spec_find_by_path(
                self.bytes(),
                self.head(),
                id,
                path.deep_view(),
                i as int,
                depth as nat,
            ),
        decreases depth,
    {
        if id > MAX_REGULAR_SECTOR {
            return Ok(ObjectResult::Missing);
        }
        if depth == 0 {
            return Err(Error::CorruptChain);
        }
        let o = match self.get_object(id) {
            Ok(o) => o,
            Err(e) => {
                return Err(e);
            },
        };
        proof {
            assert(path.deep_view()[i as int] == path@[i as int]@);
        }
        if o.name == path[i] {
            if i + 1 == path.len() {
                Ok(ObjectResult::Found(o))
            } else {
                self.find_by_path_rec(o.child_id, path, i + 1, depth - 1)
            }
        } else {
            match self.find_by_path_rec(o.left_sibling_id, path, i, depth - 1) {
                Ok(ObjectResult::Found(r)) => Ok(ObjectResult::Found(r)),
                Ok(ObjectResult::Missing) => self.find_by_path_rec(
                    o.right_sibling_id,
                    path,
                    i,
                    depth - 1,
                ),
                Err(e) => Err(e),
            }
        }
    }

    fn dump_normal(&self, start: u32, size: u64) -> (r: Result<Vec<u8>, Error>)
        ensures
            match r {
                Ok(v) => spec_dump_normal(self.bytes(), self.head(), start, size) == Ok::<
                    Seq<u8>,
                    Error,
                >(v@),
                Err(e) => spec_dump_normal(self.bytes(), self.head(), start, size) == Err::<
                    Seq<u8>,
                    Error,
                >(e),
            },
    {
        proof {
            use_type_invariant(&*self);
            lemma_sector_size_bounds(self.header);
        }
        let ghost dd = self.bytes();
        let ghost hh = self.head();
        let ssz: u64 = self.header.sector_size;
        let dlen: usize = self.data.len();
        let mut out: Vec<u8> = Vec::new();
        let mut cur: u32 = start;
        let mut rem: u64 = size;
        proof {
            assert(out@ + Seq::<u8>::empty() =~= out@);
        }
        while rem > 0
            invariant
                self.wf(),
                dd == self.bytes(),
                hh == self.head(),
                8 <= ssz <= 0x8000_0000,
                ssz == hh.sector_size,
                dlen == dd.len(),
                match spec_dump_normal(dd, hh, cur, rem) {
                    Ok(t) => spec_dump_normal(dd, hh, start, size) == Ok::<Seq<u8>, Error>(
                        out@ + t,
                    ),
                    Err(e) => spec_dump_normal(dd, hh, start, size) == Err::<Seq<u8>, Error>(e),
                },
            decreases rem,
        {
            if cur > MAX_REGULAR_SECTOR {
                return Err(Error::CorruptChain);
            }
            let n: u64 = if rem < ssz {
                rem
            } else {
                ssz
            };
            proof {
                assert((cur + 1) * ssz <= 0xFFFF_FFFB * 0x8000_0000u64) by (nonlinear_arith)
                    requires
                        cur + 1 <= 0xFFFF_FFFB,
                        0 < ssz <= 0x8000_0000,
                ;
            }
            let pos: u64 = (cur as u64 + 1) * ssz;
            if !(pos + n <= dlen as u64) {
                return Err(Error::UnexpectedEof);
            }
            let ghost out_before = out@;
            push_range(&mut out, &self.data, pos as usize, n as usize);
            let ghost chunk = dd.subrange(pos as int, pos as int + n as int);
            rem = rem - n;
            if rem > 0 {
                let nx = match self.next_sector(cur) {
                    Ok(v) => v,
                    Err(e) => {
                        return Err(e);
                    },
                };
                proof {
                    match spec_dump_normal(dd, hh, nx, rem) {
                        Ok(t2) => {
                            assert((out_before + chunk) + t2 =~= out_before + (chunk + t2));
                        },
                        Err(_) => {},
                    }
                }
                cur = nx;
            } else {
                proof {
                    assert(out@ + Seq::<u8>::empty() =~= out@);
                }
            }
        }
        Ok(out)
    }

    fn dump_mini(&self, ministream_start: u32, start: u32, size: u64) -> (r: Result<Vec<u8>, Error>)
        ensures
            match r {
                Ok(v) => spec_dump_mini(self.bytes(), self.head(), ministream_start, start, size)
                    == Ok::<Seq<u8>, Error>(v@),
                Err(e) => spec_dump_mini(self.bytes(), self.head(), ministream_start, start, size)
                    == Err::<Seq<u8>, Error>(e),
            },
    {
        proof {
            use_type_invariant(&*self);
        }
        let ghost dd = self.bytes();
        let ghost hh = self.head();
        let dlen: usize = self.data.len();
        let mut out: Vec<u8> = Vec::new();
        let mut cur: u32 = start;
        let mut rem: u64 = size;
        proof {
            assert(out@ + Seq::<u8>::empty() =~= out@);
        }
        while rem > 0
            invariant
                self.wf(),
                dd == self.bytes(),
                hh == self.head(),
                dlen == dd.len(),
                match spec_dump_mini(dd, hh, ministream_start, cur, rem) {
                    Ok(t) => spec_dump_mini(dd, hh, ministream_start, start, size) == Ok::<
                        Seq<u8>,
                        Error,
                    >(out@ + t),
                    Err(e) => spec_dump_mini(dd, hh, ministream_start, start, size) == Err::<
                        Seq<u8>,
                        Error,
                    >(e),
                },
            decreases rem,
        {
            let n: u64 = if rem < 64 {
                rem
            } else {
                64
            };
            let pos = match self.resolve_mini_offset(ministream_start, cur, 0) {
                Ok(v) => v,
                Err(e) => {
                    return Err(e);
                },
            };
            if !(pos <= u64::MAX - n && pos + n <= dlen as u64) {
                return Err(Error::UnexpectedEof);
            }
            let ghost out_before = out@;
            push_range(&mut out, &self.data, pos as usize, n as usize);
            let ghost chunk = dd.subrange(pos as int, pos as int + n as int);
            rem = rem - n;
            if rem > 0 {
                let nm = match self.next_mini_sector(cur) {
                    Ok(v) => v,
                    Err(e) => {
                        return Err(e);
                    },
                };
                proof {
                    match spec_dump_mini(dd, hh, ministream_start, nm, rem) {
                        Ok(t2) => {
                            assert((out_before + chunk) + t2 =~= out_before + (chunk + t2));
                        },
                        Err(_) => {},
                    }
                }
                cur = nm;
            } else {
                proof {
                    assert(out@ + Seq::<u8>::empty() =~= out@);
                }
            }
        }
        Ok(out)
    }

    /// Extracts the bytes of an object's stream.  The root storage's
    /// stream (the mini-stream) is read through the FAT; a stream object
    /// strictly below the cutoff is read through the mini-FAT, any other
    /// stream through the FAT; storages and unknown objects yield
    /// `NotAStream`.  A successful dump has exactly `stream_size` bytes.
    pub fn dump_stream(&self, object: &Object) -> (r: Result<Vec<u8>, Error>)
        ensures
            match r {
                Ok(v) => spec_dump(self.bytes(), self.head(), object@) == Ok::<Seq<u8>, Error>(v@)
                    && v@.len() == object.stream_size,
                Err(e) => spec_dump(self.bytes(), self.head(), object@) == Err::<Seq<u8>, Error>(
                    e,
                ),
            },
    {
        proof {
            use_type_invariant(&*self);
        }
        match object.object_type {
            ObjectType::RootStorage => {
                proof {
                    lemma_dump_normal_len(
                        self.bytes(),
                        self.head(),
                        object.starting_sector_location,
                        object.stream_size,
                    );
                }
                self.dump_normal(object.starting_sector_location, object.stream_size)
            },
            ObjectType::Stream => {
                if object.stream_size < self.header.mini_stream_cutoff_size as u64 {
                    let root = match self.get_root_object() {
                        Ok(o) => o,
                        Err(e) => {
                            return Err(e);
                        },
                    };
                    proof {
                        lemma_dump_mini_len(
                            self.bytes(),
                            self.head(),
                            root.starting_sector_location,
                            object.starting_sector_location,
                            object.stream_size,
                        );
                    }
                    self.dump_mini(
                        root.starting_sector_location,
                        object.starting_sector_location,
                        object.stream_size,
                    )
                } else {
                    proof {
                        lemma_dump_normal_len(
                            self.bytes(),
                            self.head(),
                            object.starting_sector_location,
                            object.stream_size,
                        );
                    }
                    self.dump_normal(object.starting_sector_location, object.stream_size)
                }
            },
            _ => Err(Error::NotAStream),
        }
    }

    /// Finds an object by its path of names from the root: the first
    /// segment must be the root entry's name, each further segment names
    /// a descendant one storage level down.
    pub fn find_child_by_path(&self, path: &Vec<String>) -> (r: Result<ObjectResult, Error>)
        requires
            path.len() >= 1,
        ensures
            ores_view(r) == spec_find_by_path(
                self.bytes(),
                self.head(),
                0,
                path.deep_view(),
                0,
                SEARCH_DEPTH_LIMIT as nat,
            ),
    {
        self.find_by_path_rec(0, path, 0, SEARCH_DEPTH_LIMIT)
    }
}

} // verus!
