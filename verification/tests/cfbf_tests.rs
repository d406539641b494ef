use evrecovery::cfbf::{Container, Error, ObjectResult, ObjectType};

const FREESECT: u32 = 0xFFFF_FFFF;
const ENDOFCHAIN: u32 = 0xFFFF_FFFE;
const FATSECT: u32 = 0xFFFF_FFFD;

fn set_u16(d: &mut Vec<u8>, off: usize, v: u16) {
    d[off] = v as u8;
    d[off + 1] = (v >> 8) as u8;
}

fn set_u32(d: &mut Vec<u8>, off: usize, v: u32) {
    for i in 0..4 {
        d[off + i] = (v >> (8 * i)) as u8;
    }
}

fn set_u64(d: &mut Vec<u8>, off: usize, v: u64) {
    for i in 0..8 {
        d[off + i] = (v >> (8 * i)) as u8;
    }
}

/// Absolute offset of sector `s` for 512-byte sectors.
fn so(s: u32) -> usize {
    (s as usize + 1) * 512
}

/// An empty container image with 512-byte sectors and `num_sectors`
/// zeroed sectors after the header block.
fn base_image(num_sectors: usize) -> Vec<u8> {
    let mut d = vec![0u8; 512 * (num_sectors + 1)];
    let magic = [0xD0, 0xCF, 0x11, 0xE0, 0xA1, 0xB1, 0x1A, 0xE1];
    d[..8].copy_from_slice(&magic);
    set_u16(&mut d, 24, 0x3E); // minor version
    set_u16(&mut d, 26, 3); // major version
    set_u16(&mut d, 28, 0xFFFE); // byte order mark
    set_u16(&mut d, 30, 9); // sector shift: 512-byte sectors
    set_u16(&mut d, 32, 6); // mini sector shift: 64-byte mini-sectors
    set_u32(&mut d, 68, ENDOFCHAIN); // no DIFAT chain
    for i in 0..109 {
        set_u32(&mut d, 0x4C + i * 4, FREESECT);
    }
    d
}

/// Encodes a 128-byte directory entry.
fn dir_entry(name: &str, typ: u8, left: u32, right: u32, child: u32, start: u32, size: u64) -> Vec<u8> {
    let mut e = vec![0u8; 128];
    let units: Vec<u16> = name.encode_utf16().collect();
    assert!(units.len() <= 31);
    for (i, u) in units.iter().enumerate() {
        set_u16(&mut e, i * 2, *u);
    }
    let name_length: u16 = if name.is_empty() { 0 } else { (units.len() as u16 + 1) * 2 };
    set_u16(&mut e, 64, name_length);
    e[66] = typ;
    e[67] = 1; // color flag, ignored by the reader
    set_u32(&mut e, 68, left);
    set_u32(&mut e, 72, right);
    set_u32(&mut e, 76, child);
    set_u32(&mut e, 116, start);
    set_u64(&mut e, 120, size);
    e
}

fn put_entry(d: &mut Vec<u8>, sector: u32, index: usize, e: &[u8]) {
    let off = so(sector) + index * 128;
    d[off..off + 128].copy_from_slice(e);
}

/// Sectors: 0 FAT, 1 directory, 2 mini-FAT, 3 mini-stream.  One stream
/// "Hello" of 5 bytes lives in the mini-stream at mini-sector 0.
fn hello_image() -> Vec<u8> {
    let mut d = base_image(4);
    set_u32(&mut d, 44, 1); // one FAT sector
    set_u32(&mut d, 48, 1); // directory starts at sector 1
    set_u32(&mut d, 56, 4096); // mini-stream cutoff
    set_u32(&mut d, 60, 2); // mini-FAT starts at sector 2
    set_u32(&mut d, 64, 1); // one mini-FAT sector
    set_u32(&mut d, 0x4C, 0); // DIFAT[0]: FAT sector 0
    set_u32(&mut d, so(0), FATSECT);
    set_u32(&mut d, so(0) + 4, ENDOFCHAIN); // directory chain: sector 1 only
    set_u32(&mut d, so(0) + 8, ENDOFCHAIN); // mini-FAT chain: sector 2 only
    set_u32(&mut d, so(0) + 12, ENDOFCHAIN); // mini-stream chain: sector 3 only
    put_entry(&mut d, 1, 0, &dir_entry("Root Entry", 5, FREESECT, FREESECT, 1, 3, 64));
    put_entry(&mut d, 1, 1, &dir_entry("Hello", 2, FREESECT, FREESECT, FREESECT, 0, 5));
    set_u32(&mut d, so(2), ENDOFCHAIN); // mini-FAT[0]: the stream is one mini-sector
    d[so(3)..so(3) + 5].copy_from_slice(b"Hello");
    d
}

#[test]
fn new_rejects_bad_magic() {
    let mut d = hello_image();
    d[0] = 0;
    assert!(matches!(Container::new(d), Err(Error::BadFormat)));
}

#[test]
fn new_rejects_short_input() {
    assert!(matches!(Container::new(vec![0u8; 10]), Err(Error::UnexpectedEof)));
}

#[test]
fn new_rejects_unsupported_sector_shift() {
    let mut d = hello_image();
    set_u16(&mut d, 30, 40);
    assert!(matches!(Container::new(d), Err(Error::BadFormat)));
}

#[test]
fn root_object_has_id_zero_and_name() {
    let c = Container::new(hello_image()).unwrap();
    let root = c.get_root_object().unwrap();
    assert_eq!(root.id, 0);
    assert_eq!(root.name, "Root Entry");
    assert!(matches!(root.object_type, ObjectType::RootStorage));
}

#[test]
fn get_object_returns_requested_id() {
    let c = Container::new(hello_image()).unwrap();
    for id in 0..2u32 {
        let o = c.get_object(id).unwrap();
        assert_eq!(o.id, id);
    }
}

#[test]
fn get_object_out_of_directory_fails() {
    let c = Container::new(hello_image()).unwrap();
    // Entry 4 would sit past the single directory sector.
    assert!(c.get_object(100).is_err());
}

#[test]
fn find_hello_by_path_and_dump() {
    let c = Container::new(hello_image()).unwrap();
    let path = vec!["Root Entry".to_string(), "Hello".to_string()];
    let r = c.find_child_by_path(&path).unwrap();
    match r {
        ObjectResult::Found(o) => {
            assert!(matches!(o.object_type, ObjectType::Stream));
            assert_eq!(o.stream_size, 5);
            let bytes = c.dump_stream(&o).unwrap();
            assert_eq!(bytes, b"Hello".to_vec());
        }
        ObjectResult::Missing => panic!("expected to find Hello"),
    }
}

#[test]
fn find_by_path_misses_wrong_root() {
    let c = Container::new(hello_image()).unwrap();
    let path = vec!["Nonsense".to_string(), "Hello".to_string()];
    assert!(matches!(c.find_child_by_path(&path).unwrap(), ObjectResult::Missing));
}

#[test]
fn find_hello_by_name() {
    let c = Container::new(hello_image()).unwrap();
    match c.find_child_by_name("Hello").unwrap() {
        ObjectResult::Found(o) => assert_eq!(o.name, "Hello"),
        ObjectResult::Missing => panic!("expected to find Hello"),
    }
}

#[test]
fn tree_accessors_follow_pointers() {
    let c = Container::new(hello_image()).unwrap();
    let root = c.get_root_object().unwrap();
    match c.get_first_child(&root).unwrap() {
        ObjectResult::Found(o) => assert_eq!(o.name, "Hello"),
        ObjectResult::Missing => panic!("root must have a child"),
    }
    let hello = c.get_object(1).unwrap();
    assert!(matches!(c.get_left_sibling(&hello).unwrap(), ObjectResult::Missing));
    assert!(matches!(c.get_right_sibling(&hello).unwrap(), ObjectResult::Missing));
}

#[test]
fn dump_storage_is_not_a_stream() {
    let mut d = hello_image();
    // Rewrite the stream entry as a plain storage.
    put_entry(&mut d, 1, 1, &dir_entry("Hello", 1, FREESECT, FREESECT, FREESECT, 0, 0));
    let c = Container::new(d).unwrap();
    let o = c.get_object(1).unwrap();
    assert!(matches!(c.dump_stream(&o), Err(Error::NotAStream)));
}

#[test]
fn empty_name_decodes_to_empty_string() {
    let mut d = hello_image();
    put_entry(&mut d, 1, 1, &dir_entry("", 2, FREESECT, FREESECT, FREESECT, 0, 5));
    let c = Container::new(d).unwrap();
    let o = c.get_object(1).unwrap();
    assert_eq!(o.name, "");
}

#[test]
fn mini_stream_of_100_bytes() {
    let mut d = hello_image();
    // Stream of 100 bytes: mini-sectors 0 and 1 of the mini-stream.
    put_entry(&mut d, 1, 0, &dir_entry("Root Entry", 5, FREESECT, FREESECT, 1, 3, 128));
    put_entry(&mut d, 1, 1, &dir_entry("Small", 2, FREESECT, FREESECT, FREESECT, 0, 100));
    set_u32(&mut d, so(2), 1); // mini-FAT[0] -> mini-sector 1
    set_u32(&mut d, so(2) + 4, ENDOFCHAIN);
    for i in 0..100 {
        d[so(3) + i] = i as u8;
    }
    let c = Container::new(d).unwrap();
    let o = c.get_object(1).unwrap();
    let bytes = c.dump_stream(&o).unwrap();
    assert_eq!(bytes.len(), 100);
    for i in 0..100 {
        assert_eq!(bytes[i], i as u8);
    }
}

#[test]
fn root_dump_is_raw_ministream_and_mini_stream_is_its_slice() {
    let c = Container::new(hello_image()).unwrap();
    let root = c.get_root_object().unwrap();
    let ministream = c.dump_stream(&root).unwrap();
    assert_eq!(ministream.len(), 64);
    let hello = c.get_object(1).unwrap();
    let bytes = c.dump_stream(&hello).unwrap();
    // The stream sits at mini-sector 0: its bytes are the slice of the
    // mini-stream at [0 * 64 .. 0 * 64 + 5].
    assert_eq!(&ministream[..5], &bytes[..]);
}

/// Sectors: 0 FAT, 1 directory, 2..  The cutoff is lowered to 512 so
/// streams of 512 bytes and up take the normal path.
fn normal_path_image(stream_sectors: u32, stream_size: u64) -> Vec<u8> {
    let mut d = base_image(2 + stream_sectors as usize);
    set_u32(&mut d, 44, 1);
    set_u32(&mut d, 48, 1);
    set_u32(&mut d, 56, 512); // cutoff: anything >= 512 bytes is a normal stream
    set_u32(&mut d, 60, ENDOFCHAIN); // no mini-FAT
    set_u32(&mut d, 0x4C, 0);
    set_u32(&mut d, so(0), FATSECT);
    set_u32(&mut d, so(0) + 4, ENDOFCHAIN);
    // Stream sectors 2 .. 2 + n chained in order.
    for k in 0..stream_sectors {
        let next = if k + 1 < stream_sectors { 2 + k + 1 } else { ENDOFCHAIN };
        set_u32(&mut d, so(0) + (2 + k as usize) * 4, next);
    }
    put_entry(&mut d, 1, 0, &dir_entry("Root Entry", 5, FREESECT, FREESECT, 1, ENDOFCHAIN, 0));
    put_entry(&mut d, 1, 1, &dir_entry("Data", 2, FREESECT, FREESECT, FREESECT, 2, stream_size));
    for i in 0..(stream_sectors as usize * 512) {
        d[so(2) + i] = (i % 256) as u8;
    }
    d
}

#[test]
fn multi_sector_stream_spans_fat_chain() {
    let c = Container::new(normal_path_image(4, 2048)).unwrap();
    let o = c.get_object(1).unwrap();
    let bytes = c.dump_stream(&o).unwrap();
    assert_eq!(bytes.len(), 2048);
    for p in [0usize, 511, 512, 1023, 2047] {
        assert_eq!(bytes[p], (p % 256) as u8);
    }
}

#[test]
fn stream_of_exactly_one_sector_needs_no_chain_step() {
    // The single stream sector's FAT entry is ENDOFCHAIN; a reader that
    // stepped the chain once more would fail.
    let c = Container::new(normal_path_image(1, 512)).unwrap();
    let o = c.get_object(1).unwrap();
    let bytes = c.dump_stream(&o).unwrap();
    assert_eq!(bytes.len(), 512);
    assert_eq!(bytes[511], 255);
}

#[test]
fn stream_at_cutoff_size_takes_normal_path() {
    // stream_size == mini_stream_cutoff_size == 512: were the mini path
    // taken, there is no mini-FAT and the dump would fail; the normal
    // path succeeds and yields the sector's bytes.
    let c = Container::new(normal_path_image(1, 512)).unwrap();
    let o = c.get_object(1).unwrap();
    let bytes = c.dump_stream(&o).unwrap();
    assert_eq!(bytes.len(), 512);
    for p in 0..512 {
        assert_eq!(bytes[p], (p % 256) as u8);
    }
}

#[test]
fn corrupt_chain_is_detected() {
    // The stream claims 1024 bytes but its chain ends after one sector.
    let c = Container::new(normal_path_image(1, 1024)).unwrap();
    let o = c.get_object(1).unwrap();
    assert!(matches!(c.dump_stream(&o), Err(Error::CorruptChain)));
}

#[test]
fn truncated_stream_reports_eof() {
    let mut d = normal_path_image(1, 512);
    d.truncate(so(2) + 100); // the stream sector is cut short
    let c = Container::new(d).unwrap();
    let o = c.get_object(1).unwrap();
    assert!(matches!(c.dump_stream(&o), Err(Error::UnexpectedEof)));
}

/// Three storages A, B, C under the root, each holding a one-byte stream
/// "v".  Sectors: 0 FAT, 1 directory, 2 mini-FAT, 3 mini-stream, 4 second
/// directory sector.
fn tree_image() -> Vec<u8> {
    let mut d = base_image(5);
    set_u32(&mut d, 44, 1);
    set_u32(&mut d, 48, 1);
    set_u32(&mut d, 56, 4096);
    set_u32(&mut d, 60, 2);
    set_u32(&mut d, 64, 1);
    set_u32(&mut d, 0x4C, 0);
    set_u32(&mut d, so(0), FATSECT);
    set_u32(&mut d, so(0) + 4, 4); // directory chain: 1 -> 4
    set_u32(&mut d, so(0) + 8, ENDOFCHAIN); // mini-FAT chain
    set_u32(&mut d, so(0) + 12, ENDOFCHAIN); // mini-stream chain
    set_u32(&mut d, so(0) + 16, ENDOFCHAIN); // second directory sector
    put_entry(&mut d, 1, 0, &dir_entry("Root Entry", 5, FREESECT, FREESECT, 2, 3, 192));
    put_entry(&mut d, 1, 1, &dir_entry("A", 1, FREESECT, FREESECT, 4, ENDOFCHAIN, 0));
    put_entry(&mut d, 1, 2, &dir_entry("B", 1, 1, 3, 5, ENDOFCHAIN, 0));
    put_entry(&mut d, 1, 3, &dir_entry("C", 1, FREESECT, FREESECT, 6, ENDOFCHAIN, 0));
    put_entry(&mut d, 4, 0, &dir_entry("v", 2, FREESECT, FREESECT, FREESECT, 0, 1));
    put_entry(&mut d, 4, 1, &dir_entry("v", 2, FREESECT, FREESECT, FREESECT, 1, 1));
    put_entry(&mut d, 4, 2, &dir_entry("v", 2, FREESECT, FREESECT, FREESECT, 2, 1));
    for m in 0..3 {
        set_u32(&mut d, so(2) + m * 4, ENDOFCHAIN); // each stream: one mini-sector
    }
    d[so(3)] = 0x41;
    d[so(3) + 64] = 0x42;
    d[so(3) + 128] = 0x43;
    d
}

#[test]
fn path_search_descends_storages() {
    let c = Container::new(tree_image()).unwrap();
    let path = vec!["Root Entry".to_string(), "B".to_string(), "v".to_string()];
    match c.find_child_by_path(&path).unwrap() {
        ObjectResult::Found(o) => {
            let bytes = c.dump_stream(&o).unwrap();
            assert_eq!(bytes, vec![0x42]);
        }
        ObjectResult::Missing => panic!("expected Root Entry/B/v"),
    }
}

#[test]
fn name_search_returns_some_v() {
    let c = Container::new(tree_image()).unwrap();
    match c.find_child_by_name("v").unwrap() {
        ObjectResult::Found(o) => {
            assert_eq!(o.name, "v");
            let bytes = c.dump_stream(&o).unwrap();
            assert_eq!(bytes.len(), 1);
            assert!(bytes[0] == 0x41 || bytes[0] == 0x42 || bytes[0] == 0x43);
        }
        ObjectResult::Missing => panic!("expected to find a v"),
    }
}

#[test]
fn ids_reachable_from_root_are_within_directory() {
    let c = Container::new(tree_image()).unwrap();
    // Two directory sectors of 4 entries each.
    let total_entries = 8;
    for name in ["Root Entry", "A", "B", "C", "v"] {
        if let ObjectResult::Found(o) = c.find_child_by_name(name).unwrap() {
            assert!(o.id < total_entries);
        } else {
            panic!("expected to find {}", name);
        }
    }
}

/// A container whose FAT sector 109 must be located through the DIFAT
/// sector chain: DIFAT sector 0 lists FAT sector 109 (at sector 1), and
/// chains to DIFAT sector 2, which lists FAT sector 236 (at sector 3).
fn large_difat_image() -> Vec<u8> {
    let mut d = base_image(4);
    set_u32(&mut d, 44, 237);
    set_u32(&mut d, 48, ENDOFCHAIN); // no directory needed here
    set_u32(&mut d, 60, ENDOFCHAIN);
    set_u32(&mut d, 68, 0); // DIFAT chain starts at sector 0
    set_u32(&mut d, 72, 2);
    // DIFAT sector 0: entry 0 -> FAT sector 109 lives at sector 1; the
    // final u32 chains to DIFAT sector 2.
    set_u32(&mut d, so(0), 1);
    set_u32(&mut d, so(0) + 127 * 4, 2);
    // FAT sector 109 (at sector 1): successor of sector 13952 is 7.
    set_u32(&mut d, so(1), 7);
    // DIFAT sector 2: entry 0 -> FAT sector 236 lives at sector 3.
    set_u32(&mut d, so(2), 3);
    set_u32(&mut d, so(2) + 127 * 4, ENDOFCHAIN);
    // FAT sector 236 (at sector 3): successor of sector 30208 is 9.
    set_u32(&mut d, so(3), 9);
    d
}

#[test]
fn next_sector_resolves_through_difat_chain() {
    let c = Container::new(large_difat_image()).unwrap();
    // Sector 13952 has FAT index 109: first entry past the header DIFAT.
    assert_eq!(c.next_sector(13952).unwrap(), 7);
    // Sector 30208 has FAT index 236: one DIFAT chain hop further.
    assert_eq!(c.next_sector(30208).unwrap(), 9);
}

#[test]
fn next_sector_is_idempotent() {
    let c = Container::new(large_difat_image()).unwrap();
    let first = c.next_sector(13952);
    let second = c.next_sector(13952);
    assert_eq!(first.unwrap(), second.unwrap());
}

#[test]
fn next_sector_rejects_sentinels() {
    let c = Container::new(hello_image()).unwrap();
    assert!(matches!(c.next_sector(ENDOFCHAIN), Err(Error::CorruptChain)));
}

#[test]
fn next_mini_sector_reads_mini_fat() {
    let mut d = hello_image();
    set_u32(&mut d, so(2), 1);
    set_u32(&mut d, so(2) + 4, ENDOFCHAIN);
    let c = Container::new(d).unwrap();
    assert_eq!(c.next_mini_sector(0).unwrap(), 1);
    assert_eq!(c.next_mini_sector(1).unwrap(), ENDOFCHAIN);
}

#[test]
fn next_mini_sector_walks_the_mini_fat_chain() {
    // The mini-FAT itself spans two sectors (2 and 4); entry 130 lives in
    // the second one, 512/4 = 128 entries past the first.
    let mut d = base_image(5);
    set_u32(&mut d, 44, 1);
    set_u32(&mut d, 48, 1);
    set_u32(&mut d, 56, 4096);
    set_u32(&mut d, 60, 2);
    set_u32(&mut d, 64, 2);
    set_u32(&mut d, 0x4C, 0);
    set_u32(&mut d, so(0), FATSECT);
    set_u32(&mut d, so(0) + 4, ENDOFCHAIN); // directory
    set_u32(&mut d, so(0) + 8, 4); // mini-FAT chain: 2 -> 4
    set_u32(&mut d, so(0) + 16, ENDOFCHAIN);
    put_entry(&mut d, 1, 0, &dir_entry("Root Entry", 5, FREESECT, FREESECT, FREESECT, ENDOFCHAIN, 0));
    set_u32(&mut d, so(4) + 2 * 4, 0x55); // mini-FAT entry 130
    let c = Container::new(d).unwrap();
    assert_eq!(c.next_mini_sector(130).unwrap(), 0x55);
}

#[test]
fn surrogate_pair_name_decodes_to_one_character() {
    let mut d = hello_image();
    put_entry(&mut d, 1, 1, &dir_entry("\u{1F600}", 2, FREESECT, FREESECT, FREESECT, 0, 5));
    let c = Container::new(d).unwrap();
    let o = c.get_object(1).unwrap();
    assert_eq!(o.name, "\u{1F600}");
}

#[test]
fn lone_surrogate_in_name_becomes_replacement_character() {
    let mut d = hello_image();
    let mut e = dir_entry("xA", 2, FREESECT, FREESECT, FREESECT, 0, 5);
    set_u16(&mut e, 0, 0xD800); // overwrite 'x' with an unpaired high surrogate
    put_entry(&mut d, 1, 1, &e);
    let c = Container::new(d).unwrap();
    let o = c.get_object(1).unwrap();
    assert_eq!(o.name, "\u{FFFD}A");
}
