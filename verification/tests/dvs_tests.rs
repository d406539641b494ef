use evrecovery::dvs::{DvsError, File};
use std::io::Write;

fn set_u32(d: &mut Vec<u8>, off: usize, v: u32) {
    for i in 0..4 {
        d[off + i] = (v >> (8 * i)) as u8;
    }
}

fn zlib(data: &[u8]) -> Vec<u8> {
    let mut enc = libflate::zlib::Encoder::new(Vec::new()).unwrap();
    enc.write_all(data).unwrap();
    enc.finish().into_result().unwrap()
}

/// A DVS envelope: magic, 17 filler bytes, payload length, payload id,
/// zlib-compressed payload.
fn dvs_image(payload: &[u8], id: u32) -> Vec<u8> {
    let comp = zlib(payload);
    let mut d = vec![0u8; 29];
    d[0] = 0xFF;
    d[1] = 0xEE;
    d[2] = 0xEE;
    d[3] = 0xDD;
    set_u32(&mut d, 21, (comp.len() + 4) as u32);
    set_u32(&mut d, 25, id);
    d.extend_from_slice(&comp);
    d
}

#[test]
fn decompress_round_trip() {
    let payload = b"The quick brown fox jumps over the lazy dog".to_vec();
    let f = File::new(dvs_image(&payload, 7)).unwrap();
    assert_eq!(f.decompress().unwrap(), payload);
}

#[test]
fn decompress_large_round_trip() {
    let payload: Vec<u8> = (0..100_000u32).map(|i| (i * 31 % 251) as u8).collect();
    let f = File::new(dvs_image(&payload, 0)).unwrap();
    assert_eq!(f.decompress().unwrap(), payload);
}

#[test]
fn dvs_new_rejects_bad_magic() {
    let mut d = dvs_image(b"x", 0);
    d[3] = 0xCC;
    assert!(matches!(File::new(d), Err(DvsError::BadMagic)));
}

#[test]
fn dvs_new_rejects_short_header() {
    assert!(matches!(File::new(vec![0xFF, 0xEE, 0xEE, 0xDD]), Err(DvsError::TruncatedHeader)));
}

#[test]
fn dvs_new_rejects_missing_payload_length() {
    let mut d = dvs_image(b"x", 0);
    set_u32(&mut d, 21, 3);
    assert!(matches!(File::new(d), Err(DvsError::MissingPayloadLength)));
}

#[test]
fn decompress_rejects_truncated_payload() {
    let mut d = dvs_image(b"some payload content", 1);
    d.truncate(d.len() - 3);
    let f = File::new(d).unwrap();
    assert!(matches!(f.decompress(), Err(DvsError::TruncatedPayload)));
}

#[test]
fn decompress_rejects_trailing_data() {
    let mut d = dvs_image(b"some payload content", 1);
    d.push(0xAB);
    let f = File::new(d).unwrap();
    assert!(matches!(f.decompress(), Err(DvsError::TrailingData)));
}

#[test]
fn decompress_rejects_garbage() {
    let mut d = vec![0u8; 29];
    d[0] = 0xFF;
    d[1] = 0xEE;
    d[2] = 0xEE;
    d[3] = 0xDD;
    set_u32(&mut d, 21, 8);
    d.extend_from_slice(&[0x01, 0x02, 0x03, 0x04]);
    let f = File::new(d).unwrap();
    assert!(matches!(f.decompress(), Err(DvsError::BadPayload)));
}
