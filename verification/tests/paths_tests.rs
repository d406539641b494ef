use evrecovery::paths::decode_path_string;

fn set_u16(d: &mut Vec<u8>, off: usize, v: u16) {
    d[off] = v as u8;
    d[off + 1] = (v >> 8) as u8;
}

/// Encodes a path stream: 4-byte length prefix, UTF-16LE text, NUL unit.
fn path_stream(text: &str) -> Vec<u8> {
    let units: Vec<u16> = text.encode_utf16().collect();
    let total = 4 + 2 * units.len() + 2;
    let mut d = vec![0u8; total];
    set_u16(&mut d, 0, (total - 4) as u16);
    for (i, u) in units.iter().enumerate() {
        set_u16(&mut d, 4 + 2 * i, *u);
    }
    d
}

#[test]
fn plain_path_round_trips() {
    let d = path_stream("folder name");
    assert_eq!(decode_path_string(&d, false).unwrap(), "folder name");
}

#[test]
fn separators_become_slashes() {
    let d = path_stream("a\\b\x7fc");
    assert_eq!(decode_path_string(&d, false).unwrap(), "a/b/c");
}

#[test]
fn single_component_escapes_separators() {
    let d = path_stream("a/b\\c");
    assert_eq!(decode_path_string(&d, true).unwrap(), "a_b_c");
}

#[test]
fn short_stream_is_rejected() {
    assert!(decode_path_string(&vec![0u8; 5], false).is_none());
    assert!(decode_path_string(&Vec::new(), true).is_none());
}

#[test]
fn non_ascii_text_survives() {
    let d = path_stream("b\u{00E9}b\u{00E9} \u{1F600}");
    assert_eq!(decode_path_string(&d, false).unwrap(), "b\u{00E9}b\u{00E9} \u{1F600}");
}
