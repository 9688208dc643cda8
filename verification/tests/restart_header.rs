use rh3t::io::{
    check_restart_header, decode_header, encode_header, monitor_open_mode, record_offset, Header,
    HeaderError,
};

#[test]
fn header_layout_matches_the_file_format() {
    let h = Header { nx: 121, ny: 481, time_bits: 0.25f64.to_bits() };
    let b = encode_header(&h);
    assert_eq!(b.len(), 40);
    assert_eq!(&b[0..8], b"RH3TBIN1");
    assert_eq!(&b[8..12], &1u32.to_le_bytes());
    assert_eq!(&b[12..16], &8u32.to_le_bytes());
    assert_eq!(&b[16..24], &121u64.to_le_bytes());
    assert_eq!(&b[24..32], &481u64.to_le_bytes());
    assert_eq!(&b[32..40], &0.25f64.to_le_bytes());
}

#[test]
fn header_round_trips() {
    let h = Header { nx: 7, ny: u64::MAX, time_bits: 1.5f64.to_bits() };
    let mut b = encode_header(&h);
    assert_eq!(decode_header(&b), Ok(h));
    // Trailing payload bytes do not matter.
    b.extend_from_slice(&[1, 2, 3]);
    assert_eq!(decode_header(&b), Ok(h));
    assert_eq!(f64::from_bits(decode_header(&b).unwrap().time_bits), 1.5);
}

#[test]
fn bad_headers_are_rejected() {
    let h = Header { nx: 3, ny: 4, time_bits: 0 };
    let b = encode_header(&h);
    assert_eq!(decode_header(&b[..39]), Err(HeaderError::TooShort));
    let mut bad = b.clone();
    bad[3] = b'X';
    assert_eq!(decode_header(&bad), Err(HeaderError::BadMagic));
    let mut bad = b.clone();
    bad[8] = 2;
    assert_eq!(decode_header(&bad), Err(HeaderError::BadVersion(2)));
    let mut bad = b.clone();
    bad[12] = 6;
    assert_eq!(decode_header(&bad), Err(HeaderError::BadNvar(6)));
}

#[test]
fn restart_header_must_match_the_grid() {
    let h = Header { nx: 3, ny: 4, time_bits: 0 };
    let b = encode_header(&h);
    assert_eq!(check_restart_header(&b, 3, 4), Ok(h));
    assert_eq!(check_restart_header(&b, 4, 3), Err(HeaderError::GridMismatch { nx: 3, ny: 4 }));
    assert_eq!(check_restart_header(&b[..10], 3, 4), Err(HeaderError::TooShort));
}

#[test]
fn records_follow_the_header_x_fastest() {
    assert_eq!(record_offset(0, 0, 5), 40);
    assert_eq!(record_offset(1, 0, 5), 40 + 64);
    assert_eq!(record_offset(0, 1, 5), 40 + 5 * 64);
    assert_eq!(record_offset(4, 2, 5), 40 + 14 * 64);
}

#[test]
fn monitor_appends_only_to_a_current_file() {
    // Fresh run: truncate and write the header.
    assert_eq!(monitor_open_mode(false, true, Some(true)), (false, true));
    // Restart onto a file with the current header: append, no header.
    assert_eq!(monitor_open_mode(true, true, Some(true)), (true, false));
    // Stale header: start over.
    assert_eq!(monitor_open_mode(true, true, Some(false)), (false, true));
    // Missing file: create it with a header.
    assert_eq!(monitor_open_mode(true, false, None), (true, true));
    // Unreadable first line: keep appending.
    assert_eq!(monitor_open_mode(true, true, None), (true, false));
}
