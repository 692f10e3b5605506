use keycounter::{append_record_bytes, parse_records, RecordFileError, KEY_COUNT};

fn record(seed: u32) -> [u32; KEY_COUNT] {
    let mut r = [0u32; KEY_COUNT];
    for (i, c) in r.iter_mut().enumerate() {
        *c = seed.wrapping_mul(31).wrapping_add(i as u32);
    }
    r
}

#[test]
fn new_file_bytes() {
    let r = record(1);
    let bytes = append_record_bytes(true, &r);
    assert_eq!(bytes.len(), 12 + 1024);
    assert_eq!(&bytes[0..4], b"KBD1");
    assert_eq!(&bytes[4..8], &[1, 0, 0, 0]);
    assert_eq!(&bytes[8..12], &[0, 1, 0, 0]);
    assert_eq!(&bytes[12..16], &[31, 0, 0, 0]);
}

#[test]
fn existing_file_bytes() {
    let r = record(2);
    let bytes = append_record_bytes(false, &r);
    assert_eq!(bytes.len(), 1024);
    assert_eq!(&bytes[0..4], &[62, 0, 0, 0]);
}

#[test]
fn append_then_read_back() {
    let r1 = record(1);
    let r2 = record(2);
    let r3 = record(3);
    let mut file = append_record_bytes(true, &r1);
    assert_eq!(parse_records(&file), Ok(vec![r1]));
    file.extend(append_record_bytes(false, &r2));
    file.extend(append_record_bytes(false, &r3));
    assert_eq!(parse_records(&file), Ok(vec![r1, r2, r3]));
}

#[test]
fn header_only_reads_empty() {
    let file = append_record_bytes(true, &record(5));
    assert_eq!(parse_records(&file[..12]), Ok(vec![]));
}

#[test]
fn parse_rejects_short_or_bad_magic() {
    assert_eq!(parse_records(&[]), Err(RecordFileError::InvalidFile));
    let file = append_record_bytes(true, &record(1));
    assert_eq!(parse_records(&file[..11]), Err(RecordFileError::InvalidFile));
    let mut bad = file.clone();
    bad[0] = b'X';
    assert_eq!(parse_records(&bad), Err(RecordFileError::InvalidFile));
}

#[test]
fn parse_rejects_unsupported_format() {
    let file = append_record_bytes(true, &record(1));
    let mut bad_version = file.clone();
    bad_version[4] = 2;
    assert_eq!(parse_records(&bad_version), Err(RecordFileError::UnsupportedFormat));
    let mut bad_keys = file.clone();
    bad_keys[9] = 2;
    assert_eq!(parse_records(&bad_keys), Err(RecordFileError::UnsupportedFormat));
}

#[test]
fn parse_rejects_truncated() {
    let file = append_record_bytes(true, &record(1));
    assert_eq!(parse_records(&file[..file.len() - 1]), Err(RecordFileError::Truncated));
    let mut longer = file.clone();
    longer.push(0);
    assert_eq!(parse_records(&longer), Err(RecordFileError::Truncated));
}
