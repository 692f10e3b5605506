use keycounter::{decode_snapshot, encode_snapshot, SnapshotError, KEY_COUNT, SNAPSHOT_LEN};

fn sample_counts() -> [u32; KEY_COUNT] {
    let mut counts = [0u32; KEY_COUNT];
    for (i, c) in counts.iter_mut().enumerate() {
        *c = (i as u32) * 1000 + 7;
    }
    counts[0x41] = 0x0102_0304;
    counts[255] = u32::MAX;
    counts
}

#[test]
fn encode_snapshot_layout() {
    let counts = sample_counts();
    let bytes = encode_snapshot(&counts);
    assert_eq!(bytes.len(), SNAPSHOT_LEN);
    assert_eq!(&bytes[0..4], b"KHM1");
    assert_eq!(&bytes[4..8], &[1, 0, 0, 0]);
    assert_eq!(&bytes[8..12], &[7, 0, 0, 0]);
    let a = 8 + 0x41 * 4;
    assert_eq!(&bytes[a..a + 4], &[0x04, 0x03, 0x02, 0x01]);
    assert_eq!(&bytes[SNAPSHOT_LEN - 4..], &[0xff, 0xff, 0xff, 0xff]);
}

#[test]
fn snapshot_roundtrip() {
    let counts = sample_counts();
    let bytes = encode_snapshot(&counts);
    assert_eq!(decode_snapshot(&bytes), Ok(counts));
}

#[test]
fn zero_snapshot_roundtrip() {
    let counts = [0u32; KEY_COUNT];
    let bytes = encode_snapshot(&counts);
    assert_eq!(decode_snapshot(&bytes), Ok(counts));
}

#[test]
fn decode_rejects_bad_length() {
    let bytes = encode_snapshot(&sample_counts());
    assert_eq!(decode_snapshot(&bytes[..SNAPSHOT_LEN - 1]), Err(SnapshotError::InvalidLength));
    let mut longer = bytes.clone();
    longer.push(0);
    assert_eq!(decode_snapshot(&longer), Err(SnapshotError::InvalidLength));
    assert_eq!(decode_snapshot(&[]), Err(SnapshotError::InvalidLength));
}

#[test]
fn decode_rejects_bad_magic() {
    let mut bytes = encode_snapshot(&sample_counts());
    bytes[3] = b'2';
    assert_eq!(decode_snapshot(&bytes), Err(SnapshotError::InvalidMagic));
}

#[test]
fn decode_rejects_bad_version() {
    let mut bytes = encode_snapshot(&sample_counts());
    bytes[4] = 2;
    assert_eq!(decode_snapshot(&bytes), Err(SnapshotError::UnsupportedVersion));
}

#[test]
fn decode_checks_length_before_magic() {
    let bytes = vec![0u8; 10];
    assert_eq!(decode_snapshot(&bytes), Err(SnapshotError::InvalidLength));
}
