use keycounter::{heat_max, select_counts, total_keys, ViewError, KEY_COUNT};

fn record(k: usize, v: u32) -> [u32; KEY_COUNT] {
    let mut r = [0u32; KEY_COUNT];
    r[k] = v;
    r
}

#[test]
fn no_records() {
    assert_eq!(select_counts(&vec![], None), Err(ViewError::NoRecords));
    assert_eq!(select_counts(&vec![], Some(0)), Err(ViewError::NoRecords));
}

#[test]
fn one_record_selected() {
    let recs = vec![record(1, 5), record(2, 7)];
    let c = select_counts(&recs, Some(1)).unwrap();
    assert_eq!(c[1], 0);
    assert_eq!(c[2], 7);
    assert_eq!(select_counts(&recs, Some(2)), Err(ViewError::RecordOutOfRange));
}

#[test]
fn all_records_summed() {
    let recs = vec![record(1, u32::MAX), record(1, u32::MAX), record(2, 7)];
    let c = select_counts(&recs, None).unwrap();
    assert_eq!(c[1], 2 * u32::MAX as u64);
    assert_eq!(c[2], 7);
    assert_eq!(total_keys(&c), 2 * u32::MAX as u64 + 7);
}

#[test]
fn max_is_capped() {
    let mut c = [0u64; KEY_COUNT];
    assert_eq!(heat_max(&c), 0);
    c[3] = 12;
    c[200] = 40;
    assert_eq!(heat_max(&c), 40);
    c[9] = u32::MAX as u64 + 1;
    assert_eq!(heat_max(&c), u32::MAX);
}

#[test]
fn total_of_counts() {
    let mut c = [0u64; KEY_COUNT];
    c[0] = 1;
    c[255] = 2;
    assert_eq!(total_keys(&c), 3);
}
