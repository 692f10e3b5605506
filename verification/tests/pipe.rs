use keycounter::{client_connected, PipeError, Transfer};

#[test]
fn read_transfer_completes() {
    let mut t = Transfer::new(10);
    assert!(!t.is_complete());
    assert_eq!(t.record_read(4), Ok(()));
    assert_eq!(t.done(), 4);
    assert_eq!(t.record_read(6), Ok(()));
    assert!(t.is_complete());
}

#[test]
fn read_of_zero_is_closed() {
    let mut t = Transfer::new(8);
    assert_eq!(t.record_read(3), Ok(()));
    assert_eq!(t.record_read(0), Err(PipeError::Closed));
    assert_eq!(t.done(), 3);
}

#[test]
fn write_of_zero_is_error() {
    let mut t = Transfer::new(4);
    assert_eq!(t.record_write(0), Err(PipeError::WriteZero));
    assert_eq!(t.record_write(4), Ok(()));
    assert!(t.is_complete());
}

#[test]
fn empty_transfer_is_complete() {
    assert!(Transfer::new(0).is_complete());
}

#[test]
fn client_connection() {
    assert!(client_connected(true, 0));
    assert!(client_connected(false, 535));
    assert!(!client_connected(false, 232));
}
