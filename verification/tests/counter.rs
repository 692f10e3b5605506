use keycounter::{is_ack, is_idle, KeyCounter, HOOK_ACTION, KEY_COUNT, MESSAGE_KEY_DOWN, MESSAGE_SYS_KEY_DOWN};

#[test]
fn new_counter_is_zero() {
    let c = KeyCounter::new();
    assert_eq!(c.counts(), [0u32; KEY_COUNT]);
}

#[test]
fn record_key_counts_and_ignores_out_of_range() {
    let mut c = KeyCounter::new();
    c.record_key(0x41);
    c.record_key(0x41);
    c.record_key(255);
    c.record_key(256);
    c.record_key(u32::MAX);
    let counts = c.counts();
    assert_eq!(counts[0x41], 2);
    assert_eq!(counts[255], 1);
    assert_eq!(counts.iter().map(|&v| v as u64).sum::<u64>(), 3);
}

#[test]
fn record_key_saturates() {
    let mut c = KeyCounter::new();
    let mut full = [0u32; KEY_COUNT];
    full[7] = u32::MAX;
    c.restore(&full);
    c.record_key(7);
    assert_eq!(c.counts()[7], u32::MAX);
}

#[test]
fn snapshot_resets() {
    let mut c = KeyCounter::new();
    c.record_key(3);
    let snap = c.snapshot_and_reset();
    assert_eq!(snap[3], 1);
    assert_eq!(c.counts(), [0u32; KEY_COUNT]);
}

#[test]
fn restore_after_failed_send_keeps_presses() {
    let mut c = KeyCounter::new();
    c.record_key(10);
    c.record_key(11);
    let before = c.counts();
    let snap = c.snapshot_and_reset();
    c.restore(&snap);
    assert_eq!(c.counts(), before);
    let snap = c.snapshot_and_reset();
    c.record_key(10);
    c.restore(&snap);
    assert_eq!(c.counts()[10], 2);
    assert_eq!(c.counts()[11], 1);
}

#[test]
fn restore_saturates() {
    let mut c = KeyCounter::new();
    c.record_key(1);
    let mut snap = [0u32; KEY_COUNT];
    snap[1] = u32::MAX;
    c.restore(&snap);
    assert_eq!(c.counts()[1], u32::MAX);
}

#[test]
fn idle_snapshots() {
    let mut snap = [0u32; KEY_COUNT];
    assert!(is_idle(&snap));
    snap[KEY_COUNT - 1] = 1;
    assert!(!is_idle(&snap));
}

#[test]
fn ack_reply() {
    assert!(is_ack(b"ACK1"));
    assert!(!is_ack(b"ACK2"));
    assert!(!is_ack(b"NAK1"));
}

#[test]
fn hook_events_count_key_downs_only() {
    let mut c = KeyCounter::new();
    c.record_hook_event(HOOK_ACTION, MESSAGE_KEY_DOWN, 0x41);
    c.record_hook_event(HOOK_ACTION, MESSAGE_SYS_KEY_DOWN, 0x41);
    c.record_hook_event(HOOK_ACTION, 0x0101, 0x41);
    c.record_hook_event(3, MESSAGE_KEY_DOWN, 0x41);
    c.record_hook_event(HOOK_ACTION, MESSAGE_KEY_DOWN, 300);
    assert_eq!(c.counts()[0x41], 2);
    assert_eq!(c.counts().iter().map(|&v| v as u64).sum::<u64>(), 2);
}

#[test]
fn press_order_does_not_matter() {
    let presses = [3u32, 9, 3, 255, 9, 3, 1000];
    let mut forward = KeyCounter::new();
    for &p in presses.iter() {
        forward.record_key(p);
    }
    let mut backward = KeyCounter::new();
    for &p in presses.iter().rev() {
        backward.record_key(p);
    }
    assert_eq!(forward.counts(), backward.counts());
    assert_eq!(forward.counts()[3], 3);
    assert_eq!(forward.counts()[9], 2);
}

#[test]
fn idle_counter_sends_nothing() {
    let mut c = KeyCounter::new();
    assert!(c.begin_send().is_none());
}

#[test]
fn acknowledged_send_clears_counts() {
    let mut c = KeyCounter::new();
    c.record_key(5);
    let (snapshot, message) = c.begin_send().expect("something to send");
    assert_eq!(keycounter::decode_snapshot(&message), Ok(snapshot));
    assert_eq!(snapshot[5], 1);
    c.record_key(6);
    assert!(c.end_send(&snapshot, Some(*b"ACK1")));
    let counts = c.counts();
    assert_eq!(counts[5], 0);
    assert_eq!(counts[6], 1);
}

#[test]
fn failed_or_rejected_send_keeps_counts() {
    let mut c = KeyCounter::new();
    c.record_key(5);
    let (snapshot, _) = c.begin_send().unwrap();
    c.record_key(5);
    assert!(!c.end_send(&snapshot, None));
    assert_eq!(c.counts()[5], 2);
    let (snapshot, _) = c.begin_send().unwrap();
    assert!(!c.end_send(&snapshot, Some(*b"NAK1")));
    assert_eq!(c.counts()[5], 2);
}
