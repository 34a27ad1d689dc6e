use colorable::bytes::Bytes;

#[test]
fn new_queue_is_empty() {
    let q = Bytes::new();
    assert!(q.is_empty());
    assert_eq!(q.read_count(), 0);
}

#[test]
fn next_reads_in_order_and_counts() {
    let mut q = Bytes::new();
    q.extend(b"abc");
    assert_eq!(q.next(), Some(b'a'));
    assert_eq!(q.next(), Some(b'b'));
    assert_eq!(q.read_count(), 2);
    assert_eq!(q.next(), Some(b'c'));
    assert_eq!(q.next(), None);
    assert_eq!(q.read_count(), 3);
    assert!(q.is_empty());
}

#[test]
fn pushback_round_trip_restores_queue() {
    let mut q = Bytes::new();
    q.extend(b"xyz");
    assert_eq!(q.next(), Some(b'x'));
    q.reset_counter();
    let a = q.next().unwrap();
    let b = q.next().unwrap();
    assert_eq!(q.read_count(), 2);
    q.unget(b);
    q.unget(a);
    assert_eq!(q.read_count(), 0);
    assert_eq!(q.next(), Some(b'y'));
    assert_eq!(q.next(), Some(b'z'));
    assert_eq!(q.next(), None);
}

#[test]
fn rollback_puts_back_last_bytes_in_order() {
    let mut q = Bytes::new();
    q.extend(b"1234");
    q.next();
    q.next();
    q.next();
    q.rollback(2);
    assert_eq!(q.read_count(), 1);
    assert_eq!(q.next(), Some(b'2'));
    assert_eq!(q.next(), Some(b'3'));
    assert_eq!(q.next(), Some(b'4'));
}

#[test]
fn contains_looks_ahead_without_reading() {
    let mut q = Bytes::new();
    q.extend(b"ab\x07");
    assert!(q.contains(0x07));
    assert!(!q.contains(b'z'));
    assert_eq!(q.read_count(), 0);
    q.next();
    q.next();
    q.next();
    assert!(!q.contains(0x07));
}

#[test]
fn reset_counter_keeps_pending_bytes() {
    let mut q = Bytes::new();
    q.extend(b"ab");
    q.next();
    q.reset_counter();
    assert_eq!(q.read_count(), 0);
    assert!(!q.is_empty());
    assert_eq!(q.next(), Some(b'b'));
}
