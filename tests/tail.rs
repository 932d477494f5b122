use brickatlas::tail::TailState;

#[test]
fn open_starts_at_end_of_file() {
    let mut tail = TailState::open(1000);
    assert_eq!(tail.offset(), 1000);
    let from = tail.begin_read(1050);
    assert_eq!(from, 1000);
    let mut appended = b"new line one\n".to_vec();
    appended.extend_from_slice(b"new line two\n");
    appended.resize(50, b'x');
    let lines = tail.finish_read(&appended);
    assert_eq!(lines, vec![b"new line one".to_vec(), b"new line two".to_vec()]);
    assert_eq!(tail.offset(), 1050);
}

#[test]
fn zero_byte_read_changes_nothing() {
    let mut tail = TailState::open(10);
    tail.begin_read(14);
    assert!(tail.finish_read(b"abcd").is_empty());
    assert_eq!(tail.begin_read(14), 14);
    assert!(tail.finish_read(b"").is_empty());
    assert_eq!(tail.offset(), 14);
    assert_eq!(tail.finish_read(b"\n"), vec![b"abcd".to_vec()]);
}

#[test]
fn truncated_file_is_read_from_start() {
    let mut tail = TailState::open(100);
    tail.begin_read(110);
    assert!(tail.finish_read(b"half a lin").is_empty());
    assert_eq!(tail.offset(), 110);
    let from = tail.begin_read(20);
    assert_eq!(from, 0);
    assert_eq!(tail.offset(), 0);
    let lines = tail.finish_read(b"fresh start\nmore");
    assert_eq!(lines, vec![b"fresh start".to_vec()]);
    assert_eq!(tail.offset(), 16);
}

#[test]
fn read_of_same_length_keeps_offset() {
    let mut tail = TailState::open(7);
    assert_eq!(tail.begin_read(7), 7);
    assert_eq!(tail.begin_read(9), 7);
}
