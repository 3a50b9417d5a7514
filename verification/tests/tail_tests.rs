use log_exporter::TailState;

#[test]
fn fresh_reader_is_zeroed() {
    let t = TailState::new();
    assert_eq!(t.last_size, 0);
    assert_eq!(t.last_line_count, 0);
    assert_eq!(t.next_unread, 0);
}

#[test]
fn idle_poll_reads_nothing() {
    let mut t = TailState::new();
    assert!(t.check_size(100));
    let start = t.consume(5);
    assert_eq!(start, 0);
    assert_eq!(t.next_unread, 5);
    // Same size again: the poll must decide against reading the file.
    assert!(!t.check_size(100));
    assert_eq!(t.next_unread, 5);
    assert_eq!(t.last_line_count, 5);
}

#[test]
fn growth_delivers_each_line_once() {
    let mut t = TailState::new();
    assert!(t.check_size(100));
    let start1 = t.consume(10);
    assert_eq!(start1, 0);
    // The file grew; the next poll delivers exactly the appended lines.
    assert!(t.check_size(150));
    let start2 = t.consume(14);
    assert_eq!(start2, 10);
    assert_eq!(t.next_unread, 14);
}

#[test]
fn shrinking_file_resets_to_line_zero() {
    let mut t = TailState::new();
    assert!(t.check_size(1000));
    t.consume(10);
    assert_eq!(t.next_unread, 10);
    // Rotation: smaller file, position falls back to the start.
    assert!(t.check_size(80));
    assert_eq!(t.next_unread, 0);
    let start = t.consume(2);
    assert_eq!(start, 0);
    assert_eq!(t.next_unread, 2);
}
