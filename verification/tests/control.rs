use g2mirror::control::{bad_message, bad_session_message, BellDebouncer, LineBuffer};

const SEC: u64 = 1_000_000_000;
const MS: u64 = 1_000_000;

#[test]
fn bell_debounce_leading_and_trailing_edge() {
    let mut d = BellDebouncer::new(3 * SEC);
    let t0: u64 = 1_000 * SEC;

    // First bell reports immediately.
    assert_eq!(d.on_bell(t0, 1000), Some(1000));
    assert_eq!(d.deadline(), None);

    // Bells inside the window are held; the latest timestamp wins.
    assert_eq!(d.on_bell(t0 + 500 * MS, 1500), None);
    assert_eq!(d.on_bell(t0 + 900 * MS, 1900), None);
    let deadline = d.deadline().expect("trailing edge must be scheduled");
    assert_eq!(deadline, t0 + 3 * SEC);

    // The trailing edge reports the held bell exactly once.
    assert_eq!(d.fire(deadline), Some(1900));
    assert_eq!(d.deadline(), None);
    assert_eq!(d.fire(deadline), None);

    // The trailing report restarts the window...
    assert_eq!(d.on_bell(deadline + SEC, 5000), None);
    // ...and a bell after a quiet window reports immediately again.
    let mut d = BellDebouncer::new(3 * SEC);
    assert_eq!(d.on_bell(t0, 1000), Some(1000));
    assert_eq!(d.on_bell(t0 + 4 * SEC, 9000), Some(9000));
}

#[test]
fn bells_before_the_last_report_count_as_inside_the_window() {
    let mut d = BellDebouncer::new(3 * SEC);
    assert_eq!(d.on_bell(10 * SEC, 1), Some(1));
    assert_eq!(d.on_bell(9 * SEC, 2), None);
    assert_eq!(d.on_bell(13 * SEC, 3), Some(3));
    let mut none = BellDebouncer::new(0);
    assert_eq!(none.on_bell(5, 1), Some(1));
    assert_eq!(none.on_bell(5, 2), Some(2));
}

#[test]
fn lines_are_reassembled() {
    let mut b = LineBuffer::new();
    assert_eq!(b.next_line(), None);
    b.extend(b"{\"a\":");
    assert_eq!(b.next_line(), None);
    b.extend(b"1}\n\n\nnext\nrest");
    assert_eq!(b.next_line(), Some(b"{\"a\":1}".to_vec()));
    assert_eq!(b.next_line(), Some(b"next".to_vec()));
    assert_eq!(b.next_line(), None);
    b.extend(b"\n");
    assert_eq!(b.next_line(), Some(b"rest".to_vec()));
    b.extend(b"\n\n");
    assert_eq!(b.next_line(), None);
}

#[test]
fn bad_messages_are_quoted_lossily() {
    assert_eq!(bad_message(b"hi"), "bad message: hi");
    assert_eq!(bad_message(b"a\xffb"), "bad message: a\u{fffd}b");
    assert_eq!(bad_session_message(b"a\xffb"), "bad session message: a\u{fffd}b");
}

#[test]
fn bells_follow_the_latest_report() {
    let mut d = BellDebouncer::new(3 * SEC);
    assert_eq!(d.fire(SEC), None);
    assert_eq!(d.on_bell(10 * SEC, 1), Some(1));
    assert_eq!(d.on_bell(11 * SEC, 2), None);
    assert_eq!(d.on_bell(12 * SEC, 3), None);
    assert_eq!(d.deadline(), Some(13 * SEC));
    // Exactly one window later a bell is reported; the held one stays.
    assert_eq!(d.on_bell(13 * SEC, 4), Some(4));
    assert_eq!(d.deadline(), Some(16 * SEC));
    assert_eq!(d.fire(16 * SEC), Some(3));
    assert_eq!(d.deadline(), None);
    assert_eq!(d.fire(17 * SEC), None);
    // A clock that seems to go back counts as no time passed.
    assert_eq!(d.on_bell(15 * SEC, 5), None);
    assert_eq!(d.fire(19 * SEC), Some(5));
    // Without a window nothing is held.
    let mut d = BellDebouncer::new(0);
    assert_eq!(d.on_bell(5, 1), Some(1));
    assert_eq!(d.on_bell(4, 2), Some(2));
}
