use g2mirror::input::{check_delays, InputQueue};
use g2mirror::protocol::{decode_terminal_bytes, encode_terminal_bytes, InputDelay, Role};

const MS: u64 = 1_000_000;

#[test]
fn input_without_delays_is_immediate() {
    let mut q = InputQueue::new();
    q.push(b"abc".to_vec(), &Vec::new());
    assert_eq!(q.deadline(), None);
    assert_eq!(q.next_chunk(0), Some(b"abc".to_vec()));
    assert_eq!(q.next_chunk(0), None);
}

#[test]
fn pauses_hold_input_back_in_order() {
    let mut q = InputQueue::new();
    let delays = vec![InputDelay { at: 2, ms: 50 }, InputDelay { at: 3, ms: 9999 }];
    q.push(b"abcd".to_vec(), &delays);
    q.push(b"e".to_vec(), &Vec::new());
    assert_eq!(q.next_chunk(10), Some(b"ab".to_vec()));
    assert_eq!(q.next_chunk(10), None);
    assert_eq!(q.deadline(), Some(10 + 50 * MS));
    assert_eq!(q.next_chunk(10 + 49 * MS), None);
    assert_eq!(q.next_chunk(10 + 50 * MS), Some(b"c".to_vec()));
    // The pause starts when the queue is next asked, and is capped.
    let t = 10 + 51 * MS;
    assert_eq!(q.next_chunk(t), None);
    assert_eq!(q.deadline(), Some(t + 1000 * MS));
    assert_eq!(q.next_chunk(t + 1000 * MS), Some(b"d".to_vec()));
    assert_eq!(q.next_chunk(t + 1000 * MS), Some(b"e".to_vec()));
    assert_eq!(q.next_chunk(t + 1000 * MS), None);
    assert_eq!(q.deadline(), None);
}

#[test]
fn delay_offsets_are_checked() {
    let at = |list: &[u64]| -> Vec<InputDelay> {
        list.iter().map(|a| InputDelay { at: *a, ms: 1 }).collect()
    };
    assert!(check_delays(&at(&[]), 0));
    assert!(check_delays(&at(&[0, 0, 3]), 3));
    assert!(!check_delays(&at(&[4]), 3));
    assert!(!check_delays(&at(&[2, 1]), 3));
}

#[test]
fn terminal_bytes_round_trip() {
    assert_eq!(encode_terminal_bytes(b"\x1b[0m\xff"), "G1swbf8=");
    assert_eq!(decode_terminal_bytes("G1swbf8=").unwrap(), b"\x1b[0m\xff".to_vec());
    assert_eq!(decode_terminal_bytes("").unwrap(), Vec::<u8>::new());
    assert_eq!(decode_terminal_bytes("!").unwrap_err(), "Invalid symbol 33, offset 0.");
    for len in 0..50usize {
        let bytes: Vec<u8> = (0..len).map(|i| (i * 37) as u8).collect();
        assert_eq!(decode_terminal_bytes(&encode_terminal_bytes(&bytes)).unwrap(), bytes);
    }
    assert!(Role::default().is_viewer());
    assert!(!Role::Host.is_viewer());
}
