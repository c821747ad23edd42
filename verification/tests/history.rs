use g2mirror::history::{History, HistoryRecord, REPLY_BYTE_BUDGET};

fn record(text: &str) -> HistoryRecord {
    HistoryRecord {
        bytes: text.as_bytes().to_vec(),
        width: 80,
        wrapped: false,
    }
}

#[test]
fn indices_are_stable_across_eviction() {
    let mut h = History::new(3);
    for i in 0..5 {
        h.push(record(&format!("line{i}")));
    }
    assert_eq!(h.next_index(), 5);
    assert_eq!(h.oldest(), 2); // lines 0 and 1 evicted
    let (start, lines) = h.fetch(5, 10);
    assert_eq!(start, 2);
    assert_eq!(
        lines.iter().map(|r| r.bytes.clone()).collect::<Vec<_>>(),
        vec![b"line2".to_vec(), b"line3".to_vec(), b"line4".to_vec()]
    );
}

#[test]
fn fetch_pages_backwards() {
    let mut h = History::new(100);
    for i in 0..10 {
        h.push(record(&format!("line{i}")));
    }
    let (start, lines) = h.fetch(10, 4);
    assert_eq!(start, 6);
    assert_eq!(lines.len(), 4);
    assert_eq!(lines[0].bytes, b"line6");
    // Next page uses the previous start as `before`.
    let (start, lines) = h.fetch(start, 4);
    assert_eq!(start, 2);
    assert_eq!(lines[0].bytes, b"line2");
    // Clamped at the oldest retained line.
    let (start, lines) = h.fetch(start, 4);
    assert_eq!(start, 0);
    assert_eq!(lines.len(), 2);
}

#[test]
fn fetch_respects_byte_budget_but_returns_at_least_one_line() {
    let mut h = History::new(100);
    let big = "x".repeat(REPLY_BYTE_BUDGET);
    h.push(record(&big));
    h.push(record(&big));
    let (start, lines) = h.fetch(2, 10);
    assert_eq!(lines.len(), 1, "budget limits to one huge line");
    assert_eq!(start, 1);
    let (start, lines) = h.fetch(start, 10);
    assert_eq!(lines.len(), 1);
    assert_eq!(start, 0);
}

#[test]
fn fetch_beyond_extent_is_clamped() {
    let mut h = History::new(100);
    h.push(record("only"));
    let (start, lines) = h.fetch(999, 10);
    assert_eq!((start, lines.len()), (0, 1));
    let (start, lines) = h.fetch(0, 10);
    assert_eq!((start, lines.len()), (0, 0));
}

#[test]
fn pages_stay_in_the_byte_budget_and_cover_everything() {
    let mut h = History::new(100);
    for i in 0..10usize {
        let len = if i == 4 { REPLY_BYTE_BUDGET * 2 } else { REPLY_BYTE_BUDGET / 3 };
        h.push(record(&"x".repeat(len)));
    }
    h.push(record(""));
    let mut before = h.next_index();
    let mut seen = 0;
    while before > h.oldest() {
        let (start, lines) = h.fetch(before, 100);
        assert!(!lines.is_empty());
        let total: usize = lines.iter().map(|r| r.bytes.len()).sum();
        assert!(total <= REPLY_BYTE_BUDGET || total == lines[lines.len() - 1].bytes.len());
        seen += lines.len();
        before = start;
    }
    assert_eq!(seen, 11);
    // An oversized line still takes the empty ones before it along.
    let mut h = History::new(100);
    h.push(record(""));
    h.push(record(&"x".repeat(REPLY_BYTE_BUDGET + 1)));
    assert_eq!(h.fetch(2, 10).1.len(), 2);
}

#[test]
fn the_tail_is_the_newest_lines_in_order() {
    let mut h = History::new(3);
    for i in 0..5 {
        h.push(record(&format!("line{i}")));
    }
    let tail: Vec<Vec<u8>> = h.tail(2).iter().map(|r| r.bytes.clone()).collect();
    assert_eq!(tail, vec![b"line3".to_vec(), b"line4".to_vec()]);
    assert_eq!(h.tail(99).len(), 3);
    h.set_max_lines(1);
    assert_eq!((h.next_index(), h.oldest()), (5, 4));
    h.set_max_lines(0);
    h.push(record("gone"));
    assert_eq!((h.next_index(), h.oldest()), (6, 6));
    assert_eq!(h.fetch(6, 0).1.len(), 0);
}

#[test]
fn indices_count_the_lines_ever_pushed() {
    let mut h = History::new(2);
    let mut seen = (0, 0);
    for (i, limit) in [(1, None), (2, None), (3, Some(5)), (4, None), (5, Some(1)), (6, Some(0)), (7, Some(9))] {
        h.push(record("x"));
        if let Some(max) = limit {
            h.set_max_lines(max);
        }
        assert_eq!(h.next_index(), i);
        assert!(h.oldest() >= seen.0 && h.next_index() >= seen.1);
        assert_eq!(h.tail(100).len() as u64, h.next_index() - h.oldest());
        seen = (h.oldest(), h.next_index());
    }
    assert_eq!(seen, (7, 7));
}
