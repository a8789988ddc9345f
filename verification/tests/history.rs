use serial_console::history::HistoryBuffer;

#[test]
fn new_history_is_empty() {
    let history = HistoryBuffer::new(16);
    assert_eq!(history.capacity(), 16);
    assert_eq!(history.len(), 0);
    assert_eq!(history.used(), 0);
    assert!(history.is_empty());
    assert_eq!(history.recall(0), None);
    assert_eq!(history.recall(-1), None);
    assert_eq!(history.recall(1), None);
}

#[test]
fn pushed_line_is_recalled_at_offset_zero() {
    let mut history = HistoryBuffer::new(16);
    assert!(history.push(b"ls"));
    assert_eq!(history.recall(0), Some(&b"ls"[..]));
    assert_eq!(history.len(), 1);
    assert_eq!(history.used(), 3);
}

#[test]
fn recall_counts_back_from_the_most_recent() {
    let mut history = HistoryBuffer::new(32);
    assert!(history.push(b"first"));
    assert!(history.push(b"second"));
    assert!(history.push(b"third"));
    assert_eq!(history.recall(0), Some(&b"third"[..]));
    assert_eq!(history.recall(1), Some(&b"second"[..]));
    assert_eq!(history.recall(2), Some(&b"first"[..]));
    assert_eq!(history.recall(3), None);
    assert_eq!(history.recall(isize::MAX), None);
    assert_eq!(history.used(), 6 + 7 + 6);
}

#[test]
fn recall_of_a_negative_offset_is_none() {
    let mut history = HistoryBuffer::new(16);
    assert!(history.push(b"ls"));
    assert_eq!(history.recall(-1), None);
    assert_eq!(history.recall(isize::MIN), None);
}

#[test]
fn recall_does_not_change_the_history() {
    let mut history = HistoryBuffer::new(16);
    assert!(history.push(b"one"));
    assert!(history.push(b"two"));
    for _ in 0..3 {
        assert_eq!(history.recall(1), Some(&b"one"[..]));
        assert_eq!(history.recall(0), Some(&b"two"[..]));
        assert_eq!(history.recall(2), None);
    }
    assert_eq!(history.len(), 2);
    assert_eq!(history.used(), 8);
}

#[test]
fn oldest_entry_leaves_first() {
    let mut history = HistoryBuffer::new(16);
    assert!(history.push(b"aaaa"));
    assert!(history.push(b"bbbb"));
    assert!(history.push(b"cccc"));
    assert_eq!(history.used(), 15);
    assert!(history.push(b"dd"));
    assert_eq!(history.recall(0), Some(&b"dd"[..]));
    assert_eq!(history.recall(1), Some(&b"cccc"[..]));
    assert_eq!(history.recall(2), Some(&b"bbbb"[..]));
    assert_eq!(history.recall(3), None);
    assert_eq!(history.len(), 3);
    assert_eq!(history.used(), 13);
}

#[test]
fn no_more_entries_leave_than_must() {
    let mut history = HistoryBuffer::new(16);
    assert!(history.push(b"aaaa"));
    assert!(history.push(b"bbbb"));
    assert!(history.push(b"cccc"));
    // one byte is free: an empty line fits without any eviction
    assert!(history.push(b""));
    assert_eq!(history.len(), 4);
    assert_eq!(history.recall(0), Some(&b""[..]));
    assert_eq!(history.recall(3), Some(&b"aaaa"[..]));
    assert_eq!(history.used(), 16);
}

#[test]
fn a_large_entry_evicts_several() {
    let mut history = HistoryBuffer::new(16);
    assert!(history.push(b"a"));
    assert!(history.push(b"b"));
    assert!(history.push(b"c"));
    assert!(history.push(b"0123456789abc"));
    assert_eq!(history.recall(0), Some(&b"0123456789abc"[..]));
    assert_eq!(history.recall(1), Some(&b"c"[..]));
    assert_eq!(history.recall(2), None);
    assert_eq!(history.used(), 16);
}

#[test]
fn an_entry_as_long_as_the_region_allows_evicts_all() {
    let mut history = HistoryBuffer::new(16);
    assert!(history.push(b"one"));
    assert!(history.push(b"two"));
    assert!(history.push(b"0123456789abcde"));
    assert_eq!(history.len(), 1);
    assert_eq!(history.recall(0), Some(&b"0123456789abcde"[..]));
    assert_eq!(history.recall(1), None);
}

#[test]
fn many_pushes_keep_the_most_recent() {
    let mut history = HistoryBuffer::new(16);
    let lines: [&[u8]; 8] = [b"l0", b"l1", b"l2", b"l3", b"l4", b"l5", b"l6", b"l7"];
    for line in lines.iter() {
        assert!(history.push(line));
        assert_eq!(history.recall(0), Some(*line));
        assert!(history.used() <= 16);
    }
    // five entries of three bytes fit into sixteen
    assert_eq!(history.len(), 5);
    assert_eq!(history.recall(0), Some(&b"l7"[..]));
    assert_eq!(history.recall(4), Some(&b"l3"[..]));
    assert_eq!(history.recall(5), None);
}

#[test]
fn a_line_longer_than_the_region_is_refused() {
    let mut history = HistoryBuffer::new(16);
    assert!(history.push(b"keep"));
    assert!(!history.push(b"0123456789abcdef"));
    assert!(!history.push(b"0123456789abcdefXYZ"));
    assert_eq!(history.len(), 1);
    assert_eq!(history.used(), 5);
    assert_eq!(history.recall(0), Some(&b"keep"[..]));
}

#[test]
fn a_line_with_a_zero_byte_is_refused() {
    let mut history = HistoryBuffer::new(16);
    assert!(history.push(b"keep"));
    assert!(!history.push(b"a\0b"));
    assert!(!history.push(b"\0"));
    assert_eq!(history.len(), 1);
    assert_eq!(history.recall(0), Some(&b"keep"[..]));
}

#[test]
fn zero_capacity_refuses_every_line() {
    let mut history = HistoryBuffer::new(0);
    assert!(!history.push(b""));
    assert!(!history.push(b"a"));
    assert_eq!(history.recall(0), None);
}

#[test]
fn the_same_line_twice_is_stored_twice() {
    let mut history = HistoryBuffer::new(16);
    assert!(history.push(b"ls"));
    assert!(history.push(b"ls"));
    assert_eq!(history.len(), 2);
    assert_eq!(history.recall(1), Some(&b"ls"[..]));
}

#[test]
fn clear_forgets_every_entry() {
    let mut history = HistoryBuffer::new(16);
    assert!(history.push(b"one"));
    assert!(history.push(b"two"));
    history.clear();
    assert!(history.is_empty());
    assert_eq!(history.used(), 0);
    assert_eq!(history.capacity(), 16);
    assert_eq!(history.recall(0), None);
    assert!(history.push(b"three"));
    assert_eq!(history.recall(0), Some(&b"three"[..]));
}
