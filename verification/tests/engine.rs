use serial_console::engine::{banner, CliEngine, Reaction, State};
use serial_console::history::HistoryBuffer;
use serial_console::line_buffer::LineBuffer;

fn engine(line: usize, history: usize) -> CliEngine {
    CliEngine::new(LineBuffer::new(line), HistoryBuffer::new(history))
}

/// Feeds `input`; returns all that was written and every line submitted.
fn feed(engine: &mut CliEngine, input: &[u8]) -> (Vec<u8>, Vec<Vec<u8>>) {
    let mut written = Vec::new();
    let mut lines = Vec::new();
    for &byte in input {
        let Reaction { output, submitted } = engine.process_byte(byte);
        written.extend_from_slice(&output);
        if let Some(line) = submitted {
            lines.push(line);
        }
    }
    (written, lines)
}

#[test]
fn banner_is_the_welcome_line() {
    assert_eq!(banner(), b"Welcome to the embedded CLI!\r\n");
}

#[test]
fn new_engine_is_empty_and_editing() {
    let engine = engine(16, 16);
    assert_eq!(engine.state(), State::EditingLine);
    assert_eq!(engine.line().snapshot(), b"");
    assert_eq!(engine.line().capacity(), 16);
    assert!(engine.history().is_empty());
    assert_eq!(engine.history().capacity(), 16);
}

#[test]
fn new_engine_forgets_what_the_buffers_held() {
    let mut line = LineBuffer::new(8);
    line.insert(b'x');
    let mut history = HistoryBuffer::new(8);
    history.push(b"old");
    let engine = CliEngine::new(line, history);
    assert_eq!(engine.line().snapshot(), b"");
    assert!(engine.history().is_empty());
}

#[test]
fn printable_byte_is_inserted_and_echoed() {
    let mut engine = engine(16, 16);
    let reaction = engine.process_byte(b'a');
    assert_eq!(reaction, Reaction { output: vec![b'a'], submitted: None });
    assert_eq!(engine.line().snapshot(), b"a");
    assert_eq!(engine.line().cursor(), 1);
    let (written, lines) = feed(&mut engine, b" ~");
    assert_eq!(written, b" ~");
    assert!(lines.is_empty());
    assert_eq!(engine.line().snapshot(), b"a ~");
}

#[test]
fn scenario_ls_enter() {
    let mut engine = engine(16, 16);
    let (written, lines) = feed(&mut engine, b"ls\r");
    assert_eq!(written, b"ls\r\n");
    assert_eq!(lines, vec![b"ls".to_vec()]);
    assert_eq!(engine.line().snapshot(), b"");
    assert_eq!(engine.line().len(), 0);
    assert_eq!(engine.line().cursor(), 0);
    assert_eq!(engine.history().recall(0), Some(&b"ls"[..]));
    assert_eq!(engine.state(), State::EditingLine);
}

#[test]
fn scenario_ls_backspace_s_enter() {
    let mut engine = engine(16, 16);
    let (written, lines) = feed(&mut engine, b"ls\x08s\r");
    assert_eq!(lines, vec![b"ls".to_vec()]);
    assert_eq!(written, b"ls\x08 \x08s\r\n");
    assert_eq!(engine.history().recall(0), Some(&b"ls"[..]));
}

#[test]
fn backspace_erases_and_renders() {
    let mut engine = engine(16, 16);
    feed(&mut engine, b"ab");
    let reaction = engine.process_byte(0x08);
    assert_eq!(reaction, Reaction { output: b"\x08 \x08".to_vec(), submitted: None });
    assert_eq!(engine.line().snapshot(), b"a");
    let reaction = engine.process_byte(0x7F);
    assert_eq!(reaction.output, b"\x08 \x08");
    assert_eq!(engine.line().snapshot(), b"");
}

#[test]
fn backspace_on_empty_line_does_nothing() {
    let mut engine = engine(16, 16);
    let reaction = engine.process_byte(0x08);
    assert_eq!(reaction, Reaction { output: vec![], submitted: None });
    let reaction = engine.process_byte(0x7F);
    assert_eq!(reaction, Reaction { output: vec![], submitted: None });
    assert_eq!(engine.line().snapshot(), b"");
}

#[test]
fn full_line_rejects_in_silence() {
    let mut engine = engine(4, 16);
    let (written, _) = feed(&mut engine, b"abcd");
    assert_eq!(written, b"abcd");
    let reaction = engine.process_byte(b'e');
    assert_eq!(reaction, Reaction { output: vec![], submitted: None });
    assert_eq!(engine.line().snapshot(), b"abcd");
    assert_eq!(engine.line().len(), 4);
    let (written, lines) = feed(&mut engine, b"\r");
    assert_eq!(written, b"\r\n");
    assert_eq!(lines, vec![b"abcd".to_vec()]);
}

#[test]
fn line_feed_submits_too() {
    let mut engine = engine(16, 16);
    let (written, lines) = feed(&mut engine, b"pwd\n");
    assert_eq!(written, b"pwd\r\n");
    assert_eq!(lines, vec![b"pwd".to_vec()]);
    assert_eq!(engine.history().recall(0), Some(&b"pwd"[..]));
}

#[test]
fn empty_line_is_submitted_but_not_remembered() {
    let mut engine = engine(16, 16);
    let reaction = engine.process_byte(b'\r');
    assert_eq!(reaction, Reaction { output: b"\r\n".to_vec(), submitted: Some(vec![]) });
    assert!(engine.history().is_empty());
    feed(&mut engine, b"ls\r");
    feed(&mut engine, b"\r");
    assert_eq!(engine.history().len(), 1);
    assert_eq!(engine.history().recall(0), Some(&b"ls"[..]));
}

#[test]
fn other_control_bytes_are_ignored() {
    let mut engine = engine(16, 16);
    feed(&mut engine, b"ab");
    for byte in [0x00u8, 0x01, 0x07, 0x09, 0x0B, 0x0C, 0x1A, 0x1C, 0x1F, 0x80, 0xC3, 0xFF] {
        let reaction = engine.process_byte(byte);
        assert_eq!(reaction, Reaction { output: vec![], submitted: None });
        assert_eq!(engine.state(), State::EditingLine);
    }
    assert_eq!(engine.line().snapshot(), b"ab");
}

#[test]
fn escape_byte_starts_a_sequence() {
    let mut engine = engine(16, 16);
    let reaction = engine.process_byte(0x1B);
    assert_eq!(reaction, Reaction { output: vec![], submitted: None });
    assert_eq!(engine.state(), State::AwaitingEscapeSequence { bracket: false });
    let reaction = engine.process_byte(0x5B);
    assert_eq!(reaction, Reaction { output: vec![], submitted: None });
    assert_eq!(engine.state(), State::AwaitingEscapeSequence { bracket: true });
}

#[test]
fn arrow_up_recalls_the_last_line() {
    let mut engine = engine(16, 16);
    feed(&mut engine, b"ls\r");
    feed(&mut engine, b"xy");
    let (written, lines) = feed(&mut engine, b"\x1B\x5B\x41");
    assert_eq!(engine.line().snapshot(), b"ls");
    assert_eq!(engine.line().cursor(), 2);
    assert_eq!(written, b"\r\x1B[2Kls");
    assert!(lines.is_empty());
    assert_eq!(engine.state(), State::EditingLine);
    assert_eq!(engine.history().len(), 1);
}

#[test]
fn arrow_up_walks_back_and_arrow_down_walks_forward() {
    let mut engine = engine(16, 32);
    feed(&mut engine, b"one\rtwo\rthree\r");
    feed(&mut engine, b"\x1B[A");
    assert_eq!(engine.line().snapshot(), b"three");
    feed(&mut engine, b"\x1B[A");
    assert_eq!(engine.line().snapshot(), b"two");
    feed(&mut engine, b"\x1B[A");
    assert_eq!(engine.line().snapshot(), b"one");
    let (written, _) = feed(&mut engine, b"\x1B[A");
    assert_eq!(written, b"");
    assert_eq!(engine.line().snapshot(), b"one");
    let (written, _) = feed(&mut engine, b"\x1B[B");
    assert_eq!(written, b"\r\x1B[2Ktwo");
    assert_eq!(engine.line().snapshot(), b"two");
    feed(&mut engine, b"\x1B[B");
    assert_eq!(engine.line().snapshot(), b"three");
    let (written, _) = feed(&mut engine, b"\x1B[B");
    assert_eq!(written, b"");
    assert_eq!(engine.line().snapshot(), b"three");
}

#[test]
fn arrow_keys_on_empty_history_change_nothing() {
    let mut engine = engine(16, 16);
    feed(&mut engine, b"ab");
    let (written, lines) = feed(&mut engine, b"\x1B[A\x1B[B");
    assert_eq!(written, b"");
    assert!(lines.is_empty());
    assert_eq!(engine.line().snapshot(), b"ab");
    assert_eq!(engine.state(), State::EditingLine);
}

#[test]
fn recalled_line_can_be_edited_and_submitted() {
    let mut engine = engine(16, 32);
    feed(&mut engine, b"ls\r");
    let (_, lines) = feed(&mut engine, b"\x1B[A -l\r");
    assert_eq!(lines, vec![b"ls -l".to_vec()]);
    assert_eq!(engine.history().recall(0), Some(&b"ls -l"[..]));
    assert_eq!(engine.history().recall(1), Some(&b"ls"[..]));
    // a submit starts the walk through the history anew
    feed(&mut engine, b"\x1B[A");
    assert_eq!(engine.line().snapshot(), b"ls -l");
}

#[test]
fn unknown_sequence_is_dropped() {
    let mut engine = engine(16, 16);
    feed(&mut engine, b"ls\r");
    feed(&mut engine, b"ab");
    for last in [b'C', b'D', b'H', b'~', b'1', b'a', 0x00u8, 0x1B, 0x5B, b'\r', 0x08] {
        let (written, lines) = feed(&mut engine, &[0x1B, 0x5B, last]);
        assert_eq!(written, b"");
        assert!(lines.is_empty());
        assert_eq!(engine.line().snapshot(), b"ab");
        assert_eq!(engine.line().cursor(), 2);
        assert_eq!(engine.state(), State::EditingLine);
        assert_eq!(engine.history().len(), 1);
    }
}

#[test]
fn escape_without_bracket_is_dropped_with_the_next_byte() {
    let mut engine = engine(16, 16);
    feed(&mut engine, b"ab");
    for next in [b'A', b'x', 0x1Bu8, b'\r', 0x08] {
        let (written, lines) = feed(&mut engine, &[0x1B, next]);
        assert_eq!(written, b"");
        assert!(lines.is_empty());
        assert_eq!(engine.line().snapshot(), b"ab");
        assert_eq!(engine.state(), State::EditingLine);
    }
}

#[test]
fn timeout_drops_an_unfinished_sequence() {
    let mut engine = engine(16, 16);
    feed(&mut engine, b"ls\r");
    feed(&mut engine, b"\x1B");
    engine.escape_timed_out();
    assert_eq!(engine.state(), State::EditingLine);
    let (written, _) = feed(&mut engine, b"[A");
    assert_eq!(written, b"[A");
    assert_eq!(engine.line().snapshot(), b"[A");
    feed(&mut engine, b"\x1B[");
    engine.escape_timed_out();
    assert_eq!(engine.state(), State::EditingLine);
    feed(&mut engine, b"B");
    assert_eq!(engine.line().snapshot(), b"[AB");
}

#[test]
fn timeout_while_editing_changes_nothing() {
    let mut engine = engine(16, 16);
    feed(&mut engine, b"ab");
    engine.escape_timed_out();
    assert_eq!(engine.state(), State::EditingLine);
    assert_eq!(engine.line().snapshot(), b"ab");
}

#[test]
fn line_too_long_for_the_history_is_submitted_but_not_remembered() {
    let mut engine = engine(16, 4);
    let (_, lines) = feed(&mut engine, b"abc\r");
    assert_eq!(lines, vec![b"abc".to_vec()]);
    assert_eq!(engine.history().recall(0), Some(&b"abc"[..]));
    let (_, lines) = feed(&mut engine, b"abcd\r");
    assert_eq!(lines, vec![b"abcd".to_vec()]);
    assert_eq!(engine.history().len(), 1);
    assert_eq!(engine.history().recall(0), Some(&b"abc"[..]));
}

#[test]
fn history_evicts_oldest_lines_of_the_engine() {
    let mut engine = engine(16, 16);
    feed(&mut engine, b"aaaa\rbbbb\rcccc\rdd\r");
    assert_eq!(engine.history().recall(0), Some(&b"dd"[..]));
    assert_eq!(engine.history().recall(1), Some(&b"cccc"[..]));
    assert_eq!(engine.history().recall(2), Some(&b"bbbb"[..]));
    assert_eq!(engine.history().recall(3), None);
}
