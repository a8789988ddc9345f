//! The console engine: one input byte in, one edit of the line and the bytes
//! to render out.
//!
//! The engine owns the line buffer and the history. It reads no input and
//! writes no output itself: [`CliEngine::process_byte`] takes the byte that
//! arrived and returns what is to be written to the terminal, together with
//! the line that was submitted, if the byte submitted one.

use vstd::prelude::*;
use vstd::slice::slice_to_vec;
use crate::history::{
    lemma_count_within_bytes, lemma_retain_for, nul_free, pushed, recalled, retain_for,
    HistoryBuffer,
};
use crate::line_buffer::{Line, LineBuffer};

verus! {

pub const BACKSPACE: u8 = 0x08;

pub const LINE_FEED: u8 = 0x0A;

pub const CARRIAGE_RETURN: u8 = 0x0D;

pub const ESCAPE: u8 = 0x1B;

pub const SPACE: u8 = 0x20;

/// The byte `[`, which follows the escape byte in a control sequence.
pub const BRACKET: u8 = 0x5B;

/// The byte `A`, which ends the sequence of the arrow-up key.
pub const ARROW_UP: u8 = 0x41;

/// The byte `B`, which ends the sequence of the arrow-down key.
pub const ARROW_DOWN: u8 = 0x42;

/// The delete byte, which many terminals send for the backspace key.
pub const DELETE: u8 = 0x7F;

/// Where the engine stands between two input bytes.
#[derive(Clone, Copy, Debug, PartialEq, Eq)]
pub enum State {
    /// Waiting for the next byte of the line.
    EditingLine,
    /// Inside a control sequence: the escape byte was seen, and `bracket`
    /// tells whether the `[` after it was seen too.
    AwaitingEscapeSequence { bracket: bool },
}

/// A printable ASCII byte: space to tilde.
pub open spec fn is_printable(byte: u8) -> bool {
    0x20 <= byte <= 0x7E
}

/// Every byte of `text` is printable.
pub open spec fn printable(text: Seq<u8>) -> bool {
    forall|i: int| 0 <= i < text.len() ==> is_printable(#[trigger] text[i])
}

/// The newline that answers a submitted line.
pub open spec fn newline() -> Seq<u8> {
    seq![CARRIAGE_RETURN, LINE_FEED]
}

/// What is written after a byte was erased before a cursor that has `tail`
/// behind it: the cursor steps back, the tail is written anew one place to the
/// left, a space wipes the last place, and the cursor returns.
pub open spec fn erase_rendering(tail: Seq<u8>) -> Seq<u8> {
    seq![BACKSPACE] + tail + seq![SPACE] + Seq::new(tail.len() + 1, |i: int| BACKSPACE)
}

/// What is written to show `text` in place of the current line: carriage
/// return, the sequence that clears the line (`ESC [ 2 K`), and the text.
pub open spec fn redraw(text: Seq<u8>) -> Seq<u8> {
    seq![CARRIAGE_RETURN, ESCAPE, BRACKET, 0x32u8, 0x4Bu8] + text
}

/// The welcome that is written once, before any input is taken:
/// `Welcome to the embedded CLI!` and a newline.
pub open spec fn banner_text() -> Seq<u8> {
    seq![
        0x57u8, 0x65u8, 0x6Cu8, 0x63u8, 0x6Fu8, 0x6Du8, 0x65u8, 0x20u8, 0x74u8, 0x6Fu8,
        0x20u8, 0x74u8, 0x68u8, 0x65u8, 0x20u8, 0x65u8, 0x6Du8, 0x62u8, 0x65u8, 0x64u8,
        0x64u8, 0x65u8, 0x64u8, 0x20u8, 0x43u8, 0x4Cu8, 0x49u8, 0x21u8, 0x0Du8, 0x0Au8,
    ]
}

/// What the engine answers to one input byte.
pub struct Reply {
    /// The bytes to write to the terminal.
    pub output: Seq<u8>,
    /// The line that the byte submitted, if it submitted one.
    pub submitted: Option<Seq<u8>>,
}

impl Reply {
    /// Nothing to write and nothing submitted.
    pub open spec fn silent() -> Reply {
        Reply { output: Seq::<u8>::empty(), submitted: None }
    }

    pub open spec fn echo(output: Seq<u8>) -> Reply {
        Reply { output, submitted: None }
    }
}

/// The engine as plain mathematics.
pub struct Console {
    pub line: Line,
    /// The history entries, oldest first.
    pub history: Seq<Seq<u8>>,
    pub history_capacity: nat,
    /// The offset of the history entry that was recalled last, counted back
    /// from the most recent; -1 when none was recalled since the last submit.
    pub browsing: int,
    pub state: State,
}

impl Console {
    /// The line is well formed and printable, every history entry is
    /// printable and fits into the line, and the browsing offset names an
    /// entry or is -1.
    pub open spec fn wf(self) -> bool {
        &&& self.line.wf()
        &&& printable(self.line.text)
        &&& -1 <= self.browsing < self.history.len()
        &&& forall|i: int|
            0 <= i < self.history.len() ==> printable(#[trigger] self.history[i])
                && self.history[i].len() <= self.line.capacity
    }

    /// The engine at startup: empty line, empty history, editing.
    pub open spec fn fresh(line_capacity: int, history_capacity: nat) -> Console {
        Console {
            line: Line::empty(line_capacity),
            history: Seq::<Seq<u8>>::empty(),
            history_capacity,
            browsing: -1,
            state: State::EditingLine,
        }
    }

    pub open spec fn with_state(self, state: State) -> Console {
        Console { state, ..self }
    }

    /// A printable byte goes into the line at the cursor and is echoed; a
    /// full line takes nothing and nothing is written.
    pub open spec fn type_byte(self, byte: u8) -> (Console, Reply) {
        if self.line.is_full() {
            (self, Reply::silent())
        } else {
            (Console { line: self.line.insert(byte), ..self }, Reply::echo(seq![byte]))
        }
    }

    /// The byte before the cursor leaves the line and the rest of the line is
    /// rendered anew; with the cursor at the start nothing happens.
    pub open spec fn erase(self) -> (Console, Reply) {
        if self.line.cursor <= 0 {
            (self, Reply::silent())
        } else {
            let line = self.line.delete_before();
            (Console { line, ..self }, Reply::echo(erase_rendering(line.tail())))
        }
    }

    /// The line is handed over and, unless empty, pushed into the history; a
    /// newline is written and the line starts empty again.
    pub open spec fn submit(self) -> (Console, Reply) {
        let text = self.line.text;
        let history = if text.len() > 0 {
            pushed(self.history, text, self.history_capacity)
        } else {
            self.history
        };
        (
            Console {
                line: self.line.clear(),
                history,
                history_capacity: self.history_capacity,
                browsing: -1,
                state: State::EditingLine,
            },
            Reply { output: newline(), submitted: Some(text) },
        )
    }

    /// The history entry at offset `target` replaces the line and is drawn;
    /// where there is no such entry, nothing changes. Either way the control
    /// sequence is over.
    pub open spec fn navigate(self, target: int) -> (Console, Reply) {
        match recalled(self.history, target) {
            Some(entry) => (
                Console {
                    line: self.line.replace(entry),
                    browsing: target,
                    state: State::EditingLine,
                    ..self
                },
                Reply::echo(redraw(entry)),
            ),
            None => (self.with_state(State::EditingLine), Reply::silent()),
        }
    }

    /// A byte that arrives while a line is being edited.
    pub open spec fn edit(self, byte: u8) -> (Console, Reply) {
        if byte == ESCAPE {
            (self.with_state(State::AwaitingEscapeSequence { bracket: false }), Reply::silent())
        } else if is_printable(byte) {
            self.type_byte(byte)
        } else if byte == BACKSPACE || byte == DELETE {
            self.erase()
        } else if byte == CARRIAGE_RETURN || byte == LINE_FEED {
            self.submit()
        } else {
            (self, Reply::silent())
        }
    }

    /// A byte that arrives inside a control sequence. Only `ESC [ A` and
    /// `ESC [ B` mean something; any other byte ends the sequence, and the
    /// sequence and that byte are dropped.
    pub open spec fn escape(self, bracket: bool, byte: u8) -> (Console, Reply) {
        if !bracket {
            if byte == BRACKET {
                (
                    self.with_state(State::AwaitingEscapeSequence { bracket: true }),
                    Reply::silent(),
                )
            } else {
                (self.with_state(State::EditingLine), Reply::silent())
            }
        } else if byte == ARROW_UP {
            self.navigate(self.browsing + 1)
        } else if byte == ARROW_DOWN {
            self.navigate(self.browsing - 1)
        } else {
            (self.with_state(State::EditingLine), Reply::silent())
        }
    }

    /// The engine and its answer after one input byte.
    pub open spec fn step(self, byte: u8) -> (Console, Reply) {
        match self.state {
            State::EditingLine => self.edit(byte),
            State::AwaitingEscapeSequence { bracket } => self.escape(bracket, byte),
        }
    }

    /// The engine after the time allowed between the bytes of a control
    /// sequence ran out: an unfinished sequence is dropped.
    pub open spec fn expire(self) -> Console {
        self.with_state(State::EditingLine)
    }

    /// The engine after each byte of `input`, in order.
    pub open spec fn feed(self, input: Seq<u8>) -> Console
        decreases input.len(),
    {
        if input.len() == 0 {
            self
        } else {
            self.feed(input.drop_last()).step(input.last()).0
        }
    }

    /// All that is written while `input` is fed, in order.
    pub open spec fn rendered(self, input: Seq<u8>) -> Seq<u8>
        decreases input.len(),
    {
        if input.len() == 0 {
            Seq::<u8>::empty()
        } else {
            self.rendered(input.drop_last()) + self.feed(input.drop_last()).step(
                input.last(),
            ).1.output
        }
    }
}

/// A printable text holds no zero byte.
pub proof fn lemma_printable_is_nul_free(text: Seq<u8>)
    requires
        printable(text),
    ensures
        nul_free(text),
{
    assert forall|i: int| 0 <= i < text.len() implies text[i] != 0u8 by {
        assert(is_printable(text[i]));
    }
}

/// Whatever byte arrives, the engine stays well formed and keeps its
/// capacities, and a line that it hands over is printable, holds no zero byte
/// and is no longer than the line buffer.
pub proof fn law_step_keeps_wf(console: Console, byte: u8)
    requires
        console.wf(),
    ensures
        console.step(byte).0.wf(),
        console.step(byte).0.line.capacity == console.line.capacity,
        console.step(byte).0.history_capacity == console.history_capacity,
        match console.step(byte).1.submitted {
            Some(line) => printable(line) && nul_free(line) && line.len() <= console.line.capacity,
            None => true,
        },
{
    let (after, reply) = console.step(byte);
    let text = console.line.text;
    lemma_printable_is_nul_free(text);
    match console.state {
        State::EditingLine => {
            if byte == ESCAPE {
            } else if is_printable(byte) {
                if !console.line.is_full() {
                    assert forall|i: int| 0 <= i < after.line.text.len() implies is_printable(
                        #[trigger] after.line.text[i],
                    ) by {
                        if i < console.line.cursor {
                            assert(after.line.text[i] == text[i]);
                        } else if i > console.line.cursor {
                            assert(after.line.text[i] == text[i - 1]);
                        }
                    }
                }
            } else if byte == BACKSPACE || byte == DELETE {
                if console.line.cursor > 0 {
                    assert forall|i: int| 0 <= i < after.line.text.len() implies is_printable(
                        #[trigger] after.line.text[i],
                    ) by {
                        if i < console.line.cursor - 1 {
                            assert(after.line.text[i] == text[i]);
                        } else {
                            assert(after.line.text[i] == text[i + 1]);
                        }
                    }
                }
            } else if byte == CARRIAGE_RETURN || byte == LINE_FEED {
                if text.len() > 0 && crate::history::admits(text, console.history_capacity) {
                    let need = text.len() + 1;
                    lemma_retain_for(console.history, need, console.history_capacity);
                    let kept = retain_for(console.history, need, console.history_capacity);
                    let gone = console.history.len() - kept.len();
                    assert forall|i: int| 0 <= i < after.history.len() implies printable(
                        #[trigger] after.history[i],
                    ) && after.history[i].len() <= after.line.capacity by {
                        if i < kept.len() {
                            assert(after.history[i] == console.history[gone + i]);
                        } else {
                            assert(after.history[i] == text);
                        }
                    }
                }
            }
        },
        State::AwaitingEscapeSequence { bracket } => {
            if bracket && (byte == ARROW_UP || byte == ARROW_DOWN) {
                let target = if byte == ARROW_UP {
                    console.browsing + 1
                } else {
                    console.browsing - 1
                };
                if 0 <= target < console.history.len() {
                    let entry = console.history[console.history.len() - 1 - target];
                    assert(printable(entry) && entry.len() <= console.line.capacity);
                }
            }
        },
    }
}

/// Feeding any input keeps the engine well formed and its capacities as they
/// were.
pub proof fn law_feed_keeps_wf(console: Console, input: Seq<u8>)
    requires
        console.wf(),
    ensures
        console.feed(input).wf(),
        console.feed(input).line.capacity == console.line.capacity,
        console.feed(input).history_capacity == console.history_capacity,
    decreases input.len(),
{
    if input.len() > 0 {
        law_feed_keeps_wf(console, input.drop_last());
        law_step_keeps_wf(console.feed(input.drop_last()), input.last());
    }
}

/// The three bytes of a control sequence, fed one after the other, are three
/// steps.
pub proof fn lemma_feed_three(console: Console, a: u8, b: u8, c: u8)
    ensures
        console.feed(seq![a, b, c]) == console.step(a).0.step(b).0.step(c).0,
        console.rendered(seq![a, b, c]) == console.step(a).1.output + console.step(a).0.step(
            b,
        ).1.output + console.step(a).0.step(b).0.step(c).1.output,
{
    let abc = seq![a, b, c];
    let ab = seq![a, b];
    let one = seq![a];
    assert(abc.drop_last() =~= ab);
    assert(ab.drop_last() =~= one);
    assert(one.drop_last() =~= Seq::<u8>::empty());
    assert(console.feed(one.drop_last()) == console);
    assert(console.feed(one) == console.step(a).0);
    assert(console.feed(ab) == console.step(a).0.step(b).0);
    assert(console.rendered(one.drop_last()) == Seq::<u8>::empty());
    assert(one.last() == a && ab.last() == b && abc.last() == c);
    assert(console.rendered(one) =~= console.step(a).1.output);
    assert(console.rendered(ab) =~= console.step(a).1.output + console.step(a).0.step(b).1.output);
}

/// The arrow-up key recalls: while a line is edited, the bytes `ESC [ A`
/// replace the line by the history entry one step further back than the one
/// recalled last, with the cursor at its end, and draw it, provided there is
/// such an entry. After a submit that entry is the most recent one.
pub proof fn law_arrow_up_recalls(console: Console)
    requires
        console.wf(),
        console.state == State::EditingLine,
        console.browsing + 1 < console.history.len(),
    ensures
        ({
            let entry = console.history[console.history.len() - 2 - console.browsing];
            let after = console.feed(seq![ESCAPE, BRACKET, ARROW_UP]);
            &&& after.line.text == entry
            &&& after.line.cursor == entry.len()
            &&& after.browsing == console.browsing + 1
            &&& after.history == console.history
            &&& after.state == State::EditingLine
            &&& console.rendered(seq![ESCAPE, BRACKET, ARROW_UP]) == redraw(entry)
        }),
{
    lemma_feed_three(console, ESCAPE, BRACKET, ARROW_UP);
    let entry = console.history[console.history.len() - 2 - console.browsing];
    assert(printable(entry) && entry.len() <= console.line.capacity);
    assert(Seq::<u8>::empty() + Seq::<u8>::empty() + redraw(entry) =~= redraw(entry));
}

/// An arrow key with nothing to recall changes nothing: where the history
/// has no entry at the offset that the key asks for, the bytes `ESC [ A` and
/// `ESC [ B` leave the engine as it was and write nothing.
pub proof fn law_arrow_without_entry_is_idle(console: Console, up: bool)
    requires
        console.wf(),
        console.state == State::EditingLine,
        up ==> console.browsing + 1 >= console.history.len(),
        !up ==> console.browsing <= 0,
    ensures
        console.feed(seq![ESCAPE, BRACKET, if up { ARROW_UP } else { ARROW_DOWN }]) == console,
        console.rendered(seq![ESCAPE, BRACKET, if up { ARROW_UP } else { ARROW_DOWN }])
            == Seq::<u8>::empty(),
{
    let last = if up { ARROW_UP } else { ARROW_DOWN };
    lemma_feed_three(console, ESCAPE, BRACKET, last);
    assert(Seq::<u8>::empty() + Seq::<u8>::empty() + Seq::<u8>::empty() =~= Seq::<u8>::empty());
}

/// A control sequence that is not an arrow key is dropped: while a line is
/// edited, the bytes `ESC [` and any byte but `A` and `B` leave the engine as
/// it was and write nothing. So does the escape byte followed by any byte but
/// `[`, which ends the sequence after two bytes.
pub proof fn law_unknown_escape_is_dropped(console: Console, byte: u8)
    requires
        console.state == State::EditingLine,
    ensures
        byte != ARROW_UP && byte != ARROW_DOWN ==> console.feed(seq![ESCAPE, BRACKET, byte])
            == console && console.rendered(seq![ESCAPE, BRACKET, byte]) == Seq::<u8>::empty(),
        byte != BRACKET ==> console.step(ESCAPE).0.step(byte).0 == console && console.step(
            ESCAPE,
        ).0.step(byte).1 == Reply::silent(),
        console.step(ESCAPE).1 == Reply::silent(),
{
    lemma_feed_three(console, ESCAPE, BRACKET, byte);
    assert(Seq::<u8>::empty() + Seq::<u8>::empty() + Seq::<u8>::empty() =~= Seq::<u8>::empty());
}

/// The engine never moves the cursor off the end of the line: where it is at
/// the end, it is at the end after any byte. An erase then writes exactly
/// backspace, space, backspace.
pub proof fn law_cursor_stays_at_end(console: Console, byte: u8)
    requires
        console.wf(),
        console.line.cursor == console.line.text.len(),
    ensures
        console.step(byte).0.line.cursor == console.step(byte).0.line.text.len(),
        console.line.cursor > 0 ==> console.erase().1.output == seq![BACKSPACE, SPACE, BACKSPACE],
{
    if console.line.cursor > 0 {
        let line = console.line.delete_before();
        assert(line.tail() =~= Seq::<u8>::empty());
        assert(erase_rendering(line.tail()) =~= seq![BACKSPACE, SPACE, BACKSPACE]);
    }
    match console.state {
        State::EditingLine => {},
        State::AwaitingEscapeSequence { bracket } => {
            if bracket && (byte == ARROW_UP || byte == ARROW_DOWN) {
                let target = if byte == ARROW_UP {
                    console.browsing + 1
                } else {
                    console.browsing - 1
                };
                if 0 <= target < console.history.len() {
                    let entry = console.history[console.history.len() - 1 - target];
                    assert(entry.len() <= console.line.capacity);
                }
            }
        },
    }
}

/// What [`CliEngine::process_byte`] returns.
#[derive(Debug, PartialEq, Eq)]
pub struct Reaction {
    /// The bytes to write to the terminal.
    pub output: Vec<u8>,
    /// The line that the byte submitted, if it submitted one.
    pub submitted: Option<Vec<u8>>,
}

impl View for Reaction {
    type V = Reply;

    open spec fn view(&self) -> Reply {
        Reply {
            output: self.output@,
            submitted: match self.submitted {
                Some(line) => Some(line@),
                None => None,
            },
        }
    }
}

/// A reaction that writes nothing and submits nothing.
fn silence() -> (reaction: Reaction)
    ensures
        reaction@ == Reply::silent(),
{
    Reaction { output: Vec::new(), submitted: None }
}

/// The bytes that render an erase before a cursor with `tail` behind it.
fn erase_output(tail: &[u8]) -> (output: Vec<u8>)
    ensures
        output@ == erase_rendering(tail@),
{
    let n: usize = tail.len();
    let mut output: Vec<u8> = Vec::new();
    output.push(BACKSPACE);
    let mut i: usize = 0;
    while i < n
        invariant
            i <= n == tail@.len(),
            output@ == seq![BACKSPACE] + tail@.take(i as int),
        decreases n - i,
    {
        output.push(tail[i]);
        i += 1;
        assert(tail@.take(i as int) =~= tail@.take(i - 1).push(tail@[i - 1]));
    }
    output.push(SPACE);
    assert(tail@.take(n as int) =~= tail@);
    let ghost head = seq![BACKSPACE] + tail@ + seq![SPACE];
    let mut k: usize = 0;
    while k < n
        invariant
            k <= n == tail@.len(),
            output@ == head + Seq::new(k as nat, |j: int| BACKSPACE),
        decreases n - k,
    {
        output.push(BACKSPACE);
        k += 1;
    }
    output.push(BACKSPACE);
    assert(output@ =~= erase_rendering(tail@));
    output
}

/// The bytes that draw `text` in place of the current line.
fn redraw_output(text: &[u8]) -> (output: Vec<u8>)
    ensures
        output@ == redraw(text@),
{
    let n: usize = text.len();
    let mut output: Vec<u8> = Vec::new();
    output.push(CARRIAGE_RETURN);
    output.push(ESCAPE);
    output.push(BRACKET);
    output.push(0x32u8);
    output.push(0x4Bu8);
    let ghost head = output@;
    let mut i: usize = 0;
    while i < n
        invariant
            i <= n == text@.len(),
            output@ == head + text@.take(i as int),
        decreases n - i,
    {
        output.push(text[i]);
        i += 1;
        assert(text@.take(i as int) =~= text@.take(i - 1).push(text@[i - 1]));
    }
    assert(text@.take(n as int) =~= text@);
    assert(head =~= seq![CARRIAGE_RETURN, ESCAPE, BRACKET, 0x32u8, 0x4Bu8]);
    output
}

/// The welcome that is to be written once, before any input is taken.
pub fn banner() -> (text: Vec<u8>)
    ensures
        text@ == banner_text(),
{
    let letters: [u8; 30] = [
        0x57, 0x65, 0x6C, 0x63, 0x6F, 0x6D, 0x65, 0x20, 0x74, 0x6F,
        0x20, 0x74, 0x68, 0x65, 0x20, 0x65, 0x6D, 0x62, 0x65, 0x64,
        0x64, 0x65, 0x64, 0x20, 0x43, 0x4C, 0x49, 0x21, 0x0D, 0x0A,
    ];
    let mut text: Vec<u8> = Vec::new();
    let mut i: usize = 0;
    while i < 30
        invariant
            i <= 30,
            letters@ == banner_text(),
            text@ == letters@.take(i as int),
        decreases 30 - i,
    {
        text.push(letters[i]);
        i += 1;
        assert(letters@.take(i as int) =~= letters@.take(i - 1).push(letters@[i - 1]));
    }
    assert(letters@.take(30) =~= letters@);
    text
}

/// The console engine: the line under edit, the history, and the state of the
/// input parser.
pub struct CliEngine {
    line: LineBuffer,
    history: HistoryBuffer,
    browsing: isize,
    state: State,
}

impl CliEngine {
    /// The engine as a [`Console`].
    pub open spec fn model(&self) -> Console {
        Console {
            line: self.line_buffer().model(),
            history: self.history_buffer()@,
            history_capacity: self.history_buffer().capacity() as nat,
            browsing: self.browsing(),
            state: self.spec_state(),
        }
    }

    /// Both buffers are well formed, the history region is small enough for
    /// an offset into it to be a signed integer, and the engine's model is
    /// well formed.
    pub open spec fn wf(&self) -> bool {
        &&& self.line_buffer().wf()
        &&& self.history_buffer().wf()
        &&& self.history_buffer().capacity() <= isize::MAX
        &&& self.model().wf()
    }

    /// The line buffer that the engine owns.
    pub closed spec fn line_buffer(&self) -> LineBuffer {
        self.line
    }

    /// The history that the engine owns.
    pub closed spec fn history_buffer(&self) -> HistoryBuffer {
        self.history
    }

    /// The offset of the history entry that was recalled last, or -1.
    pub closed spec fn browsing(&self) -> int {
        self.browsing as int
    }

    pub closed spec fn spec_state(&self) -> State {
        self.state
    }

    /// Takes the two buffers for good and starts with an empty line and an
    /// empty history, whatever the buffers held. The history region must be
    /// small enough for an offset into it to be a signed integer.
    pub fn new(line: LineBuffer, history: HistoryBuffer) -> (engine: CliEngine)
        requires
            line.wf(),
            history.wf(),
            history.capacity() <= isize::MAX,
        ensures
            engine.wf(),
            engine.model() == Console::fresh(line.capacity() as int, history.capacity() as nat),
    {
        let mut line = line;
        let mut history = history;
        line.clear();
        history.clear();
        CliEngine { line, history, browsing: -1, state: State::EditingLine }
    }

    /// The line under edit.
    pub fn line(&self) -> (line: &LineBuffer)
        ensures
            *line == self.line_buffer(),
    {
        &self.line
    }

    /// The history of submitted lines.
    pub fn history(&self) -> (history: &HistoryBuffer)
        ensures
            *history == self.history_buffer(),
    {
        &self.history
    }

    /// Where the engine stands: editing, or inside a control sequence.
    #[verifier::when_used_as_spec(spec_state)]
    pub fn state(&self) -> (state: State)
        ensures
            state == self.spec_state(),
    {
        self.state
    }

    /// Puts a printable byte into the line and echoes it.
    fn type_byte(&mut self, byte: u8) -> (reaction: Reaction)
        requires
            old(self).wf(),
        ensures
            final(self).line.wf(),
            final(self).history == old(self).history,
            final(self).model() == old(self).model().type_byte(byte).0,
            reaction@ == old(self).model().type_byte(byte).1,
    {
        if self.line.insert(byte) {
            let mut output: Vec<u8> = Vec::new();
            output.push(byte);
            assert(output@ =~= seq![byte]);
            Reaction { output, submitted: None }
        } else {
            silence()
        }
    }

    /// Takes out the byte before the cursor and renders the rest anew.
    fn erase(&mut self) -> (reaction: Reaction)
        requires
            old(self).wf(),
        ensures
            final(self).line.wf(),
            final(self).history == old(self).history,
            final(self).model() == old(self).model().erase().0,
            reaction@ == old(self).model().erase().1,
    {
        if self.line.delete_before() {
            Reaction { output: erase_output(self.line.tail()), submitted: None }
        } else {
            silence()
        }
    }

    /// Hands the line over, remembers it unless it is empty, and starts anew.
    fn submit(&mut self) -> (reaction: Reaction)
        requires
            old(self).wf(),
        ensures
            final(self).line.wf(),
            final(self).history.wf(),
            final(self).history.capacity() == old(self).history.capacity(),
            final(self).model() == old(self).model().submit().0,
            reaction@ == old(self).model().submit().1,
    {
        let text: Vec<u8> = slice_to_vec(self.line.snapshot());
        if text.len() > 0 {
            let _ = self.history.push(text.as_slice());
        }
        self.line.clear();
        self.browsing = -1;
        self.state = State::EditingLine;
        let mut output: Vec<u8> = Vec::new();
        output.push(CARRIAGE_RETURN);
        output.push(LINE_FEED);
        assert(output@ =~= newline());
        Reaction { output, submitted: Some(text) }
    }

    /// Shows the history entry at offset `target`, if there is one, and ends
    /// the control sequence.
    fn navigate(&mut self, target: isize) -> (reaction: Reaction)
        requires
            old(self).wf(),
        ensures
            final(self).line.wf(),
            final(self).history == old(self).history,
            final(self).model() == old(self).model().navigate(target as int).0,
            reaction@ == old(self).model().navigate(target as int).1,
    {
        self.state = State::EditingLine;
        match self.history.recall(target) {
            Some(entry) => {
                let _ = self.line.replace(entry);
                self.browsing = target;
                Reaction { output: redraw_output(entry), submitted: None }
            },
            None => silence(),
        }
    }

    /// Takes one input byte: edits the line, the history and the parser state
    /// as the byte asks, and returns what is to be written to the terminal
    /// and, where the byte submitted a line, that line.
    pub fn process_byte(&mut self, byte: u8) -> (reaction: Reaction)
        requires
            old(self).wf(),
        ensures
            final(self).wf(),
            final(self).model() == old(self).model().step(byte).0,
            reaction@ == old(self).model().step(byte).1,
    {
        proof {
            law_step_keeps_wf(self.model(), byte);
            self.history.lemma_bounds();
            lemma_count_within_bytes(self.history@);
        }
        match self.state {
            State::EditingLine => {
                if byte == ESCAPE {
                    self.state = State::AwaitingEscapeSequence { bracket: false };
                    silence()
                } else if 0x20 <= byte && byte <= 0x7E {
                    self.type_byte(byte)
                } else if byte == BACKSPACE || byte == DELETE {
                    self.erase()
                } else if byte == CARRIAGE_RETURN || byte == LINE_FEED {
                    self.submit()
                } else {
                    silence()
                }
            },
            State::AwaitingEscapeSequence { bracket } => {
                if !bracket {
                    if byte == BRACKET {
                        self.state = State::AwaitingEscapeSequence { bracket: true };
                    } else {
                        self.state = State::EditingLine;
                    }
                    silence()
                } else if byte == ARROW_UP {
                    self.navigate(self.browsing + 1)
                } else if byte == ARROW_DOWN {
                    self.navigate(self.browsing - 1)
                } else {
                    self.state = State::EditingLine;
                    silence()
                }
            },
        }
    }

    /// Tells the engine that the time allowed between the bytes of a control
    /// sequence has run out. An unfinished sequence is dropped and the engine
    /// goes back to editing; nothing else changes.
    pub fn escape_timed_out(&mut self)
        requires
            old(self).wf(),
        ensures
            final(self).wf(),
            final(self).model() == old(self).model().expire(),
    {
        self.state = State::EditingLine;
    }
}

} // verus!
