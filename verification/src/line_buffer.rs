//! The command line under edit: a fixed region of bytes with a logical length
//! and a cursor.

use vstd::prelude::*;
use vstd::slice::slice_subrange;

verus! {

/// What a line buffer holds, as plain mathematics: the text, the place of the
/// cursor in it, and the room there is.
pub struct Line {
    pub text: Seq<u8>,
    pub cursor: int,
    pub capacity: int,
}

impl Line {
    /// Text within capacity, cursor within text.
    pub open spec fn wf(self) -> bool {
        0 <= self.cursor <= self.text.len() <= self.capacity
    }

    /// The empty line with room for `capacity` bytes.
    pub open spec fn empty(capacity: int) -> Line {
        Line { text: Seq::<u8>::empty(), cursor: 0, capacity }
    }

    pub open spec fn is_full(self) -> bool {
        self.text.len() >= self.capacity
    }

    /// `byte` put in at the cursor and the cursor moved past it; a full line
    /// stays as it is.
    pub open spec fn insert(self, byte: u8) -> Line {
        if self.is_full() {
            self
        } else {
            Line {
                text: self.text.insert(self.cursor, byte),
                cursor: self.cursor + 1,
                capacity: self.capacity,
            }
        }
    }

    /// Each byte of `bytes` put in at the cursor, in order.
    pub open spec fn insert_all(self, bytes: Seq<u8>) -> Line
        decreases bytes.len(),
    {
        if bytes.len() == 0 {
            self
        } else {
            self.insert_all(bytes.drop_last()).insert(bytes.last())
        }
    }

    /// The byte before the cursor taken out and the cursor moved back; with
    /// the cursor at the start the line stays as it is.
    pub open spec fn delete_before(self) -> Line {
        if self.cursor <= 0 {
            self
        } else {
            Line {
                text: self.text.remove(self.cursor - 1),
                cursor: self.cursor - 1,
                capacity: self.capacity,
            }
        }
    }

    pub open spec fn clear(self) -> Line {
        Line::empty(self.capacity)
    }

    /// The cursor put at `at`; a place beyond the text is refused.
    pub open spec fn set_cursor(self, at: int) -> Line {
        if 0 <= at <= self.text.len() {
            Line { text: self.text, cursor: at, capacity: self.capacity }
        } else {
            self
        }
    }

    /// The text replaced by `text`, with the cursor at its end; a text longer
    /// than the capacity is refused.
    pub open spec fn replace(self, text: Seq<u8>) -> Line {
        if text.len() <= self.capacity {
            Line { text, cursor: text.len() as int, capacity: self.capacity }
        } else {
            self
        }
    }

    /// The text from the cursor to the end.
    pub open spec fn tail(self) -> Seq<u8> {
        self.text.skip(self.cursor)
    }
}

/// Typing into an empty line gives back what was typed: bytes that fit,
/// inserted one at a time, make a line whose text is those bytes in order,
/// with the cursor at its end.
pub proof fn law_typed_bytes_make_the_line(capacity: int, bytes: Seq<u8>)
    requires
        bytes.len() <= capacity,
    ensures
        Line::empty(capacity).insert_all(bytes) == (Line {
            text: bytes,
            cursor: bytes.len() as int,
            capacity,
        }),
    decreases bytes.len(),
{
    if bytes.len() > 0 {
        let front = bytes.drop_last();
        law_typed_bytes_make_the_line(capacity, front);
        assert(front.insert(front.len() as int, bytes.last()) =~= bytes);
    } else {
        assert(bytes =~= Seq::<u8>::empty());
    }
}

/// Typing more than fits loses only what did not fit: of any bytes inserted
/// one at a time into an empty line, the line holds the first `capacity`, in
/// order, and its length never passes the capacity.
pub proof fn law_overflow_keeps_what_fits(capacity: int, bytes: Seq<u8>)
    requires
        0 <= capacity,
    ensures
        ({
            let fit = if bytes.len() <= capacity { bytes.len() as int } else { capacity };
            Line::empty(capacity).insert_all(bytes) == (Line {
                text: bytes.take(fit),
                cursor: fit,
                capacity,
            })
        }),
    decreases bytes.len(),
{
    if bytes.len() > 0 {
        let front = bytes.drop_last();
        law_overflow_keeps_what_fits(capacity, front);
        if bytes.len() <= capacity {
            assert(front.take(front.len() as int).insert(front.len() as int, bytes.last())
                =~= bytes.take(bytes.len() as int));
        } else {
            assert(front.take(capacity) =~= bytes.take(capacity));
        }
    } else {
        assert(bytes.take(0) =~= Seq::<u8>::empty());
    }
}

/// A full line takes no more: an insert into it changes nothing, so its length
/// is what it was.
pub proof fn law_full_line_rejects(line: Line, byte: u8)
    requires
        line.wf(),
        line.is_full(),
    ensures
        line.insert(byte) == line,
        line.insert(byte).text.len() == line.text.len(),
{
}

/// Every edit keeps a line well formed.
pub proof fn law_edits_keep_bounds(line: Line, byte: u8, at: int, text: Seq<u8>)
    requires
        line.wf(),
    ensures
        line.insert(byte).wf(),
        line.delete_before().wf(),
        line.clear().wf(),
        line.set_cursor(at).wf(),
        line.replace(text).wf(),
{
}

/// Fixed-capacity storage for the line being typed.
///
/// The storage is allocated once, by [`LineBuffer::new`], and never grows. The
/// view of a buffer is its logical contents, the first `len` bytes of storage;
/// its model adds the cursor and the capacity.
pub struct LineBuffer {
    storage: Vec<u8>,
    len: usize,
    cursor: usize,
}

impl View for LineBuffer {
    type V = Seq<u8>;

    closed spec fn view(&self) -> Seq<u8> {
        Seq::new(self.len as nat, |i: int| self.storage@[i])
    }
}

impl LineBuffer {
    /// Logical length within capacity, cursor within logical length.
    pub open spec fn wf(&self) -> bool {
        self.model().wf()
    }

    /// The number of bytes that the storage holds.
    pub closed spec fn spec_capacity(&self) -> usize {
        self.storage.len()
    }

    /// The place in the text where the next byte goes.
    pub closed spec fn spec_cursor(&self) -> usize {
        self.cursor
    }

    /// The buffer as a [`Line`].
    pub open spec fn model(&self) -> Line {
        Line { text: self@, cursor: self.cursor() as int, capacity: self.capacity() as int }
    }

    /// An empty buffer with room for `capacity` bytes.
    pub fn new(capacity: usize) -> (buffer: LineBuffer)
        ensures
            buffer.wf(),
            buffer.model() == Line::empty(capacity as int),
    {
        let buffer = LineBuffer { storage: vec![0u8; capacity], len: 0, cursor: 0 };
        assert(buffer@ =~= Seq::<u8>::empty());
        buffer
    }

    /// The number of bytes that the buffer can hold.
    #[verifier::when_used_as_spec(spec_capacity)]
    pub fn capacity(&self) -> (n: usize)
        ensures
            n == self.spec_capacity(),
    {
        self.storage.len()
    }

    /// The place of the cursor: the number of bytes before it.
    #[verifier::when_used_as_spec(spec_cursor)]
    pub fn cursor(&self) -> (n: usize)
        ensures
            n == self.spec_cursor(),
    {
        self.cursor
    }

    /// The logical length.
    pub fn len(&self) -> (n: usize)
        ensures
            n == self@.len(),
    {
        self.len
    }

    /// Whether the line holds no byte.
    pub fn is_empty(&self) -> (empty: bool)
        ensures
            empty == (self@.len() == 0),
    {
        self.len == 0
    }

    /// Whether the line holds as many bytes as it can.
    pub fn is_full(&self) -> (full: bool)
        ensures
            full == self.model().is_full(),
    {
        self.len >= self.storage.len()
    }

    /// Inserts `byte` at the cursor, moving the bytes behind the cursor one
    /// place to the right, and advances the cursor past it. A full buffer
    /// rejects the byte and is left exactly as it was.
    pub fn insert(&mut self, byte: u8) -> (accepted: bool)
        requires
            old(self).wf(),
        ensures
            final(self).wf(),
            accepted == !old(self).model().is_full(),
            final(self).model() == old(self).model().insert(byte),
            !accepted ==> *final(self) == *old(self),
    {
        if self.len >= self.storage.len() {
            return false;
        }
        let mut i: usize = self.len;
        while i > self.cursor
            invariant
                self.cursor <= i <= self.len < self.storage@.len(),
                self.len == old(self).len,
                self.cursor == old(self).cursor,
                self.storage@.len() == old(self).storage@.len(),
                forall|k: int| 0 <= k < i ==> self.storage@[k] == old(self).storage@[k],
                forall|k: int| i < k <= self.len ==> self.storage@[k] == old(self).storage@[k - 1],
            decreases i,
        {
            let moved: u8 = self.storage[i - 1];
            self.storage[i] = moved;
            i -= 1;
        }
        self.storage[self.cursor] = byte;
        self.len += 1;
        self.cursor += 1;
        assert(self@ =~= old(self)@.insert(old(self).cursor() as int, byte));
        true
    }

    /// Removes the byte just before the cursor, moving the bytes behind it one
    /// place to the left, and steps the cursor back. With the cursor at the
    /// start there is nothing to remove and the buffer is left exactly as it
    /// was.
    pub fn delete_before(&mut self) -> (removed: bool)
        requires
            old(self).wf(),
        ensures
            final(self).wf(),
            removed == (old(self).cursor() > 0),
            final(self).model() == old(self).model().delete_before(),
            !removed ==> *final(self) == *old(self),
    {
        if self.cursor == 0 {
            return false;
        }
        let mut i: usize = self.cursor;
        while i < self.len
            invariant
                1 <= self.cursor <= i <= self.len <= self.storage@.len(),
                self.len == old(self).len,
                self.cursor == old(self).cursor,
                self.storage@.len() == old(self).storage@.len(),
                forall|k: int| 0 <= k < self.cursor - 1 ==> self.storage@[k] == old(self).storage@[k],
                forall|k: int| self.cursor - 1 <= k < i - 1 ==> self.storage@[k] == old(self).storage@[k + 1],
                forall|k: int| i <= k < self.len ==> self.storage@[k] == old(self).storage@[k],
            decreases self.len - i,
        {
            let moved: u8 = self.storage[i];
            self.storage[i - 1] = moved;
            i += 1;
        }
        self.cursor -= 1;
        self.len -= 1;
        assert(self@ =~= old(self)@.remove(old(self).cursor() - 1));
        true
    }

    /// Empties the buffer and puts the cursor at the start.
    pub fn clear(&mut self)
        requires
            old(self).wf(),
        ensures
            final(self).wf(),
            final(self).model() == old(self).model().clear(),
    {
        self.cursor = 0;
        self.len = 0;
        assert(self@ =~= Seq::<u8>::empty());
    }

    /// The logical contents, as a slice of the storage.
    pub fn snapshot(&self) -> (contents: &[u8])
        requires
            self.wf(),
        ensures
            contents@ == self@,
    {
        let contents = slice_subrange(self.storage.as_slice(), 0, self.len);
        assert(contents@ =~= self@);
        contents
    }

    /// The contents from the cursor to the end of the line.
    pub fn tail(&self) -> (rest: &[u8])
        requires
            self.wf(),
        ensures
            rest@ == self.model().tail(),
    {
        let rest = slice_subrange(self.storage.as_slice(), self.cursor, self.len);
        assert(rest@ =~= self@.skip(self.cursor() as int));
        rest
    }

    /// Moves the cursor to `at`. A position beyond the end of the line is
    /// refused and the buffer is left exactly as it was.
    pub fn set_cursor(&mut self, at: usize) -> (moved: bool)
        requires
            old(self).wf(),
        ensures
            final(self).wf(),
            moved == (at <= old(self)@.len()),
            final(self).model() == old(self).model().set_cursor(at as int),
            !moved ==> *final(self) == *old(self),
    {
        if at > self.len {
            return false;
        }
        self.cursor = at;
        true
    }

    /// Replaces the whole line by `line` and puts the cursor at its end. A
    /// line longer than the capacity is refused and the buffer is left exactly
    /// as it was.
    pub fn replace(&mut self, line: &[u8]) -> (fits: bool)
        requires
            old(self).wf(),
        ensures
            final(self).wf(),
            fits == (line@.len() <= old(self).capacity()),
            final(self).model() == old(self).model().replace(line@),
            !fits ==> *final(self) == *old(self),
    {
        let n: usize = line.len();
        if n > self.storage.len() {
            return false;
        }
        let mut i: usize = 0;
        while i < n
            invariant
                i <= n == line@.len() <= self.storage@.len(),
                self.storage@.len() == old(self).storage@.len(),
                forall|k: int| 0 <= k < i ==> self.storage@[k] == line@[k],
            decreases n - i,
        {
            self.storage[i] = line[i];
            i += 1;
        }
        self.len = n;
        self.cursor = n;
        assert(self@ =~= line@);
        true
    }
}

} // verus!
