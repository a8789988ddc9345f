//! A bounded history of submitted lines, kept in one fixed region of bytes.
//!
//! Entries lie in the region one after another, oldest first, each followed by
//! a zero byte. A line that holds a zero byte can therefore not be stored. When
//! a new entry does not fit, the oldest entries leave, first in, first out.

use vstd::prelude::*;
use vstd::slice::slice_subrange;

verus! {

/// No byte of `line` is zero.
pub open spec fn nul_free(line: Seq<u8>) -> bool {
    forall|i: int| 0 <= i < line.len() ==> line[i] != 0u8
}

/// The stored form of a list of entries: each entry, then a zero byte.
pub open spec fn encode(entries: Seq<Seq<u8>>) -> Seq<u8>
    decreases entries.len(),
{
    if entries.len() == 0 {
        Seq::<u8>::empty()
    } else {
        entries[0] + seq![0u8] + encode(entries.drop_first())
    }
}

/// The bytes that a list of entries takes up in the region.
pub open spec fn stored_bytes(entries: Seq<Seq<u8>>) -> nat {
    encode(entries).len()
}

/// A line can be stored in a region of `capacity` bytes: it holds no zero
/// byte, and with its terminator it is no longer than the region.
pub open spec fn admits(line: Seq<u8>, capacity: nat) -> bool {
    nul_free(line) && line.len() + 1 <= capacity
}

/// What is left of `entries` once the oldest have left, one at a time, until
/// `need` more bytes fit into `capacity`.
pub open spec fn retain_for(entries: Seq<Seq<u8>>, need: nat, capacity: nat) -> Seq<Seq<u8>>
    decreases entries.len(),
{
    if entries.len() == 0 || stored_bytes(entries) + need <= capacity {
        entries
    } else {
        retain_for(entries.drop_first(), need, capacity)
    }
}

/// The entries after a push of `line`.
pub open spec fn pushed(entries: Seq<Seq<u8>>, line: Seq<u8>, capacity: nat) -> Seq<Seq<u8>> {
    if admits(line, capacity) {
        retain_for(entries, line.len() + 1, capacity).push(line)
    } else {
        entries
    }
}

/// The entry `offset` steps back from the most recent one, if there is one.
pub open spec fn recalled(entries: Seq<Seq<u8>>, offset: int) -> Option<Seq<u8>> {
    if 0 <= offset < entries.len() {
        Some(entries[entries.len() - 1 - offset])
    } else {
        None
    }
}

/// The stored form of a concatenation is the concatenation of the stored forms.
pub proof fn lemma_encode_concat(a: Seq<Seq<u8>>, b: Seq<Seq<u8>>)
    ensures
        encode(a + b) == encode(a) + encode(b),
    decreases a.len(),
{
    if a.len() == 0 {
        assert(a + b =~= b);
        assert(encode(a) + encode(b) =~= encode(b));
    } else {
        lemma_encode_concat(a.drop_first(), b);
        assert((a + b).drop_first() =~= a.drop_first() + b);
        assert(encode(a + b) =~= encode(a) + encode(b));
    }
}

/// The stored form of one entry is the entry and its terminator.
pub proof fn lemma_encode_single(line: Seq<u8>)
    ensures
        encode(seq![line]) == line + seq![0u8],
{
    let one = seq![line];
    assert(one.drop_first() =~= Seq::<Seq<u8>>::empty());
    assert(encode(one.drop_first()) =~= Seq::<u8>::empty());
    assert(encode(one) =~= line + seq![0u8]);
}

/// Every entry takes at least its terminator.
pub proof fn lemma_count_within_bytes(entries: Seq<Seq<u8>>)
    ensures
        entries.len() <= stored_bytes(entries),
    decreases entries.len(),
{
    if entries.len() > 0 {
        lemma_count_within_bytes(entries.drop_first());
    }
}

/// Where entry `i` lies in the stored form: behind the stored form of the
/// entries before it, followed by its terminator and by the stored form of the
/// entries after it.
pub proof fn lemma_entry_at(entries: Seq<Seq<u8>>, i: int)
    requires
        0 <= i < entries.len(),
    ensures
        ({
            let start = stored_bytes(entries.take(i)) as int;
            let end = start + entries[i].len();
            &&& end < stored_bytes(entries)
            &&& encode(entries).subrange(start, end) == entries[i]
            &&& encode(entries)[end] == 0u8
            &&& stored_bytes(entries.take(i + 1)) == end + 1
            &&& encode(entries).skip(start) == encode(entries.skip(i))
            &&& encode(entries).skip(end + 1) == encode(entries.skip(i + 1))
        }),
{
    let before = entries.take(i);
    let from = entries.skip(i);
    let after = entries.skip(i + 1);
    assert(entries =~= before + from);
    lemma_encode_concat(before, from);
    assert(from.drop_first() =~= after);
    assert(from[0] == entries[i]);
    assert(encode(from) == entries[i] + seq![0u8] + encode(after));
    assert(entries.take(i + 1) =~= before + seq![entries[i]]);
    lemma_encode_concat(before, seq![entries[i]]);
    lemma_encode_single(entries[i]);
    let start = encode(before).len() as int;
    let end = start + entries[i].len();
    assert(encode(entries).subrange(start, end) =~= entries[i]);
    assert(encode(entries).skip(start) =~= encode(from));
    assert(encode(entries).skip(end + 1) =~= encode(after));
}

/// The stored form of the entries from `i` on is what lies behind the stored
/// form of the entries before `i`.
pub proof fn lemma_entry_skip(entries: Seq<Seq<u8>>, i: int)
    requires
        0 <= i <= entries.len(),
    ensures
        encode(entries).skip(stored_bytes(entries.take(i)) as int) == encode(entries.skip(i)),
        stored_bytes(entries) == stored_bytes(entries.take(i)) + stored_bytes(entries.skip(i)),
{
    assert(entries =~= entries.take(i) + entries.skip(i));
    lemma_encode_concat(entries.take(i), entries.skip(i));
    assert(encode(entries).skip(encode(entries.take(i)).len() as int) =~= encode(entries.skip(i)));
}

/// What is retained is a tail of the entries, fits together with the bytes
/// that were asked for, and is the longest tail that does.
pub proof fn lemma_retain_for(entries: Seq<Seq<u8>>, need: nat, capacity: nat)
    requires
        need <= capacity,
    ensures
        ({
            let kept = retain_for(entries, need, capacity);
            let gone = entries.len() - kept.len();
            &&& 0 <= gone <= entries.len()
            &&& kept == entries.skip(gone)
            &&& stored_bytes(kept) + need <= capacity
            &&& gone > 0 ==> stored_bytes(entries.skip(gone - 1)) + need > capacity
        }),
    decreases entries.len(),
{
    if entries.len() == 0 || stored_bytes(entries) + need <= capacity {
        assert(entries.skip(0) =~= entries);
    } else {
        let rest = entries.drop_first();
        lemma_retain_for(rest, need, capacity);
        let kept = retain_for(rest, need, capacity);
        let gone = rest.len() - kept.len();
        assert(rest.skip(gone) =~= entries.skip(gone + 1));
        if gone > 0 {
            assert(rest.skip(gone - 1) =~= entries.skip(gone));
        } else {
            assert(entries.skip(0) =~= entries);
        }
    }
}

/// The entries after each line of `lines` was pushed, in order.
pub open spec fn pushed_all(entries: Seq<Seq<u8>>, lines: Seq<Seq<u8>>, capacity: nat) -> Seq<
    Seq<u8>,
>
    decreases lines.len(),
{
    if lines.len() == 0 {
        entries
    } else {
        pushed(pushed_all(entries, lines.drop_last(), capacity), lines.last(), capacity)
    }
}

/// A line that was pushed is the most recent entry: a recall of offset 0
/// right after the push gives back exactly that line.
pub proof fn law_push_then_recall(entries: Seq<Seq<u8>>, line: Seq<u8>, capacity: nat)
    requires
        admits(line, capacity),
    ensures
        recalled(pushed(entries, line, capacity), 0) == Some(line),
{
}

/// A push lets entries go only from the old end, and no more of them than it
/// must: what is there afterwards is a tail of the old entries with the new
/// line behind it, it fits the region, and had one entry fewer left, the line
/// would not have fit. A recall one step further back than before finds what
/// it found before, as long as that entry is still there.
pub proof fn law_eviction_is_fifo(entries: Seq<Seq<u8>>, line: Seq<u8>, capacity: nat)
    requires
        admits(line, capacity),
    ensures
        ({
            let after = pushed(entries, line, capacity);
            let gone = entries.len() + 1 - after.len();
            &&& 0 <= gone <= entries.len()
            &&& after == entries.skip(gone).push(line)
            &&& stored_bytes(after) <= capacity
            &&& gone > 0 ==> stored_bytes(entries.skip(gone - 1)) + line.len() + 1 > capacity
            &&& forall|k: int|
                1 <= k < after.len() ==> recalled(after, k) == recalled(entries, k - 1)
            &&& forall|k: int| k >= after.len() ==> recalled(after, k) == None::<Seq<u8>>
        }),
{
    let need = line.len() + 1;
    lemma_retain_for(entries, need, capacity);
    let kept = retain_for(entries, need, capacity);
    lemma_encode_concat(kept, seq![line]);
    lemma_encode_single(line);
    assert(kept.push(line) =~= kept + seq![line]);
}

/// However many lines are pushed, the history is the most recent part of all
/// that was ever in it: a tail of the old entries followed by the pushed
/// lines, which fits the region. So a recall never finds an entry older than
/// the oldest that is left, and once a line was pushed, the last line pushed
/// is what a recall of offset 0 finds.
pub proof fn law_history_is_recent_tail(
    entries: Seq<Seq<u8>>,
    lines: Seq<Seq<u8>>,
    capacity: nat,
)
    requires
        forall|i: int| 0 <= i < lines.len() ==> admits(#[trigger] lines[i], capacity),
    ensures
        ({
            let after = pushed_all(entries, lines, capacity);
            let all = entries + lines;
            &&& after.len() <= all.len()
            &&& after == all.skip(all.len() - after.len())
            &&& lines.len() > 0 ==> stored_bytes(after) <= capacity
            &&& lines.len() > 0 ==> recalled(after, 0) == Some(lines.last())
        }),
    decreases lines.len(),
{
    let all = entries + lines;
    if lines.len() == 0 {
        assert(all =~= entries);
        assert(all.skip(0) =~= all);
    } else {
        let front = lines.drop_last();
        let line = lines.last();
        law_history_is_recent_tail(entries, front, capacity);
        let before = pushed_all(entries, front, capacity);
        let all_before = entries + front;
        law_eviction_is_fifo(before, line, capacity);
        let after = pushed(before, line, capacity);
        let gone = before.len() + 1 - after.len();
        assert(all =~= all_before.push(line));
        assert(after =~= all.skip(all.len() - after.len())) by {
            let d = all_before.len() - before.len();
            assert(before.skip(gone) =~= all_before.skip(d + gone));
            assert(all_before.skip(d + gone).push(line) =~= all.skip(d + gone));
        }
    }
}

/// The end of the run of non-zero bytes that starts at `start`.
fn find_terminator(bytes: &[u8], start: usize, Ghost(len): Ghost<nat>) -> (end: usize)
    requires
        start + len < bytes@.len(),
        forall|k: int| start <= k < start + len ==> bytes@[k] != 0u8,
        bytes@[start + len] == 0u8,
    ensures
        end == start + len,
{
    let mut end: usize = start;
    while bytes[end] != 0u8
        invariant
            start <= end <= start + len < bytes@.len(),
            forall|k: int| start <= k < start + len ==> bytes@[k] != 0u8,
            bytes@[start + len] == 0u8,
        decreases start + len - end,
    {
        end += 1;
    }
    end
}

/// Whether `line` holds a zero byte.
fn holds_nul(line: &[u8]) -> (found: bool)
    ensures
        found == !nul_free(line@),
{
    let mut i: usize = 0;
    while i < line.len()
        invariant
            i <= line@.len(),
            forall|k: int| 0 <= k < i ==> line@[k] != 0u8,
        decreases line@.len() - i,
    {
        if line[i] == 0u8 {
            return true;
        }
        i += 1;
    }
    false
}

/// Fixed-capacity storage for the lines submitted so far.
///
/// The view of a history is the list of its entries, oldest first.
pub struct HistoryBuffer {
    storage: Vec<u8>,
    used: usize,
    count: usize,
    entries: Ghost<Seq<Seq<u8>>>,
}

impl View for HistoryBuffer {
    type V = Seq<Seq<u8>>;

    closed spec fn view(&self) -> Seq<Seq<u8>> {
        self.entries@
    }
}

impl HistoryBuffer {
    /// The used part of the region is the stored form of the entries, and no
    /// entry holds a zero byte.
    pub closed spec fn wf(&self) -> bool {
        &&& self.used <= self.storage.len()
        &&& self.storage@.subrange(0, self.used as int) == encode(self.entries@)
        &&& self.count == self.entries@.len()
        &&& forall|i: int| 0 <= i < self.entries@.len() ==> nul_free(#[trigger] self.entries@[i])
    }

    /// The number of bytes that the region holds.
    pub closed spec fn spec_capacity(&self) -> usize {
        self.storage.len()
    }

    /// The stored entries never take more than the region, and each of them
    /// could be pushed again.
    pub proof fn lemma_bounds(&self)
        requires
            self.wf(),
        ensures
            stored_bytes(self@) <= self.capacity(),
            forall|i: int| 0 <= i < self@.len() ==> admits(#[trigger] self@[i], self.capacity() as nat),
    {
        assert forall|i: int| 0 <= i < self@.len() implies admits(
            #[trigger] self@[i],
            self.capacity() as nat,
        ) by {
            lemma_entry_at(self@, i);
        }
    }

    /// Where entry `i` lies in the region.
    proof fn lemma_entry_in_storage(&self, i: int)
        requires
            self.wf(),
            0 <= i < self@.len(),
        ensures
            ({
                let start = stored_bytes(self@.take(i)) as int;
                let end = start + self@[i].len();
                &&& end < self.used
                &&& forall|k: int| start <= k < end ==> self.storage@[k] != 0u8
                &&& self.storage@[end] == 0u8
                &&& self.storage@.subrange(start, end) == self@[i]
                &&& stored_bytes(self@.take(i + 1)) == end + 1
                &&& self.used - (end + 1) == stored_bytes(self@.skip(i + 1))
            }),
    {
        lemma_entry_at(self@, i);
        let start = stored_bytes(self@.take(i)) as int;
        let end = start + self@[i].len();
        let used = self.storage@.subrange(0, self.used as int);
        assert(used.len() == self.used);
        assert forall|k: int| start <= k < end implies self.storage@[k] != 0u8 by {
            assert(self.storage@[k] == used[k]);
            assert(used.subrange(start, end)[k - start] == used[k]);
            assert(nul_free(self@[i]));
        }
        assert(self.storage@[end] == used[end]);
        assert(self.storage@.subrange(start, end) =~= used.subrange(start, end));
        assert(used.skip(end + 1).len() == self.used - (end + 1));
    }

    /// An empty history over a region of `capacity` bytes.
    pub fn new(capacity: usize) -> (history: HistoryBuffer)
        ensures
            history.wf(),
            history@ == Seq::<Seq<u8>>::empty(),
            history.capacity() == capacity,
    {
        let history = HistoryBuffer {
            storage: vec![0u8; capacity],
            used: 0,
            count: 0,
            entries: Ghost(Seq::empty()),
        };
        assert(history.storage@.subrange(0, 0) =~= encode(Seq::empty()));
        history
    }

    /// The number of bytes that the region holds.
    #[verifier::when_used_as_spec(spec_capacity)]
    pub fn capacity(&self) -> (n: usize)
        ensures
            n == self.spec_capacity(),
    {
        self.storage.len()
    }

    /// The number of entries.
    pub fn len(&self) -> (n: usize)
        requires
            self.wf(),
        ensures
            n == self@.len(),
    {
        self.count
    }

    /// Whether there is no entry.
    pub fn is_empty(&self) -> (empty: bool)
        requires
            self.wf(),
        ensures
            empty == (self@.len() == 0),
    {
        self.count == 0
    }

    /// The bytes of the region that the entries take up.
    pub fn used(&self) -> (n: usize)
        requires
            self.wf(),
        ensures
            n == stored_bytes(self@),
    {
        self.used
    }

    /// Forgets every entry.
    pub fn clear(&mut self)
        requires
            old(self).wf(),
        ensures
            final(self).wf(),
            final(self)@ == Seq::<Seq<u8>>::empty(),
            final(self).capacity() == old(self).capacity(),
    {
        self.used = 0;
        self.count = 0;
        self.entries = Ghost(Seq::empty());
        assert(self.storage@.subrange(0, 0) =~= encode(Seq::empty()));
    }

    /// Lets the oldest entries go, one at a time, until `need` more bytes fit.
    fn make_room(&mut self, need: usize)
        requires
            old(self).wf(),
            need <= old(self).capacity(),
        ensures
            final(self).wf(),
            final(self).capacity() == old(self).capacity(),
            final(self)@ == retain_for(old(self)@, need as nat, old(self).capacity() as nat),
            stored_bytes(final(self)@) + need <= final(self).capacity(),
    {
        let capacity: usize = self.storage.len();
        let ghost all = self.entries@;
        let mut skip: usize = 0;
        let mut gone: usize = 0;
        proof {
            assert(all.take(0) =~= Seq::<Seq<u8>>::empty());
            assert(all.skip(0) =~= all);
        }
        while self.used - skip > capacity - need
            invariant
                *self == *old(self),
                self.wf(),
                all == self@,
                capacity == self.storage.len(),
                need <= capacity,
                gone <= all.len(),
                skip == stored_bytes(all.take(gone as int)),
                skip <= self.used,
                self.used - skip == stored_bytes(all.skip(gone as int)),
                retain_for(all, need as nat, capacity as nat) == retain_for(
                    all.skip(gone as int),
                    need as nat,
                    capacity as nat,
                ),
            decreases all.len() - gone,
        {
            proof {
                if gone == all.len() {
                    assert(all.skip(gone as int) =~= Seq::<Seq<u8>>::empty());
                }
                self.lemma_entry_in_storage(gone as int);
                assert(all.skip(gone as int).drop_first() =~= all.skip(gone + 1));
            }
            let end: usize = find_terminator(
                self.storage.as_slice(),
                skip,
                Ghost(all[gone as int].len()),
            );
            skip = end + 1;
            gone += 1;
        }
        proof {
            lemma_entry_skip(all, gone as int);
            assert(self.storage@.subrange(skip as int, self.used as int) =~= self.storage@.subrange(
                0,
                self.used as int,
            ).skip(skip as int));
        }
        let rest: usize = self.used - skip;
        let mut k: usize = 0;
        while k < rest
            invariant
                k <= rest,
                rest + skip == self.used,
                self.used == old(self).used,
                self.count == old(self).count,
                self.entries == old(self).entries,
                self.used <= self.storage.len(),
                self.storage.len() == old(self).storage.len(),
                forall|j: int| 0 <= j < k ==> self.storage@[j] == old(self).storage@[skip + j],
                forall|j: int|
                    k <= j < self.storage@.len() ==> self.storage@[j] == old(self).storage@[j],
            decreases rest - k,
        {
            let moved: u8 = self.storage[skip + k];
            self.storage[k] = moved;
            k += 1;
        }
        self.used = rest;
        self.count = self.count - gone;
        self.entries = Ghost(all.skip(gone as int));
        proof {
            assert(self.storage@.subrange(0, rest as int) =~= old(self).storage@.subrange(
                skip as int,
                old(self).used as int,
            ));
        }
    }

    /// Writes `line` and its terminator behind the entries.
    fn append(&mut self, line: &[u8])
        requires
            old(self).wf(),
            nul_free(line@),
            stored_bytes(old(self)@) + line@.len() + 1 <= old(self).capacity(),
        ensures
            final(self).wf(),
            final(self).capacity() == old(self).capacity(),
            final(self)@ == old(self)@.push(line@),
    {
        let n: usize = line.len();
        let base: usize = self.used;
        let mut i: usize = 0;
        proof {
            lemma_count_within_bytes(old(self)@);
        }
        while i < n
            invariant
                i <= n == line@.len(),
                base == self.used == old(self).used,
                self.count == old(self).count,
                self.entries == old(self).entries,
                base + n + 1 <= self.storage.len(),
                self.storage.len() == old(self).storage.len(),
                forall|j: int| 0 <= j < base ==> self.storage@[j] == old(self).storage@[j],
                forall|j: int| 0 <= j < i ==> self.storage@[base + j] == line@[j],
            decreases n - i,
        {
            self.storage[base + i] = line[i];
            i += 1;
        }
        self.storage[base + n] = 0u8;
        self.used = base + n + 1;
        self.count = self.count + 1;
        self.entries = Ghost(old(self)@.push(line@));
        proof {
            let before = old(self).storage@.subrange(0, base as int);
            lemma_encode_concat(old(self)@, seq![line@]);
            lemma_encode_single(line@);
            assert(old(self)@.push(line@) =~= old(self)@ + seq![line@]);
            assert(self.storage@.subrange(0, self.used as int) =~= before + (line@ + seq![0u8]));
            assert forall|i: int| 0 <= i < self.entries@.len() implies nul_free(
                #[trigger] self.entries@[i],
            ) by {
                if i < old(self)@.len() {
                    assert(self.entries@[i] == old(self).entries@[i]);
                }
            }
        }
    }

    /// Appends `line` as the most recent entry. Where it does not fit behind
    /// the entries that are there, the oldest of them leave first, one at a
    /// time, until it does. A line that holds a zero byte, or that with its
    /// terminator is longer than the whole region, is refused and the history
    /// is left exactly as it was.
    pub fn push(&mut self, line: &[u8]) -> (accepted: bool)
        requires
            old(self).wf(),
        ensures
            final(self).wf(),
            final(self).capacity() == old(self).capacity(),
            accepted == admits(line@, old(self).capacity() as nat),
            final(self)@ == pushed(old(self)@, line@, old(self).capacity() as nat),
            !accepted ==> *final(self) == *old(self),
    {
        if line.len() >= self.storage.len() || holds_nul(line) {
            return false;
        }
        self.make_room(line.len() + 1);
        self.append(line);
        true
    }

    /// The entry `offset` steps back from the most recent one: 0 is the most
    /// recent. There is none for a negative offset, nor for one that reaches
    /// beyond the oldest entry.
    pub fn recall(&self, offset: isize) -> (entry: Option<&[u8]>)
        requires
            self.wf(),
        ensures
            match entry {
                Some(bytes) => recalled(self@, offset as int) == Some(bytes@),
                None => recalled(self@, offset as int) == None::<Seq<u8>>,
            },
    {
        if offset < 0 || offset as usize >= self.count {
            return None;
        }
        let target: usize = self.count - 1 - offset as usize;
        let mut start: usize = 0;
        let mut i: usize = 0;
        assert(self@.take(0) =~= Seq::<Seq<u8>>::empty());
        while i < target
            invariant
                self.wf(),
                i <= target < self@.len(),
                start == stored_bytes(self@.take(i as int)),
            decreases target - i,
        {
            proof {
                self.lemma_entry_in_storage(i as int);
            }
            let end: usize = find_terminator(self.storage.as_slice(), start, Ghost(self@[i as int].len()));
            start = end + 1;
            i += 1;
        }
        proof {
            self.lemma_entry_in_storage(target as int);
        }
        let end: usize = find_terminator(self.storage.as_slice(), start, Ghost(self@[target as int].len()));
        Some(slice_subrange(self.storage.as_slice(), start, end))
    }
}

} // verus!
