//! The blocking byte-stream protocol between the console and a duplex byte
//! channel.
//!
//! The channel itself is not here. What is here is every decision that a
//! blocking `write` or `flush` makes: which byte to hand to the channel next,
//! when to try again, when to stop, and what to report. The caller performs
//! each step on the channel and reports the status that came back.

use vstd::prelude::*;

verus! {

/// A fault that the channel can report of a transfer.
#[derive(Clone, Copy, Debug, PartialEq, Eq, Structural)]
pub enum Fault {
    Framing,
    Noise,
    Overrun,
    Parity,
}

/// What the channel said of one attempt to hand it a byte, or to drain it.
#[derive(Clone, Copy, Debug, PartialEq, Eq)]
pub enum ChannelStatus {
    /// The channel took the byte, or has sent all it held.
    Accepted,
    /// The channel is busy; the same attempt is to be made again.
    NotReady,
    /// The channel failed, and trying again will not help.
    Faulted(Fault),
}

/// The one kind of error that the transport reports. Which fault the channel
/// named is deliberately not carried along.
#[derive(Clone, Copy, Debug, PartialEq, Eq, Structural)]
pub enum ErrorKind {
    Other,
}

/// What a write in progress asks for next.
#[derive(Clone, Copy, Debug, PartialEq, Eq)]
pub enum WriteStep {
    /// Hand this byte to the channel and report the status.
    Send(u8),
    /// The write is over, with the number of bytes sent or with the error.
    Done(Result<usize, ErrorKind>),
}

/// What a flush in progress asks for next.
#[derive(Clone, Copy, Debug, PartialEq, Eq)]
pub enum FlushStep {
    /// Ask the channel again whether it has drained.
    Poll,
    /// The flush is over.
    Done(Result<(), ErrorKind>),
}

/// A write in progress, as plain mathematics: the bytes to send, how many of
/// them the channel has taken, and whether the channel has failed.
pub struct Sending {
    pub data: Seq<u8>,
    pub sent: int,
    pub failed: bool,
}

impl Sending {
    pub open spec fn wf(self) -> bool {
        0 <= self.sent <= self.data.len() <= usize::MAX
    }

    /// A write of `data` of which nothing is sent yet.
    pub open spec fn begin(data: Seq<u8>) -> Sending {
        Sending { data, sent: 0, failed: false }
    }

    /// The bytes that the channel has taken so far.
    pub open spec fn transmitted(self) -> Seq<u8> {
        self.data.take(self.sent)
    }

    /// Neither failed nor finished: a byte is waiting to be sent.
    pub open spec fn busy(self) -> bool {
        !self.failed && self.sent < self.data.len()
    }

    /// What is to be done next.
    pub open spec fn next(self) -> WriteStep {
        if self.failed {
            WriteStep::Done(Err(ErrorKind::Other))
        } else if self.sent < self.data.len() {
            WriteStep::Send(self.data[self.sent])
        } else {
            WriteStep::Done(Ok(self.data.len() as usize))
        }
    }

    /// The write after the channel answered the last `Send` with `status`. A
    /// write that is over takes no more notice.
    pub open spec fn report(self, status: ChannelStatus) -> Sending {
        if !self.busy() {
            self
        } else {
            match status {
                ChannelStatus::Accepted => Sending {
                    data: self.data,
                    sent: self.sent + 1,
                    failed: false,
                },
                ChannelStatus::NotReady => self,
                ChannelStatus::Faulted(_) => Sending {
                    data: self.data,
                    sent: self.sent,
                    failed: true,
                },
            }
        }
    }

    /// The write after the channel gave each status of `statuses` in turn.
    pub open spec fn run(self, statuses: Seq<ChannelStatus>) -> Sending
        decreases statuses.len(),
    {
        if statuses.len() == 0 {
            self
        } else {
            self.run(statuses.drop_last()).report(statuses.last())
        }
    }
}

/// What a flush does with one answer of the channel: it asks again while the
/// channel is busy, ends well once the channel has drained, and ends with the
/// one error kind on any fault.
pub open spec fn flush_outcome(status: ChannelStatus) -> FlushStep {
    match status {
        ChannelStatus::Accepted => FlushStep::Done(Ok(())),
        ChannelStatus::NotReady => FlushStep::Poll,
        ChannelStatus::Faulted(_) => FlushStep::Done(Err(ErrorKind::Other)),
    }
}

/// Nothing is lost in silence. Whatever the channel answered, the bytes it
/// took are the front of the data, in order; a write reports success only when
/// the channel took all of them, and then reports their number; and it reports
/// the error exactly when the channel failed.
pub proof fn law_no_silent_loss(data: Seq<u8>, statuses: Seq<ChannelStatus>)
    requires
        data.len() <= usize::MAX,
    ensures
        ({
            let write = Sending::begin(data).run(statuses);
            &&& write.wf()
            &&& write.data == data
            &&& write.transmitted().is_prefix_of(data)
            &&& write.next() is Send <==> write.busy()
            &&& write.next() == WriteStep::Done(Ok(data.len() as usize)) <==> !write.failed
                && write.transmitted() == data
            &&& write.next() == WriteStep::Done(Err(ErrorKind::Other)) <==> write.failed
        }),
    decreases statuses.len(),
{
    if statuses.len() > 0 {
        law_no_silent_loss(data, statuses.drop_last());
    }
    let write = Sending::begin(data).run(statuses);
    if write.sent == data.len() {
        assert(write.transmitted() =~= data);
    }
}

/// A busy channel only delays a write: it asks for the same byte again.
pub proof fn law_not_ready_retries(write: Sending)
    requires
        write.wf(),
    ensures
        write.report(ChannelStatus::NotReady) == write,
{
}

/// A fault ends a write that was still sending, whatever fault it was.
pub proof fn law_fault_aborts(write: Sending, fault: Fault)
    requires
        write.wf(),
        write.busy(),
    ensures
        write.report(ChannelStatus::Faulted(fault)).next() == WriteStep::Done(
            Err(ErrorKind::Other),
        ),
        write.report(ChannelStatus::Faulted(fault)).transmitted() == write.transmitted(),
{
}

/// A channel that takes every byte at once lets the write succeed after as
/// many steps as there are bytes.
pub proof fn law_ready_channel_sends_all(data: Seq<u8>)
    requires
        data.len() <= usize::MAX,
    ensures
        Sending::begin(data).run(Seq::new(data.len(), |i: int| ChannelStatus::Accepted)).next()
            == WriteStep::Done(Ok(data.len() as usize)),
{
    lemma_accepted_prefix(data, data.len() as int);
}

proof fn lemma_accepted_prefix(data: Seq<u8>, n: int)
    requires
        0 <= n <= data.len(),
    ensures
        Sending::begin(data).run(Seq::new(n as nat, |i: int| ChannelStatus::Accepted)) == (Sending {
            data,
            sent: n,
            failed: false,
        }),
    decreases n,
{
    if n > 0 {
        lemma_accepted_prefix(data, n - 1);
        let all = Seq::new(n as nat, |i: int| ChannelStatus::Accepted);
        assert(all.drop_last() =~= Seq::new((n - 1) as nat, |i: int| ChannelStatus::Accepted));
    }
}

/// A blocking write of one buffer, step by step.
///
/// [`Transmission::next`] says what to do; after a `Send`, the caller hands
/// the byte to the channel and passes the channel's answer to
/// [`Transmission::report`]. The write is over when `next` says `Done`.
pub struct Transmission<'a> {
    data: &'a [u8],
    sent: usize,
    failed: bool,
}

impl<'a> Transmission<'a> {
    /// The write as a [`Sending`].
    pub closed spec fn model(&self) -> Sending {
        Sending { data: self.data@, sent: self.sent as int, failed: self.failed }
    }

    pub open spec fn wf(&self) -> bool {
        self.model().wf()
    }

    /// Starts a write of `data`.
    pub fn begin(data: &'a [u8]) -> (write: Transmission<'a>)
        ensures
            write.wf(),
            write.model() == Sending::begin(data@),
    {
        assert(data@.len() == data.len());
        Transmission { data, sent: 0, failed: false }
    }

    /// What is to be done next: the byte to send, or how the write ended.
    pub fn next(&self) -> (step: WriteStep)
        requires
            self.wf(),
        ensures
            step == self.model().next(),
    {
        if self.failed {
            WriteStep::Done(Err(ErrorKind::Other))
        } else if self.sent < self.data.len() {
            WriteStep::Send(self.data[self.sent])
        } else {
            WriteStep::Done(Ok(self.data.len()))
        }
    }

    /// Takes the channel's answer to the last `Send`.
    pub fn report(&mut self, status: ChannelStatus)
        requires
            old(self).wf(),
        ensures
            final(self).wf(),
            final(self).model() == old(self).model().report(status),
    {
        if !self.failed && self.sent < self.data.len() {
            match status {
                ChannelStatus::Accepted => {
                    self.sent = self.sent + 1;
                },
                ChannelStatus::NotReady => {},
                ChannelStatus::Faulted(_) => {
                    self.failed = true;
                },
            }
        }
    }

    /// The number of bytes that the channel has taken so far.
    pub fn sent(&self) -> (n: usize)
        ensures
            n == self.model().sent,
    {
        self.sent
    }
}

/// What a blocking flush does with the channel's answer.
pub fn flush_step(status: ChannelStatus) -> (step: FlushStep)
    ensures
        step == flush_outcome(status),
{
    match status {
        ChannelStatus::Accepted => FlushStep::Done(Ok(())),
        ChannelStatus::NotReady => FlushStep::Poll,
        ChannelStatus::Faulted(_) => FlushStep::Done(Err(ErrorKind::Other)),
    }
}

} // verus!
