//! The read side of a message: bytes are gathered, however few the stream
//! returns at a time, until a read ends on the terminator; the message is
//! then acknowledged with one byte, and handed over once that byte is out.

use crate::outbox::{lemma_advance, Outbox, OutboxState};
use crate::transport::{concat, reads, Action, Event, Failure, Signal};
use crate::wire::{decode, decode_words, is_terminated, terminated, ACK};
use vstd::prelude::*;

verus! {

/// How many words a receive buffer holds at first, unless told otherwise.
pub const DEFAULT_SIZE: usize = 100_000_000;

/// How far the framing of a message has got.
#[derive(Clone, Copy, Debug, PartialEq, Eq, Structural)]
pub enum FramerPhase {
    /// Bytes are being gathered; no read has ended on the terminator yet.
    Filling,
    /// The message is in; the acknowledgment is going out.
    Acknowledging,
    /// The acknowledgment is out and has to be forced to the peer.
    Flushing,
    /// The peer has the acknowledgment; the message can be handed over.
    Complete,
    /// The framing has failed.
    Failed(Failure),
}

/// A [`Framer`] as contracts speak of it.
pub struct FramerState {
    /// Every byte taken off the stream so far, in order.
    pub received: Seq<u8>,
    /// The size of the receive buffer, in bytes.
    pub capacity: nat,
    /// The acknowledgment and how much of it has gone out.
    pub reply: OutboxState,
    /// How far the framing has got.
    pub phase: FramerPhase,
}

/// The size of a buffer that started at `capacity` bytes and was doubled
/// until it held `needed`.
pub open spec fn capacity_for(capacity: nat, needed: nat) -> nat
    decreases (if needed <= capacity {
        0
    } else {
        needed - capacity
    }),
{
    if capacity == 0 || needed <= capacity {
        capacity
    } else {
        capacity_for(2 * capacity, needed)
    }
}

impl FramerState {
    /// The state in which nothing has been received into a buffer of
    /// `capacity` bytes.
    pub open spec fn start(capacity: nat) -> FramerState {
        FramerState {
            received: Seq::empty(),
            capacity,
            reply: OutboxState::holding(seq![ACK]),
            phase: FramerPhase::Filling,
        }
    }

    /// The buffer is a whole number of words and holds what was received.
    /// While filling it has room left and nothing has been acknowledged.
    /// Once the phase is past filling, the bytes received end with the
    /// terminator; the byte of the acknowledgment is out from the flush on.
    pub open spec fn wf(self) -> bool {
        &&& self.capacity > 0
        &&& self.capacity % 8 == 0
        &&& self.received.len() <= self.capacity
        &&& self.reply.wf()
        &&& self.reply.bytes == seq![ACK]
        &&& match self.phase {
            FramerPhase::Filling => self.received.len() < self.capacity && self.reply.sent == 0,
            FramerPhase::Acknowledging => terminated(self.received) && self.reply.sent == 0,
            FramerPhase::Flushing | FramerPhase::Complete => terminated(self.received)
                && self.reply.drained(),
            FramerPhase::Failed(failure) => failure != Failure::Unacknowledged,
        }
    }

    /// What the framer needs next.
    pub open spec fn action(self) -> Action {
        match self.phase {
            FramerPhase::Filling => Action::Read,
            FramerPhase::Acknowledging => Action::Write,
            FramerPhase::Flushing => Action::Flush,
            FramerPhase::Complete => Action::Done,
            FramerPhase::Failed(failure) => Action::Fail(failure),
        }
    }

    /// How many bytes the read that is asked for may return: what is left
    /// of the buffer.
    pub open spec fn room(self) -> nat {
        (self.capacity - self.received.len()) as nat
    }

    /// The words in front of the terminator. Bytes between the last whole
    /// word and the terminator belong to no word and are dropped.
    pub open spec fn payload(self) -> Seq<u64>
        recommends
            terminated(self.received),
    {
        decode(self.received.take(self.received.len() - 8))
    }

    /// The message, once it is complete and acknowledged.
    pub open spec fn message(self) -> Option<Seq<u64>> {
        if self.phase == FramerPhase::Complete {
            Some(self.payload())
        } else {
            None
        }
    }

    /// A read cannot return more than it was asked for, nor a write accept
    /// more than it was handed.
    pub open spec fn admits(self, signal: Signal) -> bool {
        match (self.phase, signal) {
            (FramerPhase::Filling, Signal::Read(bytes)) => bytes.len() <= self.room(),
            (FramerPhase::Acknowledging, Signal::Wrote(count)) => count
                <= self.reply.pending().len(),
            _ => true,
        }
    }

    /// The state after `signal`.
    ///
    /// While filling, a read that returns nothing is the end of the stream,
    /// and the message is incomplete. A read that returns bytes adds them
    /// to those received. If the last eight bytes received are then the
    /// terminator, the message is in and no more is read. If not, and the
    /// buffer is full, its size doubles. The byte of the acknowledgment is
    /// then written, the stream flushed, and the framing is complete. A
    /// failed transfer ends the framing and nothing is tried again. An
    /// outcome that answers no request is ignored.
    pub open spec fn step(self, signal: Signal) -> FramerState {
        match (self.phase, signal) {
            (FramerPhase::Filling, Signal::Read(bytes)) => {
                let received = self.received + bytes;
                if bytes.len() == 0 {
                    FramerState { phase: FramerPhase::Failed(Failure::Incomplete), ..self }
                } else if terminated(received) {
                    FramerState { received, phase: FramerPhase::Acknowledging, ..self }
                } else if received.len() == self.capacity {
                    FramerState { received, capacity: 2 * self.capacity, ..self }
                } else {
                    FramerState { received, ..self }
                }
            },
            (FramerPhase::Acknowledging, Signal::Wrote(count)) => {
                let reply = self.reply.advance(count);
                FramerState {
                    reply,
                    phase: if reply.drained() {
                        FramerPhase::Flushing
                    } else {
                        FramerPhase::Acknowledging
                    },
                    ..self
                }
            },
            (FramerPhase::Flushing, Signal::Flushed) => FramerState {
                phase: FramerPhase::Complete,
                ..self
            },
            (FramerPhase::Complete, _) | (FramerPhase::Failed(_), _) => self,
            (_, Signal::Failed) => FramerState {
                phase: FramerPhase::Failed(Failure::Transport),
                ..self
            },
            _ => self,
        }
    }

    /// The state after each of `signals` in turn.
    pub open spec fn run(self, signals: Seq<Signal>) -> FramerState
        decreases signals.len(),
    {
        if signals.len() == 0 {
            self
        } else {
            self.run(signals.drop_last()).step(signals.last())
        }
    }

    /// Whether each of `signals` is admitted by the state it arrives in.
    pub open spec fn admits_all(self, signals: Seq<Signal>) -> bool
        decreases signals.len(),
    {
        signals.len() == 0 || (self.admits_all(signals.drop_last()) && self.run(
            signals.drop_last(),
        ).admits(signals.last()))
    }
}

/// A step keeps a framer well formed.
pub proof fn lemma_framer_step(state: FramerState, signal: Signal)
    requires
        state.wf(),
        state.admits(signal),
    ensures
        state.step(signal).wf(),
{
    if let (FramerPhase::Acknowledging, Signal::Wrote(count)) = (state.phase, signal) {
        lemma_advance(state.reply, count);
    }
}

/// Every state that a framer reaches is well formed.
pub proof fn lemma_framer_run(capacity: nat, signals: Seq<Signal>)
    requires
        capacity > 0,
        capacity % 8 == 0,
        FramerState::start(capacity).admits_all(signals),
    ensures
        FramerState::start(capacity).run(signals).wf(),
    decreases signals.len(),
{
    if signals.len() > 0 {
        lemma_framer_run(capacity, signals.drop_last());
        lemma_framer_step(FramerState::start(capacity).run(signals.drop_last()), signals.last());
    }
}

/// Whether every one of `chunks` holds at least one byte.
pub open spec fn all_nonempty(chunks: Seq<Seq<u8>>) -> bool {
    forall|k: int| 0 <= k < chunks.len() ==> (#[trigger] chunks[k]).len() > 0
}

/// Whether none of the reads that hand over `chunks` ends on the
/// terminator.
pub open spec fn quiet(chunks: Seq<Seq<u8>>) -> bool {
    forall|k: int| 0 < k <= chunks.len() ==> !terminated(concat(#[trigger] chunks.take(k)))
}

/// A buffer that was doubled until it held `from` bytes holds every number
/// of bytes between `from` and its size, and is doubled once more for one
/// byte beyond its size.
pub proof fn lemma_capacity_for(capacity: nat, from: nat, to: nat)
    requires
        capacity > 0,
        from <= to,
    ensures
        capacity_for(capacity, from) >= from,
        capacity_for(capacity, from) >= capacity,
        to <= capacity_for(capacity, from) ==> capacity_for(capacity, to) == capacity_for(
            capacity,
            from,
        ),
        to == capacity_for(capacity, from) + 1 ==> capacity_for(capacity, to) == 2 * capacity_for(
            capacity,
            from,
        ),
    decreases (if from <= capacity {
        0
    } else {
        from - capacity
    }),
{
    if from <= capacity {
        if to == capacity + 1 {
            assert(capacity_for(2 * capacity, to) == 2 * capacity);
        }
    } else {
        lemma_capacity_for(2 * capacity, from, to);
    }
}

/// A buffer that had to hold more than its first size was doubled at least
/// once.
pub proof fn lemma_capacity_doubles(capacity: nat, needed: nat)
    requires
        capacity > 0,
        needed > capacity,
    ensures
        capacity_for(capacity, needed) >= 2 * capacity,
{
    lemma_capacity_for(2 * capacity, needed, needed);
}

/// While no read ends on the terminator the framer keeps reading; it holds
/// every byte that the reads returned, in order, in a buffer that was
/// doubled each time it was full.
pub proof fn lemma_filling(capacity: nat, chunks: Seq<Seq<u8>>)
    requires
        capacity > 0,
        capacity % 8 == 0,
        all_nonempty(chunks),
        quiet(chunks),
        FramerState::start(capacity).admits_all(reads(chunks)),
    ensures
        ({
            let end = FramerState::start(capacity).run(reads(chunks));
            &&& end.wf()
            &&& end.phase == FramerPhase::Filling
            &&& end.received == concat(chunks)
            &&& end.capacity == capacity_for(capacity, concat(chunks).len() + 1)
        }),
    decreases chunks.len(),
{
    let start = FramerState::start(capacity);
    if chunks.len() == 0 {
        assert(capacity >= 8);
    } else {
        let front = chunks.drop_last();
        assert(reads(chunks).drop_last() =~= reads(front));
        assert forall|k: int| 0 < k <= front.len() implies !terminated(
            concat(#[trigger] front.take(k)),
        ) by {
            assert(front.take(k) =~= chunks.take(k));
        }
        lemma_filling(capacity, front);
        let before = start.run(reads(front));
        assert(chunks.take(chunks.len() as int) =~= chunks);
        let received = before.received + chunks.last();
        assert(received == concat(chunks));
        lemma_framer_step(before, reads(chunks).last());
        lemma_capacity_for(capacity, before.received.len() + 1, received.len() + 1);
    }
}

/// The first read that ends on the terminator ends the message: the
/// framer then holds every byte that the reads returned, in a buffer that
/// was doubled until it held them, and turns to acknowledging.
pub proof fn lemma_framing(capacity: nat, chunks: Seq<Seq<u8>>)
    requires
        capacity > 0,
        capacity % 8 == 0,
        chunks.len() > 0,
        all_nonempty(chunks),
        quiet(chunks.drop_last()),
        terminated(concat(chunks)),
        FramerState::start(capacity).admits_all(reads(chunks)),
    ensures
        ({
            let end = FramerState::start(capacity).run(reads(chunks));
            &&& end.wf()
            &&& end.phase == FramerPhase::Acknowledging
            &&& end.received == concat(chunks)
            &&& end.capacity == capacity_for(capacity, concat(chunks).len())
        }),
{
    let front = chunks.drop_last();
    assert(reads(chunks).drop_last() =~= reads(front));
    lemma_filling(capacity, front);
    let before = FramerState::start(capacity).run(reads(front));
    lemma_framer_step(before, reads(chunks).last());
    lemma_capacity_for(capacity, before.received.len() + 1, concat(chunks).len());
}

/// A stream that ends before any read has ended on the terminator leaves
/// the message incomplete: the framer fails at once, asks for nothing
/// more, and hands over no message.
pub proof fn lemma_premature_close(capacity: nat, chunks: Seq<Seq<u8>>)
    requires
        capacity > 0,
        capacity % 8 == 0,
        all_nonempty(chunks),
        quiet(chunks),
        FramerState::start(capacity).admits_all(reads(chunks)),
    ensures
        ({
            let end = FramerState::start(capacity).run(reads(chunks).push(Signal::Read(seq![])));
            &&& end.phase == FramerPhase::Failed(Failure::Incomplete)
            &&& end.action() == Action::Fail(Failure::Incomplete)
            &&& end.message() == None::<Seq<u64>>
        }),
{
    lemma_filling(capacity, chunks);
    let signals = reads(chunks).push(Signal::Read(seq![]));
    assert(signals.drop_last() =~= reads(chunks));
}

/// A framer is complete only after its acknowledgment has reached the
/// peer.
///
/// In the events that lead to a complete framing there is a read that ended
/// on the terminator, after it a write that put the one byte of the
/// acknowledgment on the stream, and after that a flush. Nothing else was
/// ever written: once complete, what the framer has put on the stream is
/// that one byte.
pub proof fn lemma_framer_order(capacity: nat, signals: Seq<Signal>) -> (at: (int, int))
    requires
        capacity > 0,
        capacity % 8 == 0,
        FramerState::start(capacity).admits_all(signals),
        FramerState::start(capacity).run(signals).phase == FramerPhase::Complete,
    ensures
        0 <= at.0 < at.1 < signals.len(),
        FramerState::start(capacity).run(signals.take(at.0)).phase == FramerPhase::Acknowledging,
        terminated(FramerState::start(capacity).run(signals.take(at.0)).received),
        signals[at.0] == Signal::Wrote(1),
        FramerState::start(capacity).run(signals.take(at.1)).phase == FramerPhase::Flushing,
        signals[at.1] == Signal::Flushed,
        FramerState::start(capacity).run(signals).reply.transmitted() == seq![ACK],
        FramerState::start(capacity).run(signals).received == FramerState::start(capacity).run(
            signals.take(at.0),
        ).received,
    decreases signals.len(),
{
    let start = FramerState::start(capacity);
    let before = start.run(signals.drop_last());
    assert(signals.take(signals.len() - 1) == signals.drop_last());
    lemma_framer_run(capacity, signals);
    assert(start.run(signals).reply.transmitted() =~= seq![ACK]);
    if before.phase == FramerPhase::Complete {
        let at = lemma_framer_order(capacity, signals.drop_last());
        assert(signals.drop_last().take(at.0) == signals.take(at.0));
        assert(signals.drop_last().take(at.1) == signals.take(at.1));
        at
    } else {
        let written = lemma_written_before_flushing(capacity, signals.drop_last());
        assert(signals.drop_last().take(written) == signals.take(written));
        (written, signals.len() - 1)
    }
}

/// A framer flushes only after a write that put the byte of the
/// acknowledgment on the stream, and nothing is received after that write.
proof fn lemma_written_before_flushing(capacity: nat, signals: Seq<Signal>) -> (at: int)
    requires
        capacity > 0,
        capacity % 8 == 0,
        FramerState::start(capacity).admits_all(signals),
        FramerState::start(capacity).run(signals).phase == FramerPhase::Flushing,
    ensures
        0 <= at < signals.len(),
        FramerState::start(capacity).run(signals.take(at)).phase == FramerPhase::Acknowledging,
        terminated(FramerState::start(capacity).run(signals.take(at)).received),
        signals[at] == Signal::Wrote(1),
        FramerState::start(capacity).run(signals).received == FramerState::start(capacity).run(
            signals.take(at),
        ).received,
    decreases signals.len(),
{
    let start = FramerState::start(capacity);
    let before = start.run(signals.drop_last());
    assert(signals.take(signals.len() - 1) == signals.drop_last());
    if before.phase == FramerPhase::Flushing {
        let at = lemma_written_before_flushing(capacity, signals.drop_last());
        assert(signals.drop_last().take(at) == signals.take(at));
        at
    } else {
        lemma_framer_run(capacity, signals.drop_last());
        signals.len() - 1
    }
}

/// The receiver's side of one message.
pub struct Framer {
    received: Vec<u8>,
    capacity: usize,
    reply: Outbox,
    phase: FramerPhase,
}

impl View for Framer {
    type V = FramerState;

    closed spec fn view(&self) -> FramerState {
        FramerState {
            received: self.received@,
            capacity: self.capacity as nat,
            reply: self.reply@,
            phase: self.phase,
        }
    }
}

impl Framer {
    /// What every framer satisfies, from its making on; the size of its
    /// buffer is one that the machine can count.
    pub open spec fn wf(&self) -> bool {
        &&& self@.wf()
        &&& self@.capacity <= usize::MAX
    }

    /// A framer that has received nothing, with a buffer of `words` words.
    pub fn new(words: usize) -> (framer: Framer)
        requires
            0 < words,
            8 * words <= usize::MAX,
        ensures
            framer.wf(),
            framer@ == FramerState::start(8 * words as nat),
    {
        let capacity = 8 * words;
        let mut reply: Vec<u8> = Vec::new();
        reply.push(ACK);
        assert(reply@ =~= seq![ACK]);
        Framer {
            received: Vec::with_capacity(capacity),
            capacity,
            reply: Outbox::new(reply),
            phase: FramerPhase::Filling,
        }
    }

    /// What the framer needs from the stream next.
    pub fn action(&self) -> (action: Action)
        requires
            self.wf(),
        ensures
            action == self@.action(),
    {
        match self.phase {
            FramerPhase::Filling => Action::Read,
            FramerPhase::Acknowledging => Action::Write,
            FramerPhase::Flushing => Action::Flush,
            FramerPhase::Complete => Action::Done,
            FramerPhase::Failed(failure) => Action::Fail(failure),
        }
    }

    /// How many bytes the next physical read may return at most.
    pub fn room(&self) -> (room: usize)
        requires
            self.wf(),
        ensures
            room == self@.room(),
    {
        self.capacity - self.received.len()
    }

    /// The size of the receive buffer, in bytes.
    pub fn capacity(&self) -> (capacity: usize)
        requires
            self.wf(),
        ensures
            capacity == self@.capacity,
    {
        self.capacity
    }

    /// The bytes to hand to the next physical write.
    pub fn pending(&self) -> (bytes: &[u8])
        requires
            self.wf(),
        ensures
            bytes@ == self@.reply.pending(),
    {
        self.reply.pending()
    }

    /// The message, once it is complete and acknowledged: the words in
    /// front of the terminator, and nothing of the buffer beyond them.
    pub fn message(&self) -> (message: Option<Vec<u64>>)
        requires
            self.wf(),
        ensures
            match message {
                Some(words) => self@.message() == Some(words@),
                None => self@.message() == None::<Seq<u64>>,
            },
    {
        match self.phase {
            FramerPhase::Complete => {
                let end = self.received.len() - 8;
                let front = vstd::slice::slice_subrange(self.received.as_slice(), 0, end);
                assert(front@ == self@.received.take(end as int));
                Some(decode_words(front))
            },
            _ => None,
        }
    }
}

/// Takes the framing of a message one step further: records the outcome of
/// the transfer that the framer last asked for, and says what it needs
/// next.
///
/// The size of the buffer must be one that can still be doubled while the
/// framer reads.
pub fn hiread(framer: &mut Framer, event: Event) -> (action: Action)
    requires
        old(framer).wf(),
        old(framer)@.admits(event@),
        old(framer)@.action() == Action::Read ==> 2 * old(framer)@.capacity <= usize::MAX,
    ensures
        final(framer).wf(),
        final(framer)@ == old(framer)@.step(event@),
        action == final(framer)@.action(),
{
    proof {
        lemma_framer_step(framer@, event@);
    }
    match (framer.phase, event) {
        (FramerPhase::Filling, Event::Read(bytes)) => {
            if bytes.len() == 0 {
                framer.phase = FramerPhase::Failed(Failure::Incomplete);
            } else {
                framer.received.extend_from_slice(bytes);
                assert(framer.received@ =~= old(framer).received@ + bytes@);
                if is_terminated(framer.received.as_slice()) {
                    framer.phase = FramerPhase::Acknowledging;
                } else if framer.received.len() == framer.capacity {
                    framer.received.reserve(framer.capacity);
                    framer.capacity = 2 * framer.capacity;
                }
            }
        },
        (FramerPhase::Acknowledging, Event::Wrote(count)) => {
            framer.reply.advance(count);
            if framer.reply.is_drained() {
                framer.phase = FramerPhase::Flushing;
            }
        },
        (FramerPhase::Flushing, Event::Flushed) => {
            framer.phase = FramerPhase::Complete;
        },
        (FramerPhase::Complete, _) | (FramerPhase::Failed(_), _) => {},
        (_, Event::Failed) => {
            framer.phase = FramerPhase::Failed(Failure::Transport);
        },
        _ => {},
    }
    framer.action()
}

} // verus!
