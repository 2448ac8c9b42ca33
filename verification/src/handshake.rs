//! The end of a message as its sender sees it: the terminator goes out in
//! full, is forced to the peer, and one byte of acknowledgment comes back.

use crate::outbox::{lemma_advance, Outbox, OutboxState};
use crate::transport::{Action, Event, Failure, Signal};
use crate::wire::{push_word, sentinel_bytes, SENTINEL};
use vstd::prelude::*;

verus! {

/// How far a handshake has got.
#[derive(Clone, Copy, Debug, PartialEq, Eq, Structural)]
pub enum HandshakePhase {
    /// The terminator is going out.
    Delimiting,
    /// The terminator is out and has to be forced to the peer.
    Flushing,
    /// The peer has the terminator; its acknowledgment is awaited.
    Awaiting,
    /// The peer has acknowledged the message.
    Done,
    /// The handshake has failed.
    Failed(Failure),
}

/// A [`Handshake`] as contracts speak of it.
pub struct HandshakeState {
    /// The terminator and how much of it has gone out.
    pub out: OutboxState,
    /// How far the handshake has got.
    pub phase: HandshakePhase,
}

impl HandshakeState {
    /// The state in which nothing of the terminator has gone out yet.
    pub open spec fn start() -> HandshakeState {
        HandshakeState {
            out: OutboxState::holding(sentinel_bytes()),
            phase: HandshakePhase::Delimiting,
        }
    }

    /// What goes out is the terminator, and the phase says how much of it is
    /// out: not all of it while delimiting, all of it from then on.
    pub open spec fn wf(self) -> bool {
        &&& self.out.wf()
        &&& self.out.bytes == sentinel_bytes()
        &&& match self.phase {
            HandshakePhase::Delimiting => !self.out.drained(),
            HandshakePhase::Flushing | HandshakePhase::Awaiting | HandshakePhase::Done => {
                self.out.drained()
            },
            HandshakePhase::Failed(failure) => failure != Failure::Incomplete,
        }
    }

    /// What the handshake needs next.
    pub open spec fn action(self) -> Action {
        match self.phase {
            HandshakePhase::Delimiting => Action::Write,
            HandshakePhase::Flushing => Action::Flush,
            HandshakePhase::Awaiting => Action::Read,
            HandshakePhase::Done => Action::Done,
            HandshakePhase::Failed(failure) => Action::Fail(failure),
        }
    }

    /// How many bytes the read that is asked for may return: the one byte
    /// of the acknowledgment, so that nothing after it is taken off the
    /// stream.
    pub open spec fn room(self) -> nat {
        1
    }

    /// A write cannot accept more than it was handed, nor a read return
    /// more than it was asked for.
    pub open spec fn admits(self, signal: Signal) -> bool {
        match (self.phase, signal) {
            (HandshakePhase::Delimiting, Signal::Wrote(count)) => count <= self.out.pending().len(),
            (HandshakePhase::Awaiting, Signal::Read(bytes)) => bytes.len() <= self.room(),
            _ => true,
        }
    }

    /// The state after `signal`.
    ///
    /// While delimiting, a write moves the cursor, and the terminator is out
    /// when the cursor reaches its end. A flush then leads to the wait for
    /// the acknowledgment. There a read that returns a byte completes the
    /// handshake, whatever the byte is, and a read that returns none is the
    /// end of the stream: the peer never acknowledged. A failed transfer
    /// ends the handshake and nothing is tried again. An outcome that
    /// answers no request is ignored.
    pub open spec fn step(self, signal: Signal) -> HandshakeState {
        match (self.phase, signal) {
            (HandshakePhase::Delimiting, Signal::Wrote(count)) => {
                let out = self.out.advance(count);
                HandshakeState {
                    out,
                    phase: if out.drained() {
                        HandshakePhase::Flushing
                    } else {
                        HandshakePhase::Delimiting
                    },
                }
            },
            (HandshakePhase::Flushing, Signal::Flushed) => HandshakeState {
                phase: HandshakePhase::Awaiting,
                ..self
            },
            (HandshakePhase::Awaiting, Signal::Read(bytes)) => HandshakeState {
                phase: if bytes.len() == 0 {
                    HandshakePhase::Failed(Failure::Unacknowledged)
                } else {
                    HandshakePhase::Done
                },
                ..self
            },
            (HandshakePhase::Done, _) | (HandshakePhase::Failed(_), _) => self,
            (_, Signal::Failed) => HandshakeState {
                phase: HandshakePhase::Failed(Failure::Transport),
                ..self
            },
            _ => self,
        }
    }

    /// The state after each of `signals` in turn.
    pub open spec fn run(self, signals: Seq<Signal>) -> HandshakeState
        decreases signals.len(),
    {
        if signals.len() == 0 {
            self
        } else {
            self.run(signals.drop_last()).step(signals.last())
        }
    }

    /// Whether each of `signals` is admitted by the state it arrives in.
    pub open spec fn admits_all(self, signals: Seq<Signal>) -> bool
        decreases signals.len(),
    {
        signals.len() == 0 || (self.admits_all(signals.drop_last()) && self.run(
            signals.drop_last(),
        ).admits(signals.last()))
    }
}

/// A step keeps a handshake well formed.
pub proof fn lemma_handshake_step(state: HandshakeState, signal: Signal)
    requires
        state.wf(),
        state.admits(signal),
    ensures
        state.step(signal).wf(),
{
    if let (HandshakePhase::Delimiting, Signal::Wrote(count)) = (state.phase, signal) {
        lemma_advance(state.out, count);
    }
}

/// Every state that a handshake reaches is well formed.
pub proof fn lemma_handshake_run(signals: Seq<Signal>)
    requires
        HandshakeState::start().admits_all(signals),
    ensures
        HandshakeState::start().run(signals).wf(),
    decreases signals.len(),
{
    if signals.len() > 0 {
        lemma_handshake_run(signals.drop_last());
        lemma_handshake_step(HandshakeState::start().run(signals.drop_last()), signals.last());
    }
}

/// A handshake is done only after the acknowledgment has arrived, and it
/// waits for the acknowledgment only after the whole terminator has gone
/// out and has been flushed.
///
/// In the events that lead to a completed handshake there is a flush that
/// found all eight bytes of the terminator accepted by the stream, and
/// after it a read that returned the byte of the acknowledgment to a
/// handshake that was waiting for it.
pub proof fn lemma_handshake_order(signals: Seq<Signal>) -> (at: (int, int))
    requires
        HandshakeState::start().admits_all(signals),
        HandshakeState::start().run(signals).phase == HandshakePhase::Done,
    ensures
        0 <= at.0 < at.1 < signals.len(),
        HandshakeState::start().run(signals.take(at.0)).phase == HandshakePhase::Flushing,
        HandshakeState::start().run(signals.take(at.0)).out.transmitted() == sentinel_bytes(),
        signals[at.0] == Signal::Flushed,
        HandshakeState::start().run(signals.take(at.1)).phase == HandshakePhase::Awaiting,
        signals[at.1] matches Signal::Read(bytes) && bytes.len() == 1,
    decreases signals.len(),
{
    let start = HandshakeState::start();
    let before = start.run(signals.drop_last());
    assert(signals.take(signals.len() - 1) == signals.drop_last());
    if before.phase == HandshakePhase::Done {
        let at = lemma_handshake_order(signals.drop_last());
        assert(signals.drop_last().take(at.0) == signals.take(at.0));
        assert(signals.drop_last().take(at.1) == signals.take(at.1));
        at
    } else {
        let flushed = lemma_flushed_before_waiting(signals.drop_last());
        assert(signals.drop_last().take(flushed) == signals.take(flushed));
        (flushed, signals.len() - 1)
    }
}

/// A handshake waits for the acknowledgment only after a flush that found
/// the whole terminator accepted by the stream.
proof fn lemma_flushed_before_waiting(signals: Seq<Signal>) -> (at: int)
    requires
        HandshakeState::start().admits_all(signals),
        HandshakeState::start().run(signals).phase == HandshakePhase::Awaiting,
    ensures
        0 <= at < signals.len(),
        HandshakeState::start().run(signals.take(at)).phase == HandshakePhase::Flushing,
        HandshakeState::start().run(signals.take(at)).out.transmitted() == sentinel_bytes(),
        signals[at] == Signal::Flushed,
    decreases signals.len(),
{
    let start = HandshakeState::start();
    let before = start.run(signals.drop_last());
    assert(signals.take(signals.len() - 1) == signals.drop_last());
    if before.phase == HandshakePhase::Awaiting {
        let at = lemma_flushed_before_waiting(signals.drop_last());
        assert(signals.drop_last().take(at) == signals.take(at));
        at
    } else {
        lemma_handshake_run(signals.drop_last());
        assert(before.out.transmitted() == sentinel_bytes());
        signals.len() - 1
    }
}

/// The sender's side of the end of a message.
pub struct Handshake {
    out: Outbox,
    phase: HandshakePhase,
}

impl View for Handshake {
    type V = HandshakeState;

    closed spec fn view(&self) -> HandshakeState {
        HandshakeState { out: self.out@, phase: self.phase }
    }
}

impl Handshake {
    /// What every handshake satisfies, from its making on.
    pub open spec fn wf(&self) -> bool {
        self@.wf()
    }

    /// A handshake of which nothing has gone out yet.
    pub fn new() -> (handshake: Handshake)
        ensures
            handshake.wf(),
            handshake@ == HandshakeState::start(),
    {
        let mut bytes: Vec<u8> = Vec::new();
        push_word(&mut bytes, SENTINEL);
        assert(bytes@ == sentinel_bytes());
        Handshake { out: Outbox::new(bytes), phase: HandshakePhase::Delimiting }
    }

    /// What the handshake needs from the stream next.
    pub fn action(&self) -> (action: Action)
        requires
            self.wf(),
        ensures
            action == self@.action(),
    {
        match self.phase {
            HandshakePhase::Delimiting => Action::Write,
            HandshakePhase::Flushing => Action::Flush,
            HandshakePhase::Awaiting => Action::Read,
            HandshakePhase::Done => Action::Done,
            HandshakePhase::Failed(failure) => Action::Fail(failure),
        }
    }

    /// The bytes to hand to the next physical write.
    pub fn pending(&self) -> (bytes: &[u8])
        requires
            self.wf(),
        ensures
            bytes@ == self@.out.pending(),
    {
        self.out.pending()
    }

    /// How many bytes the next physical read may return at most.
    pub fn room(&self) -> (room: usize)
        requires
            self.wf(),
        ensures
            room == self@.room(),
    {
        1
    }
}

/// Takes a handshake one step further: records the outcome of the transfer
/// that the handshake last asked for, and says what it needs next.
pub fn hidelimiter(handshake: &mut Handshake, event: Event) -> (action: Action)
    requires
        old(handshake).wf(),
        old(handshake)@.admits(event@),
    ensures
        final(handshake).wf(),
        final(handshake)@ == old(handshake)@.step(event@),
        action == final(handshake)@.action(),
{
    proof {
        lemma_handshake_step(handshake@, event@);
    }
    match (handshake.phase, event) {
        (HandshakePhase::Delimiting, Event::Wrote(count)) => {
            handshake.out.advance(count);
            if handshake.out.is_drained() {
                handshake.phase = HandshakePhase::Flushing;
            }
        },
        (HandshakePhase::Flushing, Event::Flushed) => {
            handshake.phase = HandshakePhase::Awaiting;
        },
        (HandshakePhase::Awaiting, Event::Read(bytes)) => {
            if bytes.len() == 0 {
                handshake.phase = HandshakePhase::Failed(Failure::Unacknowledged);
            } else {
                handshake.phase = HandshakePhase::Done;
            }
        },
        (HandshakePhase::Done, _) | (HandshakePhase::Failed(_), _) => {},
        (_, Event::Failed) => {
            handshake.phase = HandshakePhase::Failed(Failure::Transport);
        },
        _ => {},
    }
    handshake.action()
}

} // verus!
