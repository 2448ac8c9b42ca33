//! The write side of a message: the words of one chunk, put on the stream
//! in full, however few bytes the stream accepts at a time.

use crate::outbox::{lemma_advance, Outbox, OutboxState};
use crate::transport::{Action, Event, Failure, Signal};
use crate::wire::{encode, encode_words, lemma_decode_encode};
use vstd::prelude::*;

verus! {

/// An [`Emitter`] as contracts speak of it.
pub struct EmitterState {
    /// The encoded chunk and how much of it has gone out.
    pub out: OutboxState,
    /// Whether a transfer has failed.
    pub failed: bool,
}

impl EmitterState {
    /// The state in which nothing of `words` has gone out yet.
    pub open spec fn start(words: Seq<u64>) -> EmitterState {
        EmitterState { out: OutboxState::holding(encode(words)), failed: false }
    }

    /// No more has gone out than the chunk holds.
    pub open spec fn wf(self) -> bool {
        self.out.wf()
    }

    /// What the emitter needs next: a write while bytes are pending, nothing
    /// once all are out or a transfer has failed. No flush, and no
    /// terminator: a message may be emitted in several chunks.
    pub open spec fn action(self) -> Action {
        if self.failed {
            Action::Fail(Failure::Transport)
        } else if self.out.drained() {
            Action::Done
        } else {
            Action::Write
        }
    }

    /// A write cannot accept more than it was handed.
    pub open spec fn admits(self, signal: Signal) -> bool {
        signal matches Signal::Wrote(count) ==> self.action() == Action::Write ==> count
            <= self.out.pending().len()
    }

    /// The state after `signal`. A write that accepted some bytes moves the
    /// cursor past them; a failure ends the emission, and nothing is tried
    /// again; an outcome that answers no request is ignored.
    pub open spec fn step(self, signal: Signal) -> EmitterState {
        if self.action() != Action::Write {
            self
        } else {
            match signal {
                Signal::Wrote(count) => EmitterState { out: self.out.advance(count), ..self },
                Signal::Failed => EmitterState { failed: true, ..self },
                _ => self,
            }
        }
    }

    /// The state after each of `signals` in turn.
    pub open spec fn run(self, signals: Seq<Signal>) -> EmitterState
        decreases signals.len(),
    {
        if signals.len() == 0 {
            self
        } else {
            self.run(signals.drop_last()).step(signals.last())
        }
    }

    /// Whether each of `signals` is admitted by the state it arrives in.
    pub open spec fn admits_all(self, signals: Seq<Signal>) -> bool
        decreases signals.len(),
    {
        signals.len() == 0 || (self.admits_all(signals.drop_last()) && self.run(
            signals.drop_last(),
        ).admits(signals.last()))
    }
}

/// Whatever the stream does, what it has accepted from an emitter is the
/// front of the chunk's encoding, and the emitter is done exactly when the
/// stream has accepted all of it: eight bytes per word, and not one more.
pub proof fn lemma_emission(words: Seq<u64>, signals: Seq<Signal>)
    requires
        EmitterState::start(words).admits_all(signals),
    ensures
        ({
            let end = EmitterState::start(words).run(signals);
            &&& end.wf()
            &&& end.out.bytes == encode(words)
            &&& end.out.transmitted().is_prefix_of(encode(words))
            &&& end.action() == Action::Done <==> !end.failed && end.out.transmitted() == encode(
                words,
            )
            &&& end.action() == Action::Done ==> end.out.transmitted().len() == 8 * words.len()
        }),
    decreases signals.len(),
{
    let start = EmitterState::start(words);
    if signals.len() > 0 {
        lemma_emission(words, signals.drop_last());
        let before = start.run(signals.drop_last());
        if before.action() == Action::Write {
            if let Signal::Wrote(count) = signals.last() {
                lemma_advance(before.out, count);
            }
        }
    }
    lemma_decode_encode(words);
    let end = start.run(signals);
    if end.out.drained() {
        assert(end.out.transmitted() =~= encode(words));
    }
}

/// One chunk of a message on its way to the stream.
pub struct Emitter {
    out: Outbox,
    failed: bool,
}

impl View for Emitter {
    type V = EmitterState;

    closed spec fn view(&self) -> EmitterState {
        EmitterState { out: self.out@, failed: self.failed }
    }
}

impl Emitter {
    /// What every emitter satisfies, from its making on.
    pub open spec fn wf(&self) -> bool {
        self@.wf()
    }

    /// An emitter for `words`, of which nothing has gone out yet.
    pub fn new(words: &[u64]) -> (emitter: Emitter)
        ensures
            emitter.wf(),
            emitter@ == EmitterState::start(words@),
    {
        Emitter { out: Outbox::new(encode_words(words)), failed: false }
    }

    /// What the emitter needs from the stream next.
    pub fn action(&self) -> (action: Action)
        requires
            self.wf(),
        ensures
            action == self@.action(),
    {
        if self.failed {
            Action::Fail(Failure::Transport)
        } else if self.out.is_drained() {
            Action::Done
        } else {
            Action::Write
        }
    }

    /// The bytes to hand to the next physical write.
    pub fn pending(&self) -> (bytes: &[u8])
        requires
            self.wf(),
        ensures
            bytes@ == self@.out.pending(),
    {
        self.out.pending()
    }
}

/// Takes an emission one step further: records the outcome of the transfer
/// that the emitter last asked for, and says what it needs next.
pub fn hiwrite(emitter: &mut Emitter, event: Event) -> (action: Action)
    requires
        old(emitter).wf(),
        old(emitter)@.admits(event@),
    ensures
        final(emitter).wf(),
        final(emitter)@ == old(emitter)@.step(event@),
        action == final(emitter)@.action(),
{
    if let Action::Write = emitter.action() {
        match event {
            Event::Wrote(count) => {
                emitter.out.advance(count);
            },
            Event::Failed => {
                emitter.failed = true;
            },
            _ => {},
        }
    }
    emitter.action()
}

} // verus!
