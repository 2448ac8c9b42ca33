//! Bytes on their way out, and how far a stream that accepts them piece by
//! piece has got.

use vstd::prelude::*;

verus! {

/// An [`Outbox`] as contracts speak of it.
pub struct OutboxState {
    /// Everything that is to go out.
    pub bytes: Seq<u8>,
    /// How many of them the stream has accepted.
    pub sent: nat,
}

impl OutboxState {
    /// No more has gone out than there is.
    pub open spec fn wf(self) -> bool {
        self.sent <= self.bytes.len()
    }

    /// Nothing of `bytes` has gone out yet.
    pub open spec fn holding(bytes: Seq<u8>) -> OutboxState {
        OutboxState { bytes, sent: 0 }
    }

    /// What the stream has accepted so far.
    pub open spec fn transmitted(self) -> Seq<u8> {
        self.bytes.take(self.sent as int)
    }

    /// What a physical write is to be handed next.
    pub open spec fn pending(self) -> Seq<u8> {
        self.bytes.skip(self.sent as int)
    }

    /// Whether everything has gone out.
    pub open spec fn drained(self) -> bool {
        self.sent == self.bytes.len()
    }

    /// The state after a physical write accepted `count` of the pending bytes.
    pub open spec fn advance(self, count: nat) -> OutboxState {
        OutboxState { bytes: self.bytes, sent: self.sent + count }
    }
}

/// A write that accepts `count` bytes moves the first `count` pending bytes,
/// and no others, to the stream.
pub proof fn lemma_advance(state: OutboxState, count: nat)
    requires
        state.wf(),
        count <= state.pending().len(),
    ensures
        state.advance(count).wf(),
        state.advance(count).transmitted() == state.transmitted() + state.pending().take(
            count as int,
        ),
        state.advance(count).pending() == state.pending().skip(count as int),
{
    assert(state.advance(count).transmitted() =~= state.transmitted() + state.pending().take(
        count as int,
    ));
    assert(state.advance(count).pending() =~= state.pending().skip(count as int));
}

/// Bytes to be written in full to a stream that may accept fewer than it
/// is handed.
pub struct Outbox {
    bytes: Vec<u8>,
    sent: usize,
}

impl View for Outbox {
    type V = OutboxState;

    closed spec fn view(&self) -> OutboxState {
        OutboxState { bytes: self.bytes@, sent: self.sent as nat }
    }
}

impl Outbox {
    /// What every outbox satisfies, from its making on.
    pub open spec fn wf(&self) -> bool {
        self@.wf()
    }

    /// An outbox of which nothing has gone out yet.
    pub fn new(bytes: Vec<u8>) -> (outbox: Outbox)
        ensures
            outbox.wf(),
            outbox@ == OutboxState::holding(bytes@),
    {
        Outbox { bytes, sent: 0 }
    }

    /// The bytes to hand to the next physical write.
    pub fn pending(&self) -> (bytes: &[u8])
        requires
            self.wf(),
        ensures
            bytes@ == self@.pending(),
    {
        let len = self.bytes.len();
        vstd::slice::slice_subrange(self.bytes.as_slice(), self.sent, len)
    }

    /// Whether everything has gone out.
    pub fn is_drained(&self) -> (drained: bool)
        requires
            self.wf(),
        ensures
            drained == self@.drained(),
    {
        self.sent == self.bytes.len()
    }

    /// Records that a physical write accepted `count` of the pending bytes.
    pub fn advance(&mut self, count: usize)
        requires
            old(self).wf(),
            count <= old(self)@.pending().len(),
        ensures
            final(self).wf(),
            final(self)@ == old(self)@.advance(count as nat),
    {
        let total = self.bytes.len();
        assert(self.sent + count <= total);
        self.sent = self.sent + count;
    }
}

} // verus!
