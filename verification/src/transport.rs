//! The boundary to the byte stream.
//!
//! Nothing in this library touches a stream. Each operation is a state
//! machine: it names the one transfer it needs next as an [`Action`], the
//! caller performs it on the stream, and reports the outcome as an
//! [`Event`]. Transfers may be partial in both directions.

use vstd::prelude::*;

verus! {

/// Why an operation ended without success.
#[derive(Clone, Copy, Debug, PartialEq, Eq, Structural)]
pub enum Failure {
    /// A physical read, write or flush failed.
    Transport,
    /// The stream ended before the terminator of a message was seen.
    Incomplete,
    /// The stream ended before the peer acknowledged the message.
    Unacknowledged,
}

/// The one thing an operation needs from the stream next.
#[derive(Clone, Copy, Debug, PartialEq, Eq, Structural)]
pub enum Action {
    /// One physical read of at least one byte and at most as many as the
    /// operation has room for.
    Read,
    /// One physical write of the operation's pending bytes.
    Write,
    /// Force what was written out to the peer.
    Flush,
    /// Nothing: the operation is complete.
    Done,
    /// Nothing: the operation has failed.
    Fail(Failure),
}

/// The outcome of the transfer that was last asked for.
#[derive(Clone, Copy, Debug)]
pub enum Event<'a> {
    /// The bytes that one physical read returned; none at the end of the
    /// stream.
    Read(&'a [u8]),
    /// How many of the pending bytes one physical write accepted.
    Wrote(usize),
    /// The stream was flushed.
    Flushed,
    /// The transfer failed.
    Failed,
}

/// An [`Event`] as contracts speak of it.
pub enum Signal {
    /// A read returned these bytes.
    Read(Seq<u8>),
    /// A write accepted this many bytes.
    Wrote(nat),
    /// The stream was flushed.
    Flushed,
    /// The transfer failed.
    Failed,
}

impl<'a> View for Event<'a> {
    type V = Signal;

    open spec fn view(&self) -> Signal {
        match *self {
            Event::Read(bytes) => Signal::Read(bytes@),
            Event::Wrote(count) => Signal::Wrote(count as nat),
            Event::Flushed => Signal::Flushed,
            Event::Failed => Signal::Failed,
        }
    }
}

/// The events of a stream that hands over `chunks`, one per read.
pub open spec fn reads(chunks: Seq<Seq<u8>>) -> Seq<Signal> {
    Seq::new(chunks.len(), |k: int| Signal::Read(chunks[k]))
}

/// The bytes of `chunks`, laid end to end.
pub open spec fn concat(chunks: Seq<Seq<u8>>) -> Seq<u8>
    decreases chunks.len(),
{
    if chunks.len() == 0 {
        Seq::empty()
    } else {
        concat(chunks.drop_last()) + chunks.last()
    }
}

} // verus!
