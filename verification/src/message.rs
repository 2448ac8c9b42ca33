//! A whole message, from the words that a sender emits to the words that a
//! receiver hands over.

use crate::emitter::{lemma_emission, EmitterState};
use crate::framer::{
    all_nonempty, capacity_for, lemma_capacity_doubles, lemma_framing, quiet, FramerState,
};
use crate::handshake::{lemma_handshake_run, HandshakeState};
use crate::transport::{concat, reads, Action, Signal};
use crate::wire::{
    decode, encode, lemma_decode_encode, lemma_encode_concat, lemma_word_of_bytes, sentinel_bytes,
    terminated, ACK, SENTINEL,
};
use vstd::prelude::*;

verus! {

/// A message as it travels: the bytes of its words, then the terminator.
pub open spec fn wire(words: Seq<u64>) -> Seq<u8> {
    encode(words) + sentinel_bytes()
}

/// The words of `parts`, laid end to end.
pub open spec fn join(parts: Seq<Seq<u64>>) -> Seq<u64>
    decreases parts.len(),
{
    if parts.len() == 0 {
        Seq::empty()
    } else {
        join(parts.drop_last()) + parts.last()
    }
}

/// What the stream carries after each of `parts` has been emitted in turn.
pub open spec fn emitted(parts: Seq<Seq<u64>>) -> Seq<u8>
    decreases parts.len(),
{
    if parts.len() == 0 {
        Seq::empty()
    } else {
        emitted(parts.drop_last()) + encode(parts.last())
    }
}

/// What follows the reads of a message on the receiving side: the byte of
/// the acknowledgment is accepted by the stream, and the stream is flushed.
pub open spec fn acknowledged(signals: Seq<Signal>) -> Seq<Signal> {
    signals.push(Signal::Wrote(1)).push(Signal::Flushed)
}

/// A message goes over the stream as the same bytes however it is cut into
/// parts for emission: the parts, emitted in turn, put on the stream what
/// emitting the whole in one piece puts there. A receiver sees nothing but
/// those bytes, so it cannot tell the two apart.
pub proof fn lemma_chunked_emission(parts: Seq<Seq<u64>>)
    ensures
        emitted(parts) == encode(join(parts)),
    decreases parts.len(),
{
    if parts.len() == 0 {
        assert(encode(join(parts)) =~= Seq::<u8>::empty());
    } else {
        lemma_chunked_emission(parts.drop_last());
        lemma_encode_concat(join(parts.drop_last()), parts.last());
    }
}

/// When an emitter is done with `words` and a handshake has all of the
/// terminator out, the two have put on the stream exactly the message as
/// it travels, whatever the stream made of the single writes.
pub proof fn lemma_sent(words: Seq<u64>, emission: Seq<Signal>, delimiting: Seq<Signal>)
    requires
        EmitterState::start(words).admits_all(emission),
        EmitterState::start(words).run(emission).action() == Action::Done,
        HandshakeState::start().admits_all(delimiting),
        HandshakeState::start().run(delimiting).out.drained(),
    ensures
        EmitterState::start(words).run(emission).out.transmitted() + HandshakeState::start().run(
            delimiting,
        ).out.transmitted() == wire(words),
{
    lemma_emission(words, emission);
    lemma_handshake_run(delimiting);
    let handshake = HandshakeState::start().run(delimiting);
    assert(handshake.out.transmitted() =~= sentinel_bytes());
}

/// What is in front of the terminator of a message as it travels decodes
/// to the words of the message.
pub proof fn lemma_wire(words: Seq<u64>)
    ensures
        wire(words).len() == 8 * words.len() + 8,
        terminated(wire(words)),
        decode(wire(words).take(wire(words).len() - 8)) == words,
{
    lemma_decode_encode(words);
    lemma_word_of_bytes(SENTINEL);
    assert(wire(words).skip(wire(words).len() - 8) =~= sentinel_bytes());
    assert(wire(words).take(wire(words).len() - 8) =~= encode(words));
}

/// Every message comes out as it went in, bit for bit.
///
/// The stream may hand the bytes of the message over in any number of
/// reads, each of at least one byte and at most as many as the framer has
/// room for, and the buffer may start at any size. Provided that no read
/// before the last ends on eight bytes that are the terminator, the framer
/// asks for no read beyond the last, acknowledges, and hands over exactly
/// the words that were sent, from a buffer that was doubled until it held
/// the message.
pub proof fn lemma_round_trip(words: Seq<u64>, capacity: nat, chunks: Seq<Seq<u8>>)
    requires
        capacity > 0,
        capacity % 8 == 0,
        all_nonempty(chunks),
        concat(chunks) == wire(words),
        quiet(chunks.drop_last()),
        FramerState::start(capacity).admits_all(reads(chunks)),
    ensures
        ({
            let read = FramerState::start(capacity).run(reads(chunks));
            let end = FramerState::start(capacity).run(acknowledged(reads(chunks)));
            &&& read.action() == Action::Write
            &&& read.reply.pending() == seq![ACK]
            &&& end.action() == Action::Done
            &&& end.message() == Some(words)
            &&& end.reply.transmitted() == seq![ACK]
            &&& end.capacity == capacity_for(capacity, wire(words).len())
        }),
{
    lemma_wire(words);
    assert(chunks.len() > 0);
    lemma_framing(capacity, chunks);
    let start = FramerState::start(capacity);
    let read = start.run(reads(chunks));
    assert(read.reply.pending() =~= seq![ACK]);
    let written = reads(chunks).push(Signal::Wrote(1));
    assert(written.drop_last() =~= reads(chunks));
    assert(acknowledged(reads(chunks)).drop_last() =~= written);
    let replied = read.step(Signal::Wrote(1));
    assert(start.run(written) == replied);
    assert(start.run(acknowledged(reads(chunks))) == replied.step(Signal::Flushed));
    assert(replied.reply.transmitted() =~= seq![ACK]);
}

/// A message that was emitted in parts comes out as the whole: the words
/// of the parts, in order, as if they had been emitted in one piece.
pub proof fn lemma_chunked_round_trip(
    parts: Seq<Seq<u64>>,
    capacity: nat,
    chunks: Seq<Seq<u8>>,
)
    requires
        capacity > 0,
        capacity % 8 == 0,
        all_nonempty(chunks),
        concat(chunks) == emitted(parts) + sentinel_bytes(),
        quiet(chunks.drop_last()),
        FramerState::start(capacity).admits_all(reads(chunks)),
    ensures
        emitted(parts) + sentinel_bytes() == wire(join(parts)),
        FramerState::start(capacity).run(acknowledged(reads(chunks))).message() == Some(
            join(parts),
        ),
{
    lemma_chunked_emission(parts);
    lemma_round_trip(join(parts), capacity, chunks);
}

/// A message longer than the buffer's first size is received all the same,
/// in a buffer that was doubled at least once.
pub proof fn lemma_growth(words: Seq<u64>, capacity: nat, chunks: Seq<Seq<u8>>)
    requires
        capacity > 0,
        capacity % 8 == 0,
        8 * words.len() > capacity,
        all_nonempty(chunks),
        concat(chunks) == wire(words),
        quiet(chunks.drop_last()),
        FramerState::start(capacity).admits_all(reads(chunks)),
    ensures
        ({
            let end = FramerState::start(capacity).run(acknowledged(reads(chunks)));
            &&& end.message() == Some(words)
            &&& end.capacity >= 2 * capacity
        }),
{
    lemma_round_trip(words, capacity, chunks);
    lemma_wire(words);
    lemma_capacity_doubles(capacity, wire(words).len());
}

/// Reads that each return something leave ever more bytes behind them.
pub proof fn lemma_concat_grows(chunks: Seq<Seq<u8>>, k: int)
    requires
        all_nonempty(chunks),
        0 <= k < chunks.len(),
    ensures
        concat(chunks.take(k)).len() < concat(chunks).len(),
    decreases chunks.len(),
{
    let front = chunks.drop_last();
    if k == front.len() {
        assert(chunks.take(k) =~= front);
    } else {
        lemma_concat_grows(front, k);
        assert(front.take(k) =~= chunks.take(k));
    }
}

/// A message of no words is a message like any other: the terminator
/// alone, however the stream cuts it into reads, is received as the empty
/// sequence of words, and is acknowledged with one byte.
pub proof fn lemma_empty_message(capacity: nat, chunks: Seq<Seq<u8>>)
    requires
        capacity > 0,
        capacity % 8 == 0,
        all_nonempty(chunks),
        concat(chunks) == sentinel_bytes(),
        FramerState::start(capacity).admits_all(reads(chunks)),
    ensures
        ({
            let end = FramerState::start(capacity).run(acknowledged(reads(chunks)));
            &&& end.action() == Action::Done
            &&& end.message() == Some(Seq::<u64>::empty())
            &&& end.reply.transmitted() == seq![ACK]
        }),
{
    let nothing = Seq::<u64>::empty();
    assert(wire(nothing) =~= sentinel_bytes());
    let front = chunks.drop_last();
    assert forall|k: int| 0 < k <= front.len() implies !terminated(
        concat(#[trigger] front.take(k)),
    ) by {
        lemma_concat_grows(chunks, k);
        assert(front.take(k) =~= chunks.take(k));
    }
    lemma_round_trip(nothing, capacity, chunks);
}

} // verus!
