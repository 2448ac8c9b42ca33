//! Framing of arrays of 64-bit floating-point values over a byte stream.
//!
//! A message is a sequence of doubles of any length, each handled as the
//! 64-bit word of its bit pattern. On the stream it is the little-endian
//! bytes of its words, back to back, followed by one reserved word, the
//! terminator; there is no length and no padding. The receiver answers the
//! terminator with one byte, and the sender waits for that byte before it
//! goes on.
//!
//! The library does no input or output of its own. Each of the three
//! operations is a state machine that is handed the outcome of one transfer
//! and names the next: [`hiwrite`] puts one chunk of a message on the
//! stream, [`hidelimiter`] ends the message and awaits the acknowledgment,
//! and [`hiread`] gathers one message and acknowledges it. What the three
//! achieve together is stated and proved in [`message`].

pub mod emitter;
pub mod framer;
pub mod handshake;
pub mod message;
pub mod outbox;
pub mod transport;
pub mod wire;

pub use emitter::{hiwrite, Emitter};
pub use framer::{hiread, Framer, FramerPhase, DEFAULT_SIZE};
pub use handshake::{hidelimiter, Handshake, HandshakePhase};
pub use transport::{Action, Event, Failure};
pub use wire::{ACK, SENTINEL};
