//! Framing codec and transaction engine for a line-oriented, checksummed
//! master/slave register protocol on a half-duplex serial link.
//!
//! - `message`: the message model.
//! - `wire`: the wire format of one line, its encoder and decoder.
//! - `codec`: the incremental decoder over a byte buffer, and the encoder.
//! - `client`, `peer`: the two sides of a transaction, as state machines.
//! - `roundtrip`, `corruption`, `stream`: what is proved of the codec.

pub mod buffer;
pub mod client;
pub mod codec;
pub mod corruption;
pub mod error;
pub mod exchange;
pub mod hex;
pub mod message;
pub mod peer;
pub mod roundtrip;
pub mod stream;
pub mod text;
pub mod wire;
pub mod word;

pub use crate::client::{Action, Client, Event, Reply, TransactionError, Width};
pub use crate::codec::FxCodec;
pub use crate::error::FrameError;
pub use crate::message::{
    Address, Command, Message, NakWithError, ReadWordsCommand, Request, Response,
    WriteWordsCommand,
};
pub use crate::peer::{Peer, PeerAction, RegisterStore};
