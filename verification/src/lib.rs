//! A msgpack-RPC endpoint engine: message framing over a binary value
//! encoding, a method registry, a pending-call table, and a per-connection
//! dispatch state machine, all with verified contracts.
//!
//! The engine itself performs no I/O.  A driver owns the transport: it feeds
//! incoming bytes to a [`framing::Decoder`], hands each decoded message to an
//! [`endpoint::Endpoint`], and carries out the [`endpoint::Action`]s the
//! endpoint returns (writing bytes, starting handlers, resolving calls).

pub mod bytes;
pub mod codec;
pub mod endpoint;
pub mod framing;
pub mod hello;
pub mod message;
pub mod registry;
pub mod value;
