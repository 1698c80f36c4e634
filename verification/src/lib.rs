//! The transport-and-dispatch core of a small RPC framework.
//!
//! Messages travel as frames: a fixed header, metadata in a field-tagged
//! binary format, and an opaque payload.  `frame` says what the bytes of a
//! frame are and reads them from a stream that delivers them in any number
//! of pieces; `connection` decides what a connection does with the bytes it
//! reads and writes; `codec` holds the contracts of the codecs and the two
//! codecs for message bodies; `context` runs a message through a chain of
//! handlers.
//!
//! What each function does is stated in its contract and proved, down to
//! the calls into `bytes`, `prost` and `bincode`, whose contracts are
//! assumed and marked as such.

pub mod buffer;
pub mod client;
pub mod codec;
pub mod connection;
pub mod context;
pub mod error;
pub mod frame;
pub mod keyed;
pub mod message;
pub mod protocol;
pub mod service;
