//! The binary encoding of the messages: fields addressed by number, in the
//! wire format of protocol buffers.
//!
//! A message is a sequence of fields. A decoder passes over fields whose
//! numbers it does not know, so that a newer subject can talk to an older
//! observer.
pub mod varint;
pub mod field;
pub mod scalar;
pub mod message;
pub mod common;
pub mod resources;
