//! A token-circulation ring augmented with the Chandy-Lamport global-snapshot
//! protocol. The protocol engine is a pure state machine: it consumes decoded
//! messages and returns the messages to transmit, so that the surrounding
//! event loop only moves bytes.

pub mod codec;
pub mod dispatch;
pub mod model;
pub mod ring;
pub mod socketry;
pub mod state;
