//! Core of a BitTorrent peer: the wire codec, the piece ledger that
//! hash-verifies downloaded data, the per-connection session state machine,
//! and the connection manager that coordinates piece selection across peers.

pub mod bitfield;
pub mod bytes;
pub mod download;
pub mod messages;
pub mod session;
pub mod manager;
pub mod tracker;
