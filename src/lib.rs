//! Real-time state synchronisation: a presence registry, per-player snapshot
//! histories with per-recipient delivery tracking, the binary wire format and
//! the batching of outbound records into datagrams.

pub mod codec;
pub mod command;
pub mod history;
pub mod message;
pub mod outbox;
pub mod packing;
pub mod session;
pub mod state;
