//! A UDP relay core: a bounded LRU registry of recently seen peers, an
//! optional bounded LRU buffer of recent messages, and the decision logic
//! that turns one received datagram into the set of datagrams to send.
//!
//! The surrounding process (socket binding, the receive loop, the actual
//! sends) lives outside this crate; the functions here work on plain
//! addresses, byte payloads and clock ticks.

pub mod config;
pub mod engine;
pub mod lru;
pub mod model;
pub mod registry;
pub mod replay;
