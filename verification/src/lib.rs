//! A verified core for a peer-to-peer address crawler.
//!
//! The library holds the wire codec for framed protocol messages, the
//! per-connection handshake and address-collection state machine, and the
//! round-based crawl bookkeeping. Networking itself (sockets, timeouts,
//! task spawning) lives outside the library and drives these functions.

pub mod addr;
pub mod codec;
pub mod config;
pub mod crawl;
pub mod error;
pub mod digest;
pub mod messages;
pub mod messaging;
pub mod payload;
pub mod session;

pub use addr::{is_ipv4, NetAddr, PeerAddress};
