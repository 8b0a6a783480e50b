//! The crawler's errors. Configuration errors are fatal before any
//! network activity; every per-peer error during crawling is caught at
//! the session boundary and degrades to an empty result.

use vstd::prelude::*;

use crate::codec::DecodeError;

verus! {

/// What can go wrong around one connection or in the configuration.
#[derive(Clone, Debug, PartialEq, Eq)]
pub enum Error {
    /// The connection was refused or failed at the I/O level.
    ConnectionFailed,
    /// The bounded wait for a connection ran out.
    ConnectionTimedOut,
    /// The stream ended in the middle of the protocol.
    ConnectionLost,
    /// A write on the stream failed.
    SendingFailed,
    /// A configured endpoint could not be parsed; carries the name of
    /// the offending setting.
    InvalidAddress(String),
    /// A frame could not be decoded.
    DecodeFailed(DecodeError),
}

} // verus!
