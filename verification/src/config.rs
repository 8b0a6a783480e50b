//! The crawler's configuration: the validated values the crawl consumes.
//! The surrounding program fills it from the command line and parses the
//! textual addresses before any network activity starts.

use vstd::prelude::*;

verus! {

/// The run's configuration.
#[derive(Clone, Debug)]
pub struct Args {
    /// Address of the seed node to connect to, as text.
    pub remote_address: String,
    /// Local address advertised during the handshake, as text.
    pub local_address: String,
    /// Target number of peer addresses to collect.
    pub address_limit: usize,
    /// Seed connection timeout, in seconds.
    pub connection_timeout: u64,
    /// User agent advertised in outbound version messages.
    pub user_agent: String,
}

} // verus!
