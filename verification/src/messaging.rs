//! Building the outbound version (handshake) message: a pure function of
//! its inputs, with the wall clock and the random nonce drawn through
//! trusted wrappers and handed in as plain values.

use vstd::prelude::*;

use crate::addr::{mapped_ip_of, NetAddr, PeerAddress};
use crate::messages::{VersionPayload, MAX_PAYLOAD_LEN, PROTOCOL_VERSION};
use crate::payload::wf_version;
use vstd::slice::slice_to_vec;

verus! {

/// Relies on `chrono::Utc::now`: the current wall-clock time in seconds
/// since the epoch. Nothing is assumed of its value.
#[verifier::external_body]
pub fn unix_time_now() -> (t: i64)
{
    chrono::Utc::now().timestamp()
}

/// Relies on `rand::random`: a random 64-bit nonce. Nothing is assumed
/// of its value.
#[verifier::external_body]
pub fn random_nonce() -> (n: u64)
{
    rand::random::<u64>()
}

/// Builds the version payload of the handshake: the advertised protocol
/// version, zero services, zero start height, no relay, the given
/// timestamp and nonce, the two endpoints in wire form, and the user
/// agent. A pure function of its inputs.
pub fn build_version_message(
    receiver_address: &PeerAddress,
    sender_address: &PeerAddress,
    user_agent: &Vec<u8>,
    timestamp: u64,
    nonce: u64,
) -> (m: VersionPayload)
    requires
        user_agent@.len() + 94 <= MAX_PAYLOAD_LEN,
    ensures
        m.version == PROTOCOL_VERSION,
        m.services == 0,
        m.start_height == 0,
        m.relay == false,
        m.timestamp == timestamp,
        m.nonce == nonce,
        m.user_agent@ == user_agent@,
        m.receiver@.services == 0 && m.receiver@.ip == mapped_ip_of(*receiver_address)
            && m.receiver@.port == receiver_address.port,
        m.sender@.services == 0 && m.sender@.ip == mapped_ip_of(*sender_address)
            && m.sender@.port == sender_address.port,
        wf_version(m@),
{
    VersionPayload {
        version: PROTOCOL_VERSION,
        services: 0,
        timestamp,
        receiver: NetAddr::from_ipv4(receiver_address, 0),
        sender: NetAddr::from_ipv4(sender_address, 0),
        nonce,
        user_agent: slice_to_vec(user_agent.as_slice()),
        start_height: 0,
        relay: false,
    }
}

/// The version payload for a handshake started now: the current
/// wall-clock timestamp (clamped to zero should the clock read before
/// the epoch) and a fresh random nonce; every other field from the
/// inputs alone.
pub fn version_message_now(
    receiver_address: &PeerAddress,
    sender_address: &PeerAddress,
    user_agent: &Vec<u8>,
) -> (m: VersionPayload)
    requires
        user_agent@.len() + 94 <= MAX_PAYLOAD_LEN,
    ensures
        m.version == PROTOCOL_VERSION,
        m.services == 0,
        m.start_height == 0,
        m.relay == false,
        m.user_agent@ == user_agent@,
        m.receiver@.services == 0 && m.receiver@.ip == mapped_ip_of(*receiver_address)
            && m.receiver@.port == receiver_address.port,
        m.sender@.services == 0 && m.sender@.ip == mapped_ip_of(*sender_address)
            && m.sender@.port == sender_address.port,
        wf_version(m@),
{
    let t = unix_time_now();
    let ts: u64 = if t >= 0 {
        t as u64
    } else {
        0
    };
    let nonce = random_nonce();
    build_version_message(receiver_address, sender_address, user_agent, ts, nonce)
}

} // verus!
