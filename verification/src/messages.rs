//! Protocol messages: the tagged variants the crawler understands, with
//! their mathematical models and well-formedness conditions.

use vstd::prelude::*;

use crate::addr::{NetAddr, PeerAddress, SpecNetAddr};

verus! {

/// The protocol version this crawler advertises.
pub const PROTOCOL_VERSION: u32 = 70001;

/// The largest payload length a frame may declare; anything larger is a
/// recoverable decode error for that frame.
pub const MAX_PAYLOAD_LEN: u32 = 0x0200_0000;

/// The body of a version (handshake) message.
#[derive(Clone, Debug, PartialEq, Eq)]
pub struct VersionPayload {
    pub version: u32,
    pub services: u64,
    pub timestamp: u64,
    pub receiver: NetAddr,
    pub sender: NetAddr,
    pub nonce: u64,
    pub user_agent: Vec<u8>,
    pub start_height: u32,
    pub relay: bool,
}

/// Mathematical model of a [`VersionPayload`].
pub struct SpecVersion {
    pub version: u32,
    pub services: u64,
    pub timestamp: u64,
    pub receiver: SpecNetAddr,
    pub sender: SpecNetAddr,
    pub nonce: u64,
    pub user_agent: Seq<u8>,
    pub start_height: u32,
    pub relay: bool,
}

impl View for VersionPayload {
    type V = SpecVersion;

    open spec fn view(&self) -> SpecVersion {
        SpecVersion {
            version: self.version,
            services: self.services,
            timestamp: self.timestamp,
            receiver: self.receiver@,
            sender: self.sender@,
            nonce: self.nonce,
            user_agent: self.user_agent@,
            start_height: self.start_height,
            relay: self.relay,
        }
    }
}

/// One entry of an address-list message: the advertised last-seen time,
/// service flags, and the (IPv4) endpoint.
#[derive(Clone, Copy, Debug, PartialEq, Eq, Structural)]
pub struct AddrEntry {
    pub time: u32,
    pub services: u64,
    pub addr: PeerAddress,
}

/// A decoded protocol message. Address lists hold only the IPv4 entries;
/// other address families are filtered out while the payload is decoded.
/// Commands the crawler does not act on decode to `Other`.
#[derive(Clone, Debug, PartialEq, Eq)]
pub enum ProtocolMessage {
    Version(VersionPayload),
    Verack,
    GetAddr,
    AddrList(Vec<AddrEntry>),
    Other { command: Vec<u8>, payload: Vec<u8> },
}

/// Mathematical model of a [`ProtocolMessage`].
pub enum SpecMessage {
    Version(SpecVersion),
    Verack,
    GetAddr,
    AddrList(Seq<AddrEntry>),
    Other { command: Seq<u8>, payload: Seq<u8> },
}

impl View for ProtocolMessage {
    type V = SpecMessage;

    open spec fn view(&self) -> SpecMessage {
        match self {
            ProtocolMessage::Version(v) => SpecMessage::Version(v@),
            ProtocolMessage::Verack => SpecMessage::Verack,
            ProtocolMessage::GetAddr => SpecMessage::GetAddr,
            ProtocolMessage::AddrList(entries) => SpecMessage::AddrList(entries@),
            ProtocolMessage::Other { command, payload } => SpecMessage::Other {
                command: command@,
                payload: payload@,
            },
        }
    }
}

/// The 12-byte command name of a version message.
pub open spec fn cmd_version() -> Seq<u8> {
    seq![118u8, 101u8, 114u8, 115u8, 105u8, 111u8, 110u8, 0u8, 0u8, 0u8, 0u8, 0u8]
}

/// The 12-byte command name of a verack message.
pub open spec fn cmd_verack() -> Seq<u8> {
    seq![118u8, 101u8, 114u8, 97u8, 99u8, 107u8, 0u8, 0u8, 0u8, 0u8, 0u8, 0u8]
}

/// The 12-byte command name of a getaddr message.
pub open spec fn cmd_getaddr() -> Seq<u8> {
    seq![103u8, 101u8, 116u8, 97u8, 100u8, 100u8, 114u8, 0u8, 0u8, 0u8, 0u8, 0u8]
}

/// The 12-byte command name of an address-list message.
pub open spec fn cmd_addr() -> Seq<u8> {
    seq![97u8, 100u8, 100u8, 114u8, 0u8, 0u8, 0u8, 0u8, 0u8, 0u8, 0u8, 0u8]
}

/// Whether a command is one the codec decodes into a tagged variant.
pub open spec fn is_known_command(c: Seq<u8>) -> bool {
    c == cmd_version() || c == cmd_verack() || c == cmd_getaddr() || c == cmd_addr()
}

} // verus!
