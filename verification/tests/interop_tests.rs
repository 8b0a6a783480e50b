//! Byte-compatibility with the reference network serialization: frames
//! produced by this library match the bitcoin crate's consensus encoding
//! byte for byte, and frames produced by that encoding decode here.

use bitcoin::consensus::encode::serialize;
use bitcoin::p2p::message::{NetworkMessage, RawNetworkMessage};
use bitcoin::p2p::message_network::VersionMessage;
use bitcoin::p2p::ServiceFlags;
use bitcoin::Network;

use peer_crawler::addr::PeerAddress;
use peer_crawler::codec::{encode_message, Decoder};
use peer_crawler::messages::{AddrEntry, ProtocolMessage};
use peer_crawler::messaging::build_version_message;

fn mapped(a: u8, b: u8, c: u8, d: u8, port: u16) -> bitcoin::p2p::Address {
    bitcoin::p2p::Address {
        services: ServiceFlags::NONE,
        address: [0, 0, 0, 0, 0, 0xffff, ((a as u16) << 8) | b as u16, ((c as u16) << 8) | d as u16],
        port,
    }
}

fn reference_bytes(payload: NetworkMessage) -> Vec<u8> {
    serialize(&RawNetworkMessage::new(Network::Bitcoin.magic(), payload))
}

fn decode_all(
    bytes: &[u8],
) -> Vec<Result<ProtocolMessage, peer_crawler::codec::DecodeError>> {
    let mut d = Decoder::new();
    d.feed(bytes);
    d.decode_available()
}

#[test]
fn verack_matches_reference_encoding() {
    assert_eq!(
        encode_message(&ProtocolMessage::Verack),
        reference_bytes(NetworkMessage::Verack)
    );
}

#[test]
fn getaddr_matches_reference_encoding() {
    assert_eq!(
        encode_message(&ProtocolMessage::GetAddr),
        reference_bytes(NetworkMessage::GetAddr)
    );
}

#[test]
fn version_matches_reference_encoding() {
    let reference = VersionMessage::new(
        ServiceFlags::NONE,
        1_700_000_000,
        mapped(10, 0, 0, 1, 8333),
        mapped(192, 168, 1, 2, 8333),
        42,
        "/test:0.1.0/".to_string(),
        0,
    );
    let reference_frame = reference_bytes(NetworkMessage::Version(reference));

    let ours = build_version_message(
        &PeerAddress::new(10, 0, 0, 1, 8333),
        &PeerAddress::new(192, 168, 1, 2, 8333),
        &b"/test:0.1.0/".to_vec(),
        1_700_000_000,
        42,
    );
    let our_frame = encode_message(&ProtocolMessage::Version(ours));

    assert_eq!(our_frame, reference_frame);
}

#[test]
fn reference_addr_message_decodes_here() {
    let entry = (1_600_000_000u32, mapped(9, 9, 9, 9, 8333));
    let bytes = reference_bytes(NetworkMessage::Addr(vec![entry]));
    let out = decode_all(&bytes);
    assert_eq!(
        out,
        vec![Ok(ProtocolMessage::AddrList(vec![AddrEntry {
            time: 1_600_000_000,
            services: 0,
            addr: PeerAddress::new(9, 9, 9, 9, 8333),
        }]))]
    );
}
