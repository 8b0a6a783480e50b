use peer_crawler::addr::{NetAddr, PeerAddress};
use peer_crawler::codec::{encode_message, DecodeError, Decoder};
use peer_crawler::messages::{AddrEntry, ProtocolMessage, VersionPayload};
use peer_crawler::messaging::build_version_message;

fn checksum4(payload: &[u8]) -> [u8; 4] {
    let h = <bitcoin::hashes::sha256d::Hash as bitcoin::hashes::Hash>::hash(payload);
    let d = <bitcoin::hashes::sha256d::Hash as bitcoin::hashes::Hash>::to_byte_array(h);
    [d[0], d[1], d[2], d[3]]
}

fn sample_version() -> VersionPayload {
    let receiver = PeerAddress::new(10, 0, 0, 1, 8333);
    let sender = PeerAddress::new(192, 168, 1, 2, 8333);
    let ua = b"/test:0.1.0/".to_vec();
    build_version_message(&receiver, &sender, &ua, 1_700_000_000, 42)
}

fn sample_addr_list() -> Vec<AddrEntry> {
    vec![
        AddrEntry { time: 1000, services: 1, addr: PeerAddress::new(1, 2, 3, 4, 8333) },
        AddrEntry { time: 2000, services: 0, addr: PeerAddress::new(5, 6, 7, 8, 18333) },
    ]
}

fn decode_all(bytes: &[u8]) -> Vec<Result<ProtocolMessage, DecodeError>> {
    let mut d = Decoder::new();
    d.feed(bytes);
    d.decode_available()
}

#[test]
fn round_trip_version() {
    let m = ProtocolMessage::Version(sample_version());
    let bytes = encode_message(&m);
    let out = decode_all(&bytes);
    assert_eq!(out, vec![Ok(m)]);
}

#[test]
fn round_trip_verack() {
    let bytes = encode_message(&ProtocolMessage::Verack);
    assert_eq!(decode_all(&bytes), vec![Ok(ProtocolMessage::Verack)]);
}

#[test]
fn round_trip_getaddr() {
    let bytes = encode_message(&ProtocolMessage::GetAddr);
    assert_eq!(decode_all(&bytes), vec![Ok(ProtocolMessage::GetAddr)]);
}

#[test]
fn round_trip_addr_list() {
    let m = ProtocolMessage::AddrList(sample_addr_list());
    let bytes = encode_message(&m);
    assert_eq!(decode_all(&bytes), vec![Ok(m)]);
}

#[test]
fn verack_frame_is_byte_exact() {
    // The reference framing of an empty verack payload, including the
    // first four bytes of the double SHA-256 of the empty byte string.
    let bytes = encode_message(&ProtocolMessage::Verack);
    let mut expected = vec![0xf9u8, 0xbe, 0xb4, 0xd9];
    expected.extend_from_slice(b"verack\0\0\0\0\0\0");
    expected.extend_from_slice(&[0, 0, 0, 0]);
    expected.extend_from_slice(&[0x5d, 0xf6, 0xe0, 0xe2]);
    assert_eq!(bytes, expected);
}

#[test]
fn split_invariance_any_boundary() {
    let mut stream = encode_message(&ProtocolMessage::Version(sample_version()));
    stream.extend_from_slice(&encode_message(&ProtocolMessage::Verack));
    stream.extend_from_slice(&encode_message(&ProtocolMessage::AddrList(sample_addr_list())));

    let whole = decode_all(&stream);
    assert_eq!(whole.len(), 3);

    // Feed the same bytes one at a time.
    let mut d = Decoder::new();
    let mut piecewise = Vec::new();
    for b in &stream {
        d.feed(&[*b]);
        piecewise.extend(d.decode_available());
    }
    assert_eq!(piecewise, whole);

    // And split at every single boundary.
    for cut in 0..stream.len() {
        let mut d = Decoder::new();
        d.feed(&stream[..cut]);
        let mut items = d.decode_available();
        d.feed(&stream[cut..]);
        items.extend(d.decode_available());
        assert_eq!(items, whole);
    }
}

#[test]
fn corrupted_checksum_is_isolated() {
    let mut stream = encode_message(&ProtocolMessage::GetAddr);
    // Tamper with one checksum byte (offset 20..24 of the frame header).
    stream[20] ^= 0xff;
    stream.extend_from_slice(&encode_message(&ProtocolMessage::Verack));
    let out = decode_all(&stream);
    assert_eq!(
        out,
        vec![Err(DecodeError::ChecksumMismatch), Ok(ProtocolMessage::Verack)]
    );
}

#[test]
fn bad_magic_is_reported() {
    let mut stream = encode_message(&ProtocolMessage::Verack);
    stream[0] = 0x00;
    let out = decode_all(&stream);
    assert_eq!(out, vec![Err(DecodeError::BadMagic)]);
}

#[test]
fn oversized_length_is_reported() {
    let mut frame = vec![0xf9u8, 0xbe, 0xb4, 0xd9];
    frame.extend_from_slice(b"verack\0\0\0\0\0\0");
    frame.extend_from_slice(&[0xff, 0xff, 0xff, 0xff]); // implausible length
    frame.extend_from_slice(&[0, 0, 0, 0]);
    let mut stream = frame;
    stream.extend_from_slice(&encode_message(&ProtocolMessage::Verack));
    let out = decode_all(&stream);
    assert_eq!(
        out,
        vec![Err(DecodeError::OversizedLength), Ok(ProtocolMessage::Verack)]
    );
}

#[test]
fn malformed_payload_is_reported() {
    // A verack frame must carry an empty payload; one stray byte with a
    // correct checksum is a malformed payload.
    let payload = [0u8];
    let mut frame = vec![0xf9u8, 0xbe, 0xb4, 0xd9];
    frame.extend_from_slice(b"verack\0\0\0\0\0\0");
    frame.extend_from_slice(&[1, 0, 0, 0]);
    frame.extend_from_slice(&checksum4(&payload));
    frame.extend_from_slice(&payload);
    let out = decode_all(&frame);
    assert_eq!(out, vec![Err(DecodeError::MalformedPayload)]);
}

#[test]
fn unknown_command_decodes_opaque() {
    let m = ProtocolMessage::Other {
        command: b"ping\0\0\0\0\0\0\0\0".to_vec(),
        payload: vec![1, 2, 3, 4, 5, 6, 7, 8],
    };
    let bytes = encode_message(&m);
    assert_eq!(decode_all(&bytes), vec![Ok(m)]);
}

#[test]
fn non_ipv4_entries_are_filtered_at_decode() {
    // An address-list payload with one IPv4-mapped entry and one plain
    // IPv6 entry: only the IPv4 endpoint is retained.
    let mut payload = vec![2u8]; // count
    // IPv6 entry.
    payload.extend_from_slice(&[0, 0, 0, 0]); // time
    payload.extend_from_slice(&[0, 0, 0, 0, 0, 0, 0, 0]); // services
    payload.extend_from_slice(&[0x20, 0x01, 0x0d, 0xb8, 0, 0, 0, 0, 0, 0, 0, 0, 0, 0, 0, 1]);
    payload.extend_from_slice(&[0x20, 0x8d]); // port 8333
    // IPv4-mapped entry 9.9.9.9:8333.
    payload.extend_from_slice(&[0, 0, 0, 0]);
    payload.extend_from_slice(&[0, 0, 0, 0, 0, 0, 0, 0]);
    payload.extend_from_slice(&[0, 0, 0, 0, 0, 0, 0, 0, 0, 0, 0xff, 0xff, 9, 9, 9, 9]);
    payload.extend_from_slice(&[0x20, 0x8d]);

    let mut frame = vec![0xf9u8, 0xbe, 0xb4, 0xd9];
    frame.extend_from_slice(b"addr\0\0\0\0\0\0\0\0");
    frame.extend_from_slice(&(payload.len() as u32).to_le_bytes());
    frame.extend_from_slice(&checksum4(&payload));
    frame.extend_from_slice(&payload);

    let out = decode_all(&frame);
    assert_eq!(
        out,
        vec![Ok(ProtocolMessage::AddrList(vec![AddrEntry {
            time: 0,
            services: 0,
            addr: PeerAddress::new(9, 9, 9, 9, 8333),
        }]))]
    );
}

#[test]
fn partial_frame_stays_buffered() {
    let bytes = encode_message(&ProtocolMessage::Verack);
    let mut d = Decoder::new();
    d.feed(&bytes[..10]);
    assert!(d.decode_available().is_empty());
    d.feed(&bytes[10..]);
    assert_eq!(d.decode_available(), vec![Ok(ProtocolMessage::Verack)]);
}

#[test]
fn netaddr_wire_form_round_trips_through_version() {
    let receiver = PeerAddress::new(10, 0, 0, 1, 1234);
    let na = NetAddr::from_ipv4(&receiver, 7);
    assert_eq!(na.services, 7);
    assert_eq!(na.port, 1234);
    assert_eq!(na.ip, vec![0, 0, 0, 0, 0, 0, 0, 0, 0, 0, 0xff, 0xff, 10, 0, 0, 1]);
}
