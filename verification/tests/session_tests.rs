use peer_crawler::addr::PeerAddress;
use peer_crawler::messages::{AddrEntry, ProtocolMessage};
use peer_crawler::session::{
    session_step, HandshakeState, Session, SessionAction, SessionEvent,
};

fn entry(a: u8, port: u16) -> AddrEntry {
    AddrEntry { time: 0, services: 0, addr: PeerAddress::new(a, 0, 0, 1, port) }
}

#[test]
fn handshake_sends_verack_then_getaddr() {
    let mut s = Session::new(100);
    assert_eq!(s.state, HandshakeState::AwaitingVersion);

    let version = ProtocolMessage::Other { command: b"x\0\0\0\0\0\0\0\0\0\0\0".to_vec(), payload: vec![] };
    // An unrelated message changes nothing.
    assert_eq!(session_step(&mut s, &SessionEvent::Received(version)), None);
    assert_eq!(s.state, HandshakeState::AwaitingVersion);

    // The peer's version triggers the verack, then the getaddr, without
    // waiting for the peer's own verack.
    let m = ProtocolMessage::Verack;
    assert_eq!(session_step(&mut s, &SessionEvent::Received(m)), None);
    let v = peer_crawler::messaging::build_version_message(
        &PeerAddress::new(1, 1, 1, 1, 8333),
        &PeerAddress::new(2, 2, 2, 2, 8333),
        &b"/test/".to_vec(),
        5,
        6,
    );
    let action = session_step(&mut s, &SessionEvent::Received(ProtocolMessage::Version(v)));
    assert_eq!(action, Some(SessionAction::SendVerack));
    assert_eq!(s.state, HandshakeState::AwaitingVerackSent);
    let action = session_step(&mut s, &SessionEvent::VerackSent);
    assert_eq!(action, Some(SessionAction::SendGetAddr));
    assert_eq!(s.state, HandshakeState::AwaitingGetAddrSent);
}

#[test]
fn overlapping_addr_lists_yield_no_duplicates() {
    let mut s = Session::new(100);
    s.state = HandshakeState::AwaitingGetAddrSent;

    let first = ProtocolMessage::AddrList(vec![entry(1, 1), entry(2, 2)]);
    assert_eq!(session_step(&mut s, &SessionEvent::Received(first)), None);
    assert_eq!(s.state, HandshakeState::CollectingAddresses);
    assert_eq!(s.collected.len(), 2);

    // The second list overlaps the first; overlapping entries are not
    // collected twice.
    let second = ProtocolMessage::AddrList(vec![entry(2, 2), entry(3, 3), entry(1, 1)]);
    assert_eq!(session_step(&mut s, &SessionEvent::Received(second)), None);
    assert_eq!(
        s.collected,
        vec![
            PeerAddress::new(1, 0, 0, 1, 1),
            PeerAddress::new(2, 0, 0, 1, 2),
            PeerAddress::new(3, 0, 0, 1, 3),
        ]
    );
}

#[test]
fn cap_reached_closes_session() {
    let mut s = Session::new(2);
    s.state = HandshakeState::AwaitingGetAddrSent;
    let list = ProtocolMessage::AddrList(vec![entry(1, 1), entry(2, 2), entry(3, 3)]);
    let action = session_step(&mut s, &SessionEvent::Received(list));
    assert_eq!(action, Some(SessionAction::Close));
    assert_eq!(s.state, HandshakeState::Done);
    // The whole list is folded in before the cap is checked.
    assert_eq!(s.collected.len(), 3);
}

#[test]
fn stream_end_finishes_with_what_was_collected() {
    let mut s = Session::new(100);
    let action = session_step(&mut s, &SessionEvent::StreamEnded);
    assert_eq!(action, Some(SessionAction::Close));
    assert_eq!(s.state, HandshakeState::Done);
    assert!(s.collected.is_empty());
}

#[test]
fn decode_errors_change_nothing() {
    let mut s = Session::new(100);
    s.state = HandshakeState::CollectingAddresses;
    s.collected.push(PeerAddress::new(1, 0, 0, 1, 1));
    assert_eq!(session_step(&mut s, &SessionEvent::DecodeFailed), None);
    assert_eq!(s.state, HandshakeState::CollectingAddresses);
    assert_eq!(s.collected.len(), 1);
}

#[test]
fn addr_list_before_getaddr_is_ignored() {
    let mut s = Session::new(100);
    let list = ProtocolMessage::AddrList(vec![entry(1, 1)]);
    assert_eq!(session_step(&mut s, &SessionEvent::Received(list)), None);
    assert_eq!(s.state, HandshakeState::AwaitingVersion);
    assert!(s.collected.is_empty());
}
