use peer_crawler::addr::{is_ipv4, NetAddr, PeerAddress};
use peer_crawler::messaging::version_message_now;

#[test]
fn test_build_version_message() {
    let receiver_address = PeerAddress::new(192, 168, 1, 1, 8333);
    let sender_address = PeerAddress::new(192, 168, 1, 2, 8333);
    let user_agent = b"/Satoshi:0.21.0/".to_vec();

    let version_message = version_message_now(&receiver_address, &sender_address, &user_agent);

    const EXPECTED_VERSION: u32 = 70001;
    assert_eq!(version_message.version, EXPECTED_VERSION);
    assert_eq!(version_message.services, 0);
    assert_eq!(version_message.start_height, 0);
    assert_eq!(version_message.user_agent, user_agent);
    assert_eq!(version_message.receiver.services, 0);
    assert_eq!(version_message.sender.services, 0);
    assert!(version_message.timestamp > 0); // Ensure timestamp is a positive value
    assert!(version_message.nonce > 0); // Ensure nonce is a positive value
}

#[test]
fn test_is_ipv4() {
    let socket_addr_v4 = PeerAddress::new(192, 168, 1, 1, 8333);
    let ipv4_address = NetAddr::from_ipv4(&socket_addr_v4, 0);

    assert!(is_ipv4(&ipv4_address));
}

#[test]
fn non_mapped_address_is_not_ipv4() {
    let na = NetAddr {
        services: 0,
        ip: vec![0x20, 0x01, 0x0d, 0xb8, 0, 0, 0, 0, 0, 0, 0, 0, 0, 0, 0, 1],
        port: 8333,
    };
    assert!(!is_ipv4(&na));
}
