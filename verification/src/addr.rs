//! Peer endpoints and the 16-byte network form in which the wire protocol
//! carries them. Only IPv4 endpoints (carried as IPv4-mapped addresses)
//! are retained by the crawler.

use vstd::prelude::*;

verus! {

/// A peer endpoint: an IPv4 address (four octets) and a port.
#[derive(Clone, Copy, Debug, PartialEq, Eq, Hash, Structural)]
pub struct PeerAddress {
    pub ip0: u8,
    pub ip1: u8,
    pub ip2: u8,
    pub ip3: u8,
    pub port: u16,
}

impl PeerAddress {
    pub fn new(ip0: u8, ip1: u8, ip2: u8, ip3: u8, port: u16) -> (r: PeerAddress)
        ensures
            r == (PeerAddress { ip0, ip1, ip2, ip3, port }),
    {
        PeerAddress { ip0, ip1, ip2, ip3, port }
    }
}

/// A network address as the wire carries it inside a version message:
/// advertised services, a 16-byte address, and a port.
#[derive(Clone, Debug, PartialEq, Eq)]
pub struct NetAddr {
    pub services: u64,
    pub ip: Vec<u8>,
    pub port: u16,
}

/// Mathematical model of a [`NetAddr`].
pub struct SpecNetAddr {
    pub services: u64,
    pub ip: Seq<u8>,
    pub port: u16,
}

impl View for NetAddr {
    type V = SpecNetAddr;

    open spec fn view(&self) -> SpecNetAddr {
        SpecNetAddr { services: self.services, ip: self.ip@, port: self.port }
    }
}

impl SpecNetAddr {
    /// A well-formed wire address carries exactly 16 address bytes.
    pub open spec fn wf(self) -> bool {
        self.ip.len() == 16
    }
}

/// Whether a 16-byte wire address is an IPv4-mapped address
/// (ten zero bytes, two 0xff bytes, then the four IPv4 octets).
pub open spec fn is_ipv4_mapped(ip: Seq<u8>) -> bool {
    &&& ip.len() == 16
    &&& (forall|i: int| 0 <= i < 10 ==> ip[i] == 0)
    &&& ip[10] == 0xff
    &&& ip[11] == 0xff
}

/// The 16-byte IPv4-mapped form of an IPv4 endpoint.
pub open spec fn mapped_ip_of(a: PeerAddress) -> Seq<u8> {
    seq![0u8, 0u8, 0u8, 0u8, 0u8, 0u8, 0u8, 0u8, 0u8, 0u8, 0xffu8, 0xffu8, a.ip0, a.ip1, a.ip2, a.ip3]
}

/// The endpoint read back out of an IPv4-mapped wire address.
pub open spec fn peer_of_mapped(ip: Seq<u8>, port: u16) -> PeerAddress
    recommends
        is_ipv4_mapped(ip),
{
    PeerAddress { ip0: ip[12], ip1: ip[13], ip2: ip[14], ip3: ip[15], port }
}

/// Mapping an endpoint into wire form and reading it back is the identity.
pub proof fn lemma_mapped_ip_round_trip(a: PeerAddress, port: u16)
    ensures
        is_ipv4_mapped(mapped_ip_of(a)),
        peer_of_mapped(mapped_ip_of(a), port) == (PeerAddress {
            ip0: a.ip0,
            ip1: a.ip1,
            ip2: a.ip2,
            ip3: a.ip3,
            port,
        }),
{
}

impl NetAddr {
    /// The wire address advertising an IPv4 endpoint with the given services.
    pub fn from_ipv4(a: &PeerAddress, services: u64) -> (r: NetAddr)
        ensures
            r@.services == services,
            r@.ip == mapped_ip_of(*a),
            r@.port == a.port,
            r@.wf(),
            is_ipv4_mapped(r@.ip),
    {
        let mut ip: Vec<u8> = Vec::new();
        let mut i: usize = 0;
        while i < 10
            invariant
                i <= 10,
                ip@.len() == i,
                forall|j: int| 0 <= j < i ==> ip@[j] == 0u8,
            decreases 10 - i,
        {
            ip.push(0u8);
            i = i + 1;
        }
        ip.push(0xffu8);
        ip.push(0xffu8);
        ip.push(a.ip0);
        ip.push(a.ip1);
        ip.push(a.ip2);
        ip.push(a.ip3);
        proof {
            assert(ip@ =~= mapped_ip_of(*a));
        }
        NetAddr { services, ip, port: a.port }
    }
}

/// Whether the address is an IPv4 endpoint in its wire form.
pub fn is_ipv4(address: &NetAddr) -> (r: bool)
    ensures
        r == is_ipv4_mapped(address@.ip),
{
    if address.ip.len() != 16 {
        return false;
    }
    let mut i: usize = 0;
    while i < 10
        invariant
            i <= 10,
            address.ip@.len() == 16,
            forall|j: int| 0 <= j < i ==> address.ip@[j] == 0u8,
        decreases 10 - i,
    {
        if address.ip[i] != 0u8 {
            return false;
        }
        i = i + 1;
    }
    address.ip[10] == 0xffu8 && address.ip[11] == 0xffu8
}

} // verus!
