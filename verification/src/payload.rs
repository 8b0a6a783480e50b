//! Payload encodings: variable-length integers, big-endian ports, network
//! addresses, and the version and address-list payload bodies, each with a
//! serializer, a parser, and a proof that parsing inverts serializing.

use vstd::prelude::*;

use crate::addr::{is_ipv4_mapped, mapped_ip_of, peer_of_mapped, NetAddr, PeerAddress, SpecNetAddr};
use crate::messages::{AddrEntry, SpecVersion, VersionPayload, MAX_PAYLOAD_LEN};
use vstd::bytes::{
    spec_u16_from_le_bytes, spec_u16_to_le_bytes, spec_u32_from_le_bytes, spec_u32_to_le_bytes,
    spec_u64_from_le_bytes, spec_u64_to_le_bytes, u16_from_le_bytes, u16_to_le_bytes,
    u32_from_le_bytes, u32_to_le_bytes, u64_from_le_bytes, u64_to_le_bytes,
    lemma_auto_spec_u16_to_from_le_bytes, lemma_auto_spec_u32_to_from_le_bytes,
    lemma_auto_spec_u64_to_from_le_bytes,
};
use vstd::slice::{slice_subrange, slice_to_vec};

verus! {

/// A big-endian 16-bit value read from two bytes.
pub open spec fn spec_be16(s: Seq<u8>) -> u16
    recommends
        s.len() == 2,
{
    ((s[0] as int) * 256 + (s[1] as int)) as u16
}

/// The two big-endian bytes of a 16-bit value.
pub open spec fn spec_be16_bytes(x: u16) -> Seq<u8> {
    seq![(x / 256) as u8, (x % 256) as u8]
}

pub proof fn lemma_be16_round_trip(x: u16)
    ensures
        spec_be16_bytes(x).len() == 2,
        spec_be16(spec_be16_bytes(x)) == x,
{
}

/// Reads a big-endian 16-bit value.
pub fn read_be16(s: &[u8]) -> (x: u16)
    requires
        s@.len() == 2,
    ensures
        x == spec_be16(s@),
{
    let hi = s[0];
    let lo = s[1];
    (hi as u16) * 256 + (lo as u16)
}

/// Appends a 16-bit value in big-endian order.
pub fn write_be16(out: &mut Vec<u8>, x: u16)
    ensures
        final(out)@ == old(out)@ + spec_be16_bytes(x),
{
    out.push((x / 256) as u8);
    out.push((x % 256) as u8);
    proof {
        assert(out@ =~= old(out)@ + spec_be16_bytes(x));
    }
}

/// A variable-length integer parsed at position `i`: the value and the
/// position just after it, or nothing when the bytes run out.
pub open spec fn spec_parse_varint(p: Seq<u8>, i: int) -> Option<(u64, int)>
    recommends
        0 <= i <= p.len(),
{
    if i < p.len() {
        let b = p[i];
        if b < 253 {
            Some((b as u64, i + 1))
        } else if b == 253 {
            if i + 3 <= p.len() {
                Some((spec_u16_from_le_bytes(p.subrange(i + 1, i + 3)) as u64, i + 3))
            } else {
                None
            }
        } else if b == 254 {
            if i + 5 <= p.len() {
                Some((spec_u32_from_le_bytes(p.subrange(i + 1, i + 5)) as u64, i + 5))
            } else {
                None
            }
        } else {
            if i + 9 <= p.len() {
                Some((spec_u64_from_le_bytes(p.subrange(i + 1, i + 9)), i + 9))
            } else {
                None
            }
        }
    } else {
        None
    }
}

/// The canonical serialization of a variable-length integer.
pub open spec fn spec_ser_varint(v: u64) -> Seq<u8> {
    if v < 253 {
        seq![v as u8]
    } else if v <= 0xFFFF {
        seq![253u8] + spec_u16_to_le_bytes(v as u16)
    } else if v <= 0xFFFF_FFFF {
        seq![254u8] + spec_u32_to_le_bytes(v as u32)
    } else {
        seq![255u8] + spec_u64_to_le_bytes(v)
    }
}

/// Parsing a serialized variable-length integer, at any position in any
/// surrounding bytes, yields the value back.
pub proof fn lemma_varint_round_trip(v: u64, prefix: Seq<u8>, suffix: Seq<u8>)
    ensures
        1 <= spec_ser_varint(v).len() <= 9,
        spec_parse_varint(prefix + spec_ser_varint(v) + suffix, prefix.len() as int)
            == Some((v, (prefix.len() + spec_ser_varint(v).len()) as int)),
{
    lemma_auto_spec_u16_to_from_le_bytes();
    lemma_auto_spec_u32_to_from_le_bytes();
    lemma_auto_spec_u64_to_from_le_bytes();
    let s = prefix + spec_ser_varint(v) + suffix;
    let i = prefix.len() as int;
    if v < 253 {
        assert(s[i] == v as u8);
    } else if v <= 0xFFFF {
        assert(s[i] == 253u8);
        assert(s.subrange(i + 1, i + 3) =~= spec_u16_to_le_bytes(v as u16));
    } else if v <= 0xFFFF_FFFF {
        assert(s[i] == 254u8);
        assert(s.subrange(i + 1, i + 5) =~= spec_u32_to_le_bytes(v as u32));
    } else {
        assert(s[i] == 255u8);
        assert(s.subrange(i + 1, i + 9) =~= spec_u64_to_le_bytes(v));
    }
}

/// Parses a variable-length integer at position `i`.
pub fn read_varint(p: &Vec<u8>, i: usize) -> (r: Option<(u64, usize)>)
    requires
        i <= p@.len(),
    ensures
        match r {
            None => spec_parse_varint(p@, i as int) is None,
            Some((v, j)) => j <= p@.len() && spec_parse_varint(p@, i as int) == Some((
                v,
                j as int,
            )),
        },
{
    if i >= p.len() {
        return None;
    }
    let b = p[i];
    if b < 253 {
        Some((b as u64, i + 1))
    } else if b == 253 {
        if p.len() - i >= 3 {
            let x = u16_from_le_bytes(slice_subrange(p.as_slice(), i + 1, i + 3));
            Some((x as u64, i + 3))
        } else {
            None
        }
    } else if b == 254 {
        if p.len() - i >= 5 {
            let x = u32_from_le_bytes(slice_subrange(p.as_slice(), i + 1, i + 5));
            Some((x as u64, i + 5))
        } else {
            None
        }
    } else {
        if p.len() - i >= 9 {
            let x = u64_from_le_bytes(slice_subrange(p.as_slice(), i + 1, i + 9));
            Some((x, i + 9))
        } else {
            None
        }
    }
}

/// Appends the canonical serialization of a variable-length integer.
pub fn write_varint(out: &mut Vec<u8>, v: u64)
    ensures
        final(out)@ == old(out)@ + spec_ser_varint(v),
{
    if v < 253 {
        out.push(v as u8);
        proof {
            assert(out@ =~= old(out)@ + spec_ser_varint(v));
        }
    } else if v <= 0xFFFF {
        out.push(253u8);
        let mut b = u16_to_le_bytes(v as u16);
        out.append(&mut b);
        proof {
            assert(out@ =~= old(out)@ + spec_ser_varint(v));
        }
    } else if v <= 0xFFFF_FFFF {
        out.push(254u8);
        let mut b = u32_to_le_bytes(v as u32);
        out.append(&mut b);
        proof {
            assert(out@ =~= old(out)@ + spec_ser_varint(v));
        }
    } else {
        out.push(255u8);
        let mut b = u64_to_le_bytes(v);
        out.append(&mut b);
        proof {
            assert(out@ =~= old(out)@ + spec_ser_varint(v));
        }
    }
}

/// Reads a little-endian 32-bit value at position `i`.
pub fn read_u32_at(p: &Vec<u8>, i: usize) -> (x: u32)
    requires
        i + 4 <= p.len(),
    ensures
        x == spec_u32_from_le_bytes(p@.subrange(i as int, i + 4)),
{
    u32_from_le_bytes(slice_subrange(p.as_slice(), i, i + 4))
}

/// Reads a little-endian 64-bit value at position `i`.
pub fn read_u64_at(p: &Vec<u8>, i: usize) -> (x: u64)
    requires
        i + 8 <= p.len(),
    ensures
        x == spec_u64_from_le_bytes(p@.subrange(i as int, i + 8)),
{
    u64_from_le_bytes(slice_subrange(p.as_slice(), i, i + 8))
}

/// Reads a big-endian 16-bit value at position `i`.
pub fn read_be16_at(p: &Vec<u8>, i: usize) -> (x: u16)
    requires
        i + 2 <= p.len(),
    ensures
        x == spec_be16(p@.subrange(i as int, i + 2)),
{
    read_be16(slice_subrange(p.as_slice(), i, i + 2))
}

/// A network address parsed at position `i`: 8 bytes of services, 16
/// address bytes, and a big-endian port.
pub open spec fn spec_parse_netaddr(p: Seq<u8>, i: int) -> SpecNetAddr
    recommends
        0 <= i,
        i + 26 <= p.len(),
{
    SpecNetAddr {
        services: spec_u64_from_le_bytes(p.subrange(i, i + 8)),
        ip: p.subrange(i + 8, i + 24),
        port: spec_be16(p.subrange(i + 24, i + 26)),
    }
}

/// The 26-byte serialization of a network address.
pub open spec fn spec_ser_netaddr(a: SpecNetAddr) -> Seq<u8> {
    spec_u64_to_le_bytes(a.services) + a.ip + spec_be16_bytes(a.port)
}

/// Parsing a serialized network address, at its position in any
/// surrounding bytes, yields the address back.
pub proof fn lemma_netaddr_round_trip(a: SpecNetAddr, prefix: Seq<u8>, suffix: Seq<u8>)
    requires
        a.wf(),
    ensures
        spec_ser_netaddr(a).len() == 26,
        spec_parse_netaddr(prefix + spec_ser_netaddr(a) + suffix, prefix.len() as int) == a,
{
    lemma_auto_spec_u64_to_from_le_bytes();
    let s = prefix + spec_ser_netaddr(a) + suffix;
    let i = prefix.len() as int;
    assert(s.subrange(i, i + 8) =~= spec_u64_to_le_bytes(a.services));
    assert(s.subrange(i + 8, i + 24) =~= a.ip);
    assert(s.subrange(i + 24, i + 26) =~= spec_be16_bytes(a.port));
    lemma_be16_round_trip(a.port);
}

/// Parses a network address at position `i`.
pub fn parse_netaddr_at(p: &Vec<u8>, i: usize) -> (r: NetAddr)
    requires
        i + 26 <= p.len(),
    ensures
        r@ == spec_parse_netaddr(p@, i as int),
        r@.wf(),
{
    let services = read_u64_at(p, i);
    let ip = slice_to_vec(slice_subrange(p.as_slice(), i + 8, i + 24));
    let port = read_be16_at(p, i + 24);
    NetAddr { services, ip, port }
}

/// Appends the 26-byte serialization of a network address.
pub fn write_netaddr(out: &mut Vec<u8>, a: &NetAddr)
    requires
        a@.wf(),
    ensures
        final(out)@ == old(out)@ + spec_ser_netaddr(a@),
{
    let mut b = u64_to_le_bytes(a.services);
    out.append(&mut b);
    let mut ip = slice_to_vec(a.ip.as_slice());
    out.append(&mut ip);
    write_be16(out, a.port);
    proof {
        assert(out@ =~= old(out)@ + spec_ser_netaddr(a@));
    }
}

/// A well-formed version body: 16-byte wire addresses and a user agent
/// short enough for the whole payload to stay under the frame limit.
pub open spec fn wf_version(v: SpecVersion) -> bool {
    &&& v.receiver.wf()
    &&& v.sender.wf()
    &&& v.user_agent.len() + 94 <= MAX_PAYLOAD_LEN
}

/// The version body parsed from a payload: fixed fields at fixed offsets,
/// then the length-prefixed user agent, the start height, and the relay
/// flag, with no bytes left over.
pub open spec fn spec_parse_version(p: Seq<u8>) -> Option<SpecVersion> {
    if p.len() >= 86 {
        match spec_parse_varint(p, 80) {
            None => None,
            Some((ua_len, after)) => if after + ua_len + 5 == p.len() {
                Some(
                    SpecVersion {
                        version: spec_u32_from_le_bytes(p.subrange(0, 4)),
                        services: spec_u64_from_le_bytes(p.subrange(4, 12)),
                        timestamp: spec_u64_from_le_bytes(p.subrange(12, 20)),
                        receiver: spec_parse_netaddr(p, 20),
                        sender: spec_parse_netaddr(p, 46),
                        nonce: spec_u64_from_le_bytes(p.subrange(72, 80)),
                        user_agent: p.subrange(after, after + ua_len),
                        start_height: spec_u32_from_le_bytes(
                            p.subrange(after + ua_len, after + ua_len + 4),
                        ),
                        relay: p[p.len() - 1] != 0,
                    },
                )
            } else {
                None
            },
        }
    } else {
        None
    }
}

/// The serialization of a version body.
pub open spec fn spec_ser_version(v: SpecVersion) -> Seq<u8> {
    spec_u32_to_le_bytes(v.version) + spec_u64_to_le_bytes(v.services) + spec_u64_to_le_bytes(
        v.timestamp,
    ) + spec_ser_netaddr(v.receiver) + spec_ser_netaddr(v.sender) + spec_u64_to_le_bytes(v.nonce)
        + spec_ser_varint(v.user_agent.len() as u64) + v.user_agent + spec_u32_to_le_bytes(
        v.start_height,
    ) + seq![if v.relay { 1u8 } else { 0u8 }]
}

/// Parsing a serialized version body yields the body back.
pub proof fn lemma_version_round_trip(v: SpecVersion)
    requires
        wf_version(v),
    ensures
        86 <= spec_ser_version(v).len() <= MAX_PAYLOAD_LEN,
        spec_parse_version(spec_ser_version(v)) == Some(v),
{
    lemma_auto_spec_u32_to_from_le_bytes();
    lemma_auto_spec_u64_to_from_le_bytes();
    let ua_len = v.user_agent.len() as u64;
    let vi = spec_ser_varint(ua_len);
    let p20 = spec_u32_to_le_bytes(v.version) + spec_u64_to_le_bytes(v.services)
        + spec_u64_to_le_bytes(v.timestamp);
    let head = p20 + spec_ser_netaddr(v.receiver) + spec_ser_netaddr(v.sender)
        + spec_u64_to_le_bytes(v.nonce);
    let tail = v.user_agent + spec_u32_to_le_bytes(v.start_height) + seq![
        if v.relay {
            1u8
        } else {
            0u8
        },
    ];
    let s = spec_ser_version(v);
    lemma_netaddr_round_trip(v.receiver, p20, Seq::<u8>::empty());
    lemma_netaddr_round_trip(v.sender, p20, Seq::<u8>::empty());
    assert(head.len() == 80);
    lemma_varint_round_trip(ua_len, head, tail);
    assert(s =~= head + vi + tail);
    let after = 80 + vi.len() as int;
    assert(spec_parse_varint(s, 80) == Some((ua_len, after)));
    assert(after + ua_len + 5 == s.len());
    assert(s.subrange(0, 4) =~= spec_u32_to_le_bytes(v.version));
    assert(s.subrange(4, 12) =~= spec_u64_to_le_bytes(v.services));
    assert(s.subrange(12, 20) =~= spec_u64_to_le_bytes(v.timestamp));
    let suffix_r = spec_ser_netaddr(v.sender) + spec_u64_to_le_bytes(v.nonce) + vi + tail;
    assert(s =~= p20 + spec_ser_netaddr(v.receiver) + suffix_r);
    lemma_netaddr_round_trip(v.receiver, p20, suffix_r);
    assert(spec_parse_netaddr(s, 20) == v.receiver);
    let p46 = p20 + spec_ser_netaddr(v.receiver);
    let suffix_s = spec_u64_to_le_bytes(v.nonce) + vi + tail;
    assert(s =~= p46 + spec_ser_netaddr(v.sender) + suffix_s);
    lemma_netaddr_round_trip(v.sender, p46, suffix_s);
    assert(spec_parse_netaddr(s, 46) == v.sender);
    assert(s.subrange(72, 80) =~= spec_u64_to_le_bytes(v.nonce));
    assert(s.subrange(after, after + ua_len) =~= v.user_agent);
    assert(s.subrange(after + ua_len, after + ua_len + 4) =~= spec_u32_to_le_bytes(
        v.start_height,
    ));
    assert(s[s.len() - 1] == (if v.relay { 1u8 } else { 0u8 }));
    assert(spec_parse_version(s) == Some(v));
}

/// Parses a version body.
pub fn parse_version(p: &Vec<u8>) -> (r: Option<VersionPayload>)
    ensures
        match r {
            None => spec_parse_version(p@) is None,
            Some(m) => spec_parse_version(p@) == Some(m@),
        },
{
    if p.len() < 86 {
        return None;
    }
    match read_varint(p, 80) {
        None => None,
        Some((ua_len, after)) => {
            if p.len() - after < 5 {
                return None;
            }
            let room = p.len() - after - 5;
            if ua_len != room as u64 {
                return None;
            }
            let ua_end = after + room;
            let version = read_u32_at(p, 0);
            let services = read_u64_at(p, 4);
            let timestamp = read_u64_at(p, 12);
            let receiver = parse_netaddr_at(p, 20);
            let sender = parse_netaddr_at(p, 46);
            let nonce = read_u64_at(p, 72);
            let user_agent = slice_to_vec(slice_subrange(p.as_slice(), after, ua_end));
            let start_height = read_u32_at(p, ua_end);
            let relay = p[p.len() - 1] != 0;
            Some(
                VersionPayload {
                    version,
                    services,
                    timestamp,
                    receiver,
                    sender,
                    nonce,
                    user_agent,
                    start_height,
                    relay,
                },
            )
        },
    }
}

/// Serializes a version body.
pub fn ser_version(v: &VersionPayload) -> (out: Vec<u8>)
    requires
        v@.receiver.wf(),
        v@.sender.wf(),
    ensures
        out@ == spec_ser_version(v@),
{
    let mut out: Vec<u8> = Vec::new();
    let mut b = u32_to_le_bytes(v.version);
    out.append(&mut b);
    let mut b = u64_to_le_bytes(v.services);
    out.append(&mut b);
    let mut b = u64_to_le_bytes(v.timestamp);
    out.append(&mut b);
    write_netaddr(&mut out, &v.receiver);
    write_netaddr(&mut out, &v.sender);
    let mut b = u64_to_le_bytes(v.nonce);
    out.append(&mut b);
    write_varint(&mut out, v.user_agent.len() as u64);
    let mut ua = slice_to_vec(v.user_agent.as_slice());
    out.append(&mut ua);
    let mut b = u32_to_le_bytes(v.start_height);
    out.append(&mut b);
    out.push(if v.relay { 1u8 } else { 0u8 });
    proof {
        assert(out@ =~= spec_ser_version(v@));
    }
    out
}

/// The 30-byte serialization of one address-list entry: last-seen time,
/// services, the IPv4-mapped address, and the big-endian port.
pub open spec fn spec_ser_entry(e: AddrEntry) -> Seq<u8> {
    spec_u32_to_le_bytes(e.time) + spec_u64_to_le_bytes(e.services) + mapped_ip_of(e.addr)
        + spec_be16_bytes(e.addr.port)
}

/// The serialization of a sequence of address-list entries.
pub open spec fn spec_ser_entries(es: Seq<AddrEntry>) -> Seq<u8>
    decreases es.len(),
{
    if es.len() == 0 {
        Seq::empty()
    } else {
        spec_ser_entry(es[0]) + spec_ser_entries(es.subrange(1, es.len() as int))
    }
}

pub proof fn lemma_ser_entries_len(es: Seq<AddrEntry>)
    ensures
        spec_ser_entries(es).len() == 30 * es.len(),
    decreases es.len(),
{
    lemma_auto_spec_u32_to_from_le_bytes();
    lemma_auto_spec_u64_to_from_le_bytes();
    if es.len() > 0 {
        lemma_ser_entries_len(es.subrange(1, es.len() as int));
    }
}

/// `n` address-list entries parsed from position `i` to the end of the
/// payload; entries that are not IPv4 are skipped.
pub open spec fn spec_parse_entries(p: Seq<u8>, i: int, n: nat) -> Option<Seq<AddrEntry>>
    recommends
        0 <= i,
    decreases n,
{
    if n == 0 {
        if i == p.len() {
            Some(Seq::empty())
        } else {
            None
        }
    } else if i + 30 <= p.len() {
        match spec_parse_entries(p, i + 30, (n - 1) as nat) {
            None => None,
            Some(rest) => {
                let ip = p.subrange(i + 12, i + 28);
                if is_ipv4_mapped(ip) {
                    Some(
                        seq![
                            AddrEntry {
                                time: spec_u32_from_le_bytes(p.subrange(i, i + 4)),
                                services: spec_u64_from_le_bytes(p.subrange(i + 4, i + 12)),
                                addr: peer_of_mapped(ip, spec_be16(p.subrange(i + 28, i + 30))),
                            },
                        ] + rest,
                    )
                } else {
                    Some(rest)
                }
            },
        }
    } else {
        None
    }
}

/// The address-list body parsed from a payload: a count, then that many
/// 30-byte entries, with no bytes left over.
pub open spec fn spec_parse_addr(p: Seq<u8>) -> Option<Seq<AddrEntry>> {
    match spec_parse_varint(p, 0) {
        None => None,
        Some((n, after)) => spec_parse_entries(p, after, n as nat),
    }
}

/// The serialization of an address-list body.
pub open spec fn spec_ser_addr(es: Seq<AddrEntry>) -> Seq<u8> {
    spec_ser_varint(es.len() as u64) + spec_ser_entries(es)
}

/// When fewer than `30 * n` bytes remain, parsing `n` entries fails.
pub proof fn lemma_entries_insufficient(p: Seq<u8>, i: int, n: nat)
    requires
        0 <= i,
        i + 30 * n > p.len(),
    ensures
        spec_parse_entries(p, i, n) is None,
    decreases n,
{
    if n > 0 && i + 30 <= p.len() {
        lemma_entries_insufficient(p, i + 30, (n - 1) as nat);
    }
}

/// Parsing serialized entries, after any prefix, yields the entries back.
pub proof fn lemma_entries_round_trip(es: Seq<AddrEntry>, prefix: Seq<u8>)
    ensures
        spec_parse_entries(prefix + spec_ser_entries(es), prefix.len() as int, es.len())
            == Some(es),
    decreases es.len(),
{
    lemma_ser_entries_len(es);
    let p = prefix + spec_ser_entries(es);
    let i = prefix.len() as int;
    if es.len() == 0 {
        assert(p =~= prefix);
        assert(es =~= Seq::<AddrEntry>::empty());
    } else {
        lemma_auto_spec_u32_to_from_le_bytes();
        lemma_auto_spec_u64_to_from_le_bytes();
        let e = es[0];
        let rest = es.subrange(1, es.len() as int);
        let prefix2 = prefix + spec_ser_entry(e);
        lemma_entries_round_trip(rest, prefix2);
        assert(p =~= prefix2 + spec_ser_entries(rest));
        assert(spec_parse_entries(p, i + 30, rest.len()) == Some(rest));
        lemma_be16_round_trip(e.addr.port);
        assert(p.subrange(i, i + 4) =~= spec_u32_to_le_bytes(e.time));
        assert(p.subrange(i + 4, i + 12) =~= spec_u64_to_le_bytes(e.services));
        assert(p.subrange(i + 12, i + 28) =~= mapped_ip_of(e.addr));
        assert(p.subrange(i + 28, i + 30) =~= spec_be16_bytes(e.addr.port));
        crate::addr::lemma_mapped_ip_round_trip(e.addr, e.addr.port);
        assert(peer_of_mapped(mapped_ip_of(e.addr), e.addr.port) == e.addr);
        assert(seq![e] + rest =~= es);
    }
}

/// Parsing a serialized address list yields the entries back.
pub proof fn lemma_addr_round_trip(es: Seq<AddrEntry>)
    requires
        es.len() <= u64::MAX,
    ensures
        spec_ser_addr(es).len() == spec_ser_varint(es.len() as u64).len() + 30 * es.len(),
        spec_parse_addr(spec_ser_addr(es)) == Some(es),
{
    lemma_ser_entries_len(es);
    lemma_varint_round_trip(es.len() as u64, Seq::<u8>::empty(), spec_ser_entries(es));
    let s = spec_ser_addr(es);
    let vi = spec_ser_varint(es.len() as u64);
    assert(s =~= Seq::<u8>::empty() + vi + spec_ser_entries(es));
    assert(spec_parse_varint(s, 0) == Some((es.len() as u64, vi.len() as int)));
    lemma_entries_round_trip(es, vi);
    assert(s =~= vi + spec_ser_entries(es));
}

/// Whether the 16 bytes at position `i` are an IPv4-mapped address.
pub fn is_mapped_at(p: &Vec<u8>, i: usize) -> (r: bool)
    requires
        i + 16 <= p.len(),
    ensures
        r == is_ipv4_mapped(p@.subrange(i as int, i + 16)),
{
    let ghost ip = p@.subrange(i as int, i + 16);
    let mut j: usize = 0;
    while j < 10
        invariant
            j <= 10,
            i + 16 <= p.len(),
            ip == p@.subrange(i as int, i + 16),
            forall|k: int| 0 <= k < j ==> ip[k] == 0u8,
        decreases 10 - j,
    {
        if p[i + j] != 0u8 {
            proof {
                assert(ip[j as int] == p@[i + j]);
            }
            return false;
        }
        proof {
            assert(ip[j as int] == p@[i + j]);
        }
        j = j + 1;
    }
    proof {
        assert(ip[10] == p@[i + 10]);
        assert(ip[11] == p@[i + 11]);
    }
    p[i + 10] == 0xffu8 && p[i + 11] == 0xffu8
}

/// Parses an address-list body, keeping the IPv4 entries.
pub fn parse_addr_payload(p: &Vec<u8>) -> (r: Option<Vec<AddrEntry>>)
    ensures
        match r {
            None => spec_parse_addr(p@) is None,
            Some(entries) => spec_parse_addr(p@) == Some(entries@),
        },
{
    match read_varint(p, 0) {
        None => None,
        Some((n, after)) => {
            let remaining = p.len() - after;
            if n > (remaining / 30) as u64 {
                proof {
                    lemma_entries_insufficient(p@, after as int, n as nat);
                }
                return None;
            }
            let count = n as usize;
            let mut out: Vec<AddrEntry> = Vec::new();
            let mut pos = after;
            let mut k: usize = 0;
            while k < count
                invariant
                    k <= count,
                    after + 30 * count <= p.len(),
                    pos == after + 30 * k,
                    count == n as nat,
                    match spec_parse_entries(p@, pos as int, (count - k) as nat) {
                        None => spec_parse_entries(p@, after as int, count as nat) is None,
                        Some(rest) => spec_parse_entries(p@, after as int, count as nat) == Some(
                            out@ + rest,
                        ),
                    },
                decreases count - k,
            {
                let ghost out0 = out@;
                let ghost pos0 = pos as int;
                let ghost rem0 = (count - k) as nat;
                let ghost ip = p@.subrange(pos0 + 12, pos0 + 28);
                let ghost e_spec = AddrEntry {
                    time: spec_u32_from_le_bytes(p@.subrange(pos0, pos0 + 4)),
                    services: spec_u64_from_le_bytes(p@.subrange(pos0 + 4, pos0 + 12)),
                    addr: peer_of_mapped(ip, spec_be16(p@.subrange(pos0 + 28, pos0 + 30))),
                };
                let time = read_u32_at(p, pos);
                let services = read_u64_at(p, pos + 4);
                if is_mapped_at(p, pos + 12) {
                    let port = read_be16_at(p, pos + 28);
                    let ip0 = p[pos + 24];
                    let ip1 = p[pos + 25];
                    let ip2 = p[pos + 26];
                    let ip3 = p[pos + 27];
                    proof {
                        assert(ip[12] == p@[pos0 + 24] && ip[13] == p@[pos0 + 25] && ip[14] == p@[
                            pos0 + 26
                        ] && ip[15] == p@[pos0 + 27]);
                    }
                    out.push(
                        AddrEntry { time, services, addr: PeerAddress { ip0, ip1, ip2, ip3, port } },
                    );
                    proof {
                        assert(out@ == out0 + seq![e_spec]);
                    }
                }
                pos = pos + 30;
                k = k + 1;
                proof {
                    let inner = spec_parse_entries(p@, pos0 + 30, (rem0 - 1) as nat);
                    assert(spec_parse_entries(p@, pos as int, (count - k) as nat) == inner);
                    if inner is Some {
                        let rest2 = inner->0;
                        if is_ipv4_mapped(ip) {
                            assert(spec_parse_entries(p@, pos0, rem0) == Some(
                                seq![e_spec] + rest2,
                            ));
                            assert(out0 + (seq![e_spec] + rest2) =~= (out0 + seq![e_spec])
                                + rest2);
                        } else {
                            assert(spec_parse_entries(p@, pos0, rem0) == Some(rest2));
                        }
                    }
                }
            }
            if pos == p.len() {
                proof {
                    assert(out@ + Seq::<AddrEntry>::empty() =~= out@);
                }
                Some(out)
            } else {
                None
            }
        },
    }
}

/// Serializing one more entry extends the serialization of the prefix.
pub proof fn lemma_ser_entries_snoc(es: Seq<AddrEntry>, k: int)
    requires
        0 <= k < es.len(),
    ensures
        spec_ser_entries(es.subrange(0, k + 1)) == spec_ser_entries(es.subrange(0, k))
            + spec_ser_entry(es[k]),
    decreases k,
{
    let b = es.subrange(0, k + 1);
    if k == 0 {
        assert(b.subrange(1, 1) =~= Seq::<AddrEntry>::empty());
        assert(spec_ser_entries(Seq::<AddrEntry>::empty()) =~= Seq::<u8>::empty());
        assert(spec_ser_entries(b) == spec_ser_entry(b[0]) + spec_ser_entries(
            b.subrange(1, b.len() as int),
        ));
        assert(spec_ser_entries(b) =~= spec_ser_entry(es[0]));
        assert(es.subrange(0, 0) =~= Seq::<AddrEntry>::empty());
        assert(spec_ser_entries(es.subrange(0, 0)) + spec_ser_entry(es[0]) =~= spec_ser_entry(
            es[0],
        ));
    } else {
        let t = es.subrange(1, es.len() as int);
        lemma_ser_entries_snoc(t, k - 1);
        assert(b.subrange(1, k + 1) =~= t.subrange(0, k));
        assert(es.subrange(0, k).subrange(1, k) =~= t.subrange(0, k - 1));
        assert(t[k - 1] == es[k]);
        assert(spec_ser_entries(b) == spec_ser_entry(es[0]) + spec_ser_entries(t.subrange(0, k)));
        assert(spec_ser_entries(es.subrange(0, k)) == spec_ser_entry(es[0]) + spec_ser_entries(
            t.subrange(0, k - 1),
        ));
        assert(spec_ser_entry(es[0]) + (spec_ser_entries(t.subrange(0, k - 1)) + spec_ser_entry(
            es[k],
        )) =~= (spec_ser_entry(es[0]) + spec_ser_entries(t.subrange(0, k - 1))) + spec_ser_entry(
            es[k],
        ));
    }
}

/// Appends the 16-byte IPv4-mapped form of an endpoint.
pub fn write_mapped_ip(out: &mut Vec<u8>, a: PeerAddress)
    ensures
        final(out)@ == old(out)@ + mapped_ip_of(a),
{
    out.push(0u8);
    out.push(0u8);
    out.push(0u8);
    out.push(0u8);
    out.push(0u8);
    out.push(0u8);
    out.push(0u8);
    out.push(0u8);
    out.push(0u8);
    out.push(0u8);
    out.push(0xffu8);
    out.push(0xffu8);
    out.push(a.ip0);
    out.push(a.ip1);
    out.push(a.ip2);
    out.push(a.ip3);
    proof {
        assert(out@ =~= old(out)@ + mapped_ip_of(a));
    }
}

/// Serializes an address-list body.
pub fn ser_addr_payload(entries: &Vec<AddrEntry>) -> (out: Vec<u8>)
    ensures
        out@ == spec_ser_addr(entries@),
{
    let mut out: Vec<u8> = Vec::new();
    write_varint(&mut out, entries.len() as u64);
    let ghost vi = spec_ser_varint(entries@.len() as u64);
    proof {
        assert(out@ =~= vi);
    }
    let mut k: usize = 0;
    while k < entries.len()
        invariant
            k <= entries@.len(),
            vi == spec_ser_varint(entries@.len() as u64),
            out@ == vi + spec_ser_entries(entries@.subrange(0, k as int)),
        decreases entries@.len() - k,
    {
        let ghost before = out@;
        let e = entries[k];
        let mut b = u32_to_le_bytes(e.time);
        out.append(&mut b);
        let mut b = u64_to_le_bytes(e.services);
        out.append(&mut b);
        write_mapped_ip(&mut out, e.addr);
        write_be16(&mut out, e.addr.port);
        proof {
            lemma_ser_entries_snoc(entries@, k as int);
            assert(out@ =~= before + spec_ser_entry(entries@[k as int]));
            assert(out@ =~= vi + spec_ser_entries(entries@.subrange(0, k + 1)));
        }
        k = k + 1;
    }
    proof {
        assert(entries@.subrange(0, entries@.len() as int) =~= entries@);
    }
    out
}

} // verus!
