//! The wire codec: framing of protocol messages (magic, command, payload
//! length, checksum, payload), a buffering decoder that tolerates frames
//! split at arbitrary read boundaries, and the codec laws: decoding is
//! split-invariant, decoding inverts encoding, and a corrupted frame is a
//! recoverable error that leaves later frames intact.

use vstd::prelude::*;

use crate::digest::{checksum_bytes, compute_checksum};
use crate::messages::{
    cmd_addr, cmd_getaddr, cmd_verack, cmd_version, is_known_command, ProtocolMessage,
    SpecMessage, MAX_PAYLOAD_LEN,
};
use crate::payload::{
    lemma_addr_round_trip, lemma_varint_round_trip, lemma_version_round_trip, parse_addr_payload,
    parse_version, read_u32_at, ser_addr_payload, ser_version, spec_parse_addr,
    spec_parse_version, spec_ser_addr, spec_ser_version, wf_version,
};
use vstd::bytes::{spec_u32_from_le_bytes, spec_u32_to_le_bytes, u32_to_le_bytes,
    lemma_auto_spec_u32_to_from_le_bytes};
use vstd::slice::{slice_subrange, slice_to_vec};

verus! {

/// The network magic that opens every frame.
pub open spec fn spec_magic() -> Seq<u8> {
    seq![0xf9u8, 0xbeu8, 0xb4u8, 0xd9u8]
}

/// Why a frame failed to decode. Each of these is recoverable: the frame
/// is dropped and decoding continues with the bytes that follow it.
#[derive(Clone, Copy, Debug, PartialEq, Eq, Structural)]
pub enum DecodeError {
    BadMagic,
    OversizedLength,
    ChecksumMismatch,
    MalformedPayload,
}

/// One decoded item of a byte stream: a message, or a recoverable error.
pub enum SpecDecoded {
    Good(SpecMessage),
    Bad(DecodeError),
}

/// What the decoder does with the bytes it has: waits for more, or
/// produces one item and consumes `k` bytes.
pub enum StepResult {
    Incomplete,
    Step(SpecDecoded, int),
}

/// The command name a message is framed under.
pub open spec fn spec_command_of(m: SpecMessage) -> Seq<u8> {
    match m {
        SpecMessage::Version(_) => cmd_version(),
        SpecMessage::Verack => cmd_verack(),
        SpecMessage::GetAddr => cmd_getaddr(),
        SpecMessage::AddrList(_) => cmd_addr(),
        SpecMessage::Other { command, payload: _ } => command,
    }
}

/// The payload bytes a message is framed with.
pub open spec fn spec_payload_of(m: SpecMessage) -> Seq<u8> {
    match m {
        SpecMessage::Version(v) => spec_ser_version(v),
        SpecMessage::Verack => Seq::empty(),
        SpecMessage::GetAddr => Seq::empty(),
        SpecMessage::AddrList(es) => spec_ser_addr(es),
        SpecMessage::Other { command: _, payload } => payload,
    }
}

/// A message the codec can frame: its payload fits under the length
/// limit, and an opaque message carries a 12-byte command of its own.
pub open spec fn wf_message(m: SpecMessage) -> bool {
    match m {
        SpecMessage::Version(v) => wf_version(v),
        SpecMessage::Verack => true,
        SpecMessage::GetAddr => true,
        SpecMessage::AddrList(es) => es.len() <= u64::MAX && 9 + 30 * es.len()
            <= MAX_PAYLOAD_LEN,
        SpecMessage::Other { command, payload } => command.len() == 12 && !is_known_command(
            command,
        ) && payload.len() <= MAX_PAYLOAD_LEN,
    }
}

/// A frame around a payload: magic, command, little-endian payload
/// length, the given four checksum bytes, then the payload.
pub open spec fn spec_frame(command: Seq<u8>, payload: Seq<u8>, checksum: Seq<u8>) -> Seq<u8> {
    spec_magic() + command + spec_u32_to_le_bytes(payload.len() as u32) + checksum + payload
}

/// The encoding of a message: its frame with the payload's own checksum.
pub open spec fn spec_encode(m: SpecMessage) -> Seq<u8> {
    spec_frame(spec_command_of(m), spec_payload_of(m), checksum_bytes(spec_payload_of(m)))
}

/// A payload interpreted under its command name.
pub open spec fn spec_parse_payload(cmd: Seq<u8>, payload: Seq<u8>) -> Option<SpecMessage> {
    if cmd == cmd_version() {
        match spec_parse_version(payload) {
            Some(v) => Some(SpecMessage::Version(v)),
            None => None,
        }
    } else if cmd == cmd_verack() {
        if payload.len() == 0 {
            Some(SpecMessage::Verack)
        } else {
            None
        }
    } else if cmd == cmd_getaddr() {
        if payload.len() == 0 {
            Some(SpecMessage::GetAddr)
        } else {
            None
        }
    } else if cmd == cmd_addr() {
        match spec_parse_addr(payload) {
            Some(es) => Some(SpecMessage::AddrList(es)),
            None => None,
        }
    } else {
        Some(SpecMessage::Other { command: cmd, payload })
    }
}

/// One decoding step on buffered bytes. A frame with a bad magic or an
/// implausible declared length loses its 24-byte header; a complete frame
/// with a wrong checksum or a malformed payload is dropped whole; a
/// complete, sound frame yields its message.
pub open spec fn spec_step(b: Seq<u8>) -> StepResult {
    if b.len() < 24 {
        StepResult::Incomplete
    } else if b.subrange(0, 4) != spec_magic() {
        StepResult::Step(SpecDecoded::Bad(DecodeError::BadMagic), 24)
    } else {
        let len = spec_u32_from_le_bytes(b.subrange(16, 20)) as int;
        if len > MAX_PAYLOAD_LEN {
            StepResult::Step(SpecDecoded::Bad(DecodeError::OversizedLength), 24)
        } else if b.len() < 24 + len {
            StepResult::Incomplete
        } else {
            let payload = b.subrange(24, 24 + len);
            if b.subrange(20, 24) != checksum_bytes(payload) {
                StepResult::Step(SpecDecoded::Bad(DecodeError::ChecksumMismatch), 24 + len)
            } else {
                match spec_parse_payload(b.subrange(4, 16), payload) {
                    Some(m) => StepResult::Step(SpecDecoded::Good(m), 24 + len),
                    None => StepResult::Step(SpecDecoded::Bad(DecodeError::MalformedPayload), 24 + len),
                }
            }
        }
    }
}

/// Everything that can be decoded from the bytes, and the bytes left
/// buffered afterwards.
pub open spec fn spec_decode(b: Seq<u8>) -> (Seq<SpecDecoded>, Seq<u8>)
    decreases b.len(),
{
    match spec_step(b) {
        StepResult::Incomplete => (Seq::empty(), b),
        StepResult::Step(item, k) => if 1 <= k <= b.len() {
            let rest = spec_decode(b.subrange(k, b.len() as int));
            (seq![item] + rest.0, rest.1)
        } else {
            (seq![item], Seq::empty())
        },
    }
}

/// A decoding step consumes at least the header and at most the buffer.
pub proof fn lemma_step_bounds(b: Seq<u8>)
    ensures
        match spec_step(b) {
            StepResult::Incomplete => true,
            StepResult::Step(_, k) => 24 <= k <= b.len(),
        },
{
}

/// A step that produced an item from some bytes produces the same item
/// from those bytes with anything appended.
pub proof fn lemma_step_extend(a: Seq<u8>, ext: Seq<u8>)
    requires
        spec_step(a) is Step,
    ensures
        spec_step(a + ext) == spec_step(a),
{
    let s = a + ext;
    assert(s.subrange(0, 4) =~= a.subrange(0, 4));
    assert(s.subrange(16, 20) =~= a.subrange(16, 20));
    let len = spec_u32_from_le_bytes(a.subrange(16, 20)) as int;
    if a.subrange(0, 4) == spec_magic() && len <= MAX_PAYLOAD_LEN {
        assert(24 + len <= a.len());
        assert(s.subrange(20, 24) =~= a.subrange(20, 24));
        assert(s.subrange(4, 16) =~= a.subrange(4, 16));
        assert(s.subrange(24, 24 + len) =~= a.subrange(24, 24 + len));
    }
}

/// Split-invariance: decoding bytes in two pieces — the first piece, then
/// its leftover joined with the second piece — yields the same items and
/// the same final leftover as decoding the whole at once.
pub proof fn lemma_split_invariance(a: Seq<u8>, b: Seq<u8>)
    ensures
        spec_decode(a + b).0 == spec_decode(a).0 + spec_decode(spec_decode(a).1 + b).0,
        spec_decode(a + b).1 == spec_decode(spec_decode(a).1 + b).1,
    decreases a.len(),
{
    lemma_step_bounds(a);
    match spec_step(a) {
        StepResult::Incomplete => {
            assert(spec_decode(a).0 =~= Seq::<SpecDecoded>::empty());
            assert(spec_decode(a).1 == a);
            assert(Seq::<SpecDecoded>::empty() + spec_decode(a + b).0 =~= spec_decode(a + b).0);
        },
        StepResult::Step(item, k) => {
            lemma_step_extend(a, b);
            lemma_step_bounds(a + b);
            let a2 = a.subrange(k, a.len() as int);
            lemma_split_invariance(a2, b);
            assert((a + b).subrange(k, (a + b).len() as int) =~= a2 + b);
            assert(seq![item] + (spec_decode(a2).0 + spec_decode(spec_decode(a2).1 + b).0) =~= (
            seq![item] + spec_decode(a2).0) + spec_decode(spec_decode(a2).1 + b).0);
        },
    }
}

/// An encoded well-formed message, followed by anything, decodes in one
/// step to exactly that message, consuming exactly the encoding.
#[verifier::rlimit(100)]
pub proof fn lemma_encode_step(m: SpecMessage, rest: Seq<u8>)
    requires
        wf_message(m),
    ensures
        spec_encode(m).len() == 24 + spec_payload_of(m).len(),
        spec_payload_of(m).len() <= MAX_PAYLOAD_LEN,
        spec_step(spec_encode(m) + rest) == StepResult::Step(
            SpecDecoded::Good(m),
            spec_encode(m).len() as int,
        ),
{
    lemma_auto_spec_u32_to_from_le_bytes();
    let cmd = spec_command_of(m);
    let payload = spec_payload_of(m);
    match m {
        SpecMessage::Version(v) => {
            lemma_version_round_trip(v);
        },
        SpecMessage::AddrList(es) => {
            lemma_addr_round_trip(es);
            lemma_varint_round_trip(es.len() as u64, Seq::<u8>::empty(), Seq::<u8>::empty());
        },
        _ => {},
    }
    assert(payload.len() <= MAX_PAYLOAD_LEN);
    assert(cmd.len() == 12);
    let s = spec_encode(m) + rest;
    assert(s.subrange(0, 4) =~= spec_magic());
    assert(s.subrange(4, 16) =~= cmd);
    assert(s.subrange(16, 20) =~= spec_u32_to_le_bytes(payload.len() as u32));
    assert(spec_u32_from_le_bytes(s.subrange(16, 20)) as int == payload.len());
    assert(s.subrange(20, 24) =~= checksum_bytes(payload));
    assert(s.subrange(24, 24 + payload.len() as int) =~= payload);
    assert(spec_parse_payload(cmd, payload) == Some(m));
}

/// Round-trip: decoding an encoded well-formed message yields exactly
/// that message and leaves nothing buffered.
pub proof fn lemma_round_trip(m: SpecMessage)
    requires
        wf_message(m),
    ensures
        spec_decode(spec_encode(m)).0 == seq![SpecDecoded::Good(m)],
        spec_decode(spec_encode(m)).1 == Seq::<u8>::empty(),
{
    lemma_encode_step(m, Seq::<u8>::empty());
    let e = spec_encode(m);
    assert(e + Seq::<u8>::empty() =~= e);
    assert(spec_step(e) == StepResult::Step(SpecDecoded::Good(m), e.len() as int));
    let tail = e.subrange(e.len() as int, e.len() as int);
    assert(tail =~= Seq::<u8>::empty());
    assert(spec_decode(tail).0 =~= Seq::<SpecDecoded>::empty());
    assert(seq![SpecDecoded::Good(m)] + Seq::<SpecDecoded>::empty() =~= seq![
        SpecDecoded::Good(m),
    ]);
}

/// Corruption isolation: a frame whose stored checksum is not the
/// payload's checksum decodes to a single recoverable error, and the
/// bytes after that frame decode exactly as they would alone.
#[verifier::rlimit(100)]
pub proof fn lemma_corruption_isolation(
    command: Seq<u8>,
    payload: Seq<u8>,
    bad: Seq<u8>,
    rest: Seq<u8>,
)
    requires
        command.len() == 12,
        payload.len() <= MAX_PAYLOAD_LEN,
        bad.len() == 4,
        bad != checksum_bytes(payload),
    ensures
        spec_decode(spec_frame(command, payload, bad) + rest).0 == seq![
            SpecDecoded::Bad(DecodeError::ChecksumMismatch),
        ] + spec_decode(rest).0,
        spec_decode(spec_frame(command, payload, bad) + rest).1 == spec_decode(rest).1,
{
    lemma_auto_spec_u32_to_from_le_bytes();
    let f = spec_frame(command, payload, bad);
    let s = f + rest;
    assert(f.len() == 24 + payload.len());
    assert(s.subrange(0, 4) =~= spec_magic());
    assert(s.subrange(16, 20) =~= spec_u32_to_le_bytes(payload.len() as u32));
    assert(spec_u32_from_le_bytes(s.subrange(16, 20)) as int == payload.len());
    assert(s.subrange(20, 24) =~= bad);
    assert(s.subrange(24, 24 + payload.len() as int) =~= payload);
    assert(spec_step(s) == StepResult::Step(
        SpecDecoded::Bad(DecodeError::ChecksumMismatch),
        f.len() as int,
    ));
    assert(s.subrange(f.len() as int, s.len() as int) =~= rest);
    assert(seq![SpecDecoded::Bad(DecodeError::ChecksumMismatch)] + spec_decode(rest).0
        =~= spec_decode(s).0);
}

fn command_bytes_version() -> (v: Vec<u8>)
    ensures
        v@ == cmd_version(),
{
    let mut v: Vec<u8> = Vec::new();
    v.push(118u8);
    v.push(101u8);
    v.push(114u8);
    v.push(115u8);
    v.push(105u8);
    v.push(111u8);
    v.push(110u8);
    v.push(0u8);
    v.push(0u8);
    v.push(0u8);
    v.push(0u8);
    v.push(0u8);
    proof {
        assert(v@ =~= cmd_version());
    }
    v
}

fn command_bytes_verack() -> (v: Vec<u8>)
    ensures
        v@ == cmd_verack(),
{
    let mut v: Vec<u8> = Vec::new();
    v.push(118u8);
    v.push(101u8);
    v.push(114u8);
    v.push(97u8);
    v.push(99u8);
    v.push(107u8);
    v.push(0u8);
    v.push(0u8);
    v.push(0u8);
    v.push(0u8);
    v.push(0u8);
    v.push(0u8);
    proof {
        assert(v@ =~= cmd_verack());
    }
    v
}

fn command_bytes_getaddr() -> (v: Vec<u8>)
    ensures
        v@ == cmd_getaddr(),
{
    let mut v: Vec<u8> = Vec::new();
    v.push(103u8);
    v.push(101u8);
    v.push(116u8);
    v.push(97u8);
    v.push(100u8);
    v.push(100u8);
    v.push(114u8);
    v.push(0u8);
    v.push(0u8);
    v.push(0u8);
    v.push(0u8);
    v.push(0u8);
    proof {
        assert(v@ =~= cmd_getaddr());
    }
    v
}

fn command_bytes_addr() -> (v: Vec<u8>)
    ensures
        v@ == cmd_addr(),
{
    let mut v: Vec<u8> = Vec::new();
    v.push(97u8);
    v.push(100u8);
    v.push(100u8);
    v.push(114u8);
    v.push(0u8);
    v.push(0u8);
    v.push(0u8);
    v.push(0u8);
    v.push(0u8);
    v.push(0u8);
    v.push(0u8);
    v.push(0u8);
    proof {
        assert(v@ =~= cmd_addr());
    }
    v
}

/// Byte-for-byte equality of two vectors.
fn vec_eq(a: &Vec<u8>, b: &Vec<u8>) -> (r: bool)
    ensures
        r == (a@ == b@),
{
    if a.len() != b.len() {
        return false;
    }
    let mut i: usize = 0;
    while i < a.len()
        invariant
            i <= a@.len(),
            a@.len() == b@.len(),
            forall|j: int| 0 <= j < i ==> a@[j] == b@[j],
        decreases a@.len() - i,
    {
        if a[i] != b[i] {
            return false;
        }
        i = i + 1;
    }
    proof {
        assert(a@ =~= b@);
    }
    true
}

/// Encodes a message as one frame: magic, command, payload length,
/// checksum, payload.
pub fn encode_message(m: &ProtocolMessage) -> (out: Vec<u8>)
    requires
        wf_message(m@),
    ensures
        out@ == spec_encode(m@),
{
    let mut command: Vec<u8>;
    let mut payload: Vec<u8>;
    match m {
        ProtocolMessage::Version(v) => {
            proof {
                lemma_version_round_trip(v@);
            }
            command = command_bytes_version();
            payload = ser_version(v);
        },
        ProtocolMessage::Verack => {
            command = command_bytes_verack();
            payload = Vec::new();
        },
        ProtocolMessage::GetAddr => {
            command = command_bytes_getaddr();
            payload = Vec::new();
        },
        ProtocolMessage::AddrList(es) => {
            proof {
                lemma_addr_round_trip(es@);
                lemma_varint_round_trip(es@.len() as u64, Seq::<u8>::empty(), Seq::<u8>::empty());
            }
            command = command_bytes_addr();
            payload = ser_addr_payload(es);
        },
        ProtocolMessage::Other { command: c, payload: p } => {
            command = slice_to_vec(c.as_slice());
            payload = slice_to_vec(p.as_slice());
        },
    }
    let mut out: Vec<u8> = Vec::new();
    out.push(0xf9u8);
    out.push(0xbeu8);
    out.push(0xb4u8);
    out.push(0xd9u8);
    out.append(&mut command);
    let mut lenb = u32_to_le_bytes(payload.len() as u32);
    out.append(&mut lenb);
    let mut chk = compute_checksum(&payload);
    out.append(&mut chk);
    out.append(&mut payload);
    proof {
        assert(out@ =~= spec_encode(m@));
    }
    out
}

/// The model of one decoded item handed out by the decoder.
pub open spec fn decoded_view(r: Result<ProtocolMessage, DecodeError>) -> SpecDecoded {
    match r {
        Ok(m) => SpecDecoded::Good(m@),
        Err(e) => SpecDecoded::Bad(e),
    }
}

/// The models of a sequence of decoded items.
pub open spec fn decoded_views(s: Seq<Result<ProtocolMessage, DecodeError>>) -> Seq<SpecDecoded> {
    s.map_values(|r: Result<ProtocolMessage, DecodeError>| decoded_view(r))
}

/// A buffering decoder. Bytes are fed in as they arrive, in chunks cut at
/// arbitrary boundaries; complete frames are handed out as they become
/// available, each either a message or a recoverable error.
pub struct Decoder {
    buf: Vec<u8>,
}

impl View for Decoder {
    type V = Seq<u8>;

    closed spec fn view(&self) -> Seq<u8> {
        self.buf@
    }
}

impl Decoder {
    /// An empty decoder.
    pub fn new() -> (d: Decoder)
        ensures
            d@ == Seq::<u8>::empty(),
    {
        let d = Decoder { buf: Vec::new() };
        proof {
            assert(d@ =~= Seq::<u8>::empty());
        }
        d
    }

    /// Buffers one chunk of received bytes.
    pub fn feed(&mut self, chunk: &[u8])
        ensures
            final(self)@ == old(self)@ + chunk@,
    {
        let mut c = slice_to_vec(chunk);
        self.buf.append(&mut c);
    }

    fn consume(&mut self, k: usize)
        requires
            k <= old(self)@.len(),
        ensures
            final(self)@ == old(self)@.subrange(k as int, old(self)@.len() as int),
    {
        let tail = self.buf.split_off(k);
        self.buf = tail;
    }

    /// One decoding step: a message or a recoverable error when a whole
    /// frame is buffered, or nothing until more bytes arrive.
    pub fn decode_next(&mut self) -> (r: Option<Result<ProtocolMessage, DecodeError>>)
        ensures
            match spec_step(old(self)@) {
                StepResult::Incomplete => r is None && final(self)@ == old(self)@,
                StepResult::Step(item, k) => r is Some && decoded_view(r->0) == item
                    && final(self)@ == old(self)@.subrange(k, old(self)@.len() as int),
            },
    {
        if self.buf.len() < 24 {
            return None;
        }
        let b0 = self.buf[0];
        let b1 = self.buf[1];
        let b2 = self.buf[2];
        let b3 = self.buf[3];
        let ghost mg = self.buf@.subrange(0, 4);
        proof {
            assert(mg[0] == self.buf@[0] && mg[1] == self.buf@[1] && mg[2] == self.buf@[2] && mg[3]
                == self.buf@[3]);
        }
        if !(b0 == 0xf9u8 && b1 == 0xbeu8 && b2 == 0xb4u8 && b3 == 0xd9u8) {
            proof {
                assert(mg != spec_magic());
            }
            self.consume(24);
            return Some(Err(DecodeError::BadMagic));
        }
        proof {
            assert(mg =~= spec_magic());
        }
        let len32 = read_u32_at(&self.buf, 16);
        if len32 > MAX_PAYLOAD_LEN {
            self.consume(24);
            return Some(Err(DecodeError::OversizedLength));
        }
        let len = len32 as usize;
        if self.buf.len() - 24 < len {
            return None;
        }
        let payload = slice_to_vec(slice_subrange(self.buf.as_slice(), 24, 24 + len));
        let chk = compute_checksum(&payload);
        let stored = slice_to_vec(slice_subrange(self.buf.as_slice(), 20, 24));
        if !vec_eq(&stored, &chk) {
            self.consume(24 + len);
            return Some(Err(DecodeError::ChecksumMismatch));
        }
        let command = slice_to_vec(slice_subrange(self.buf.as_slice(), 4, 16));
        let res: Result<ProtocolMessage, DecodeError> = if vec_eq(
            &command,
            &command_bytes_version(),
        ) {
            match parse_version(&payload) {
                Some(v) => Ok(ProtocolMessage::Version(v)),
                None => Err(DecodeError::MalformedPayload),
            }
        } else if vec_eq(&command, &command_bytes_verack()) {
            if payload.len() == 0 {
                Ok(ProtocolMessage::Verack)
            } else {
                Err(DecodeError::MalformedPayload)
            }
        } else if vec_eq(&command, &command_bytes_getaddr()) {
            if payload.len() == 0 {
                Ok(ProtocolMessage::GetAddr)
            } else {
                Err(DecodeError::MalformedPayload)
            }
        } else if vec_eq(&command, &command_bytes_addr()) {
            match parse_addr_payload(&payload) {
                Some(es) => Ok(ProtocolMessage::AddrList(es)),
                None => Err(DecodeError::MalformedPayload),
            }
        } else {
            Ok(ProtocolMessage::Other { command, payload })
        };
        self.consume(24 + len);
        Some(res)
    }

    /// Decodes every complete frame in the buffer, in order, keeping the
    /// trailing incomplete bytes buffered for the next feed.
    pub fn decode_available(&mut self) -> (out: Vec<Result<ProtocolMessage, DecodeError>>)
        ensures
            decoded_views(out@) == spec_decode(old(self)@).0,
            final(self)@ == spec_decode(old(self)@).1,
    {
        let ghost orig = self@;
        let mut out: Vec<Result<ProtocolMessage, DecodeError>> = Vec::new();
        proof {
            assert(decoded_views(out@) =~= Seq::<SpecDecoded>::empty());
            assert(Seq::<SpecDecoded>::empty() + spec_decode(self@).0 =~= spec_decode(self@).0);
        }
        loop
            invariant
                spec_decode(orig).0 == decoded_views(out@) + spec_decode(self@).0,
                spec_decode(orig).1 == spec_decode(self@).1,
            ensures
                decoded_views(out@) == spec_decode(orig).0,
                self@ == spec_decode(orig).1,
            decreases self@.len(),
        {
            let ghost pre = self@;
            let ghost out_pre = out@;
            proof {
                lemma_step_bounds(pre);
            }
            match self.decode_next() {
                None => {
                    proof {
                        assert(spec_decode(pre).0 =~= Seq::<SpecDecoded>::empty());
                        assert(decoded_views(out@) + Seq::<SpecDecoded>::empty() =~= decoded_views(
                            out@,
                        ));
                    }
                    break ;
                },
                Some(x) => {
                    out.push(x);
                    proof {
                        assert(decoded_views(out@) =~= decoded_views(out_pre) + seq![
                            decoded_view(x),
                        ]);
                        assert((decoded_views(out_pre) + seq![decoded_view(x)]) + spec_decode(
                            self@,
                        ).0 =~= decoded_views(out_pre) + (seq![decoded_view(x)] + spec_decode(
                            self@,
                        ).0));
                    }
                },
            }
        }
        out
    }
}

} // verus!
