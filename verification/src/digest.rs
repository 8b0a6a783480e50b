//! The frame checksum: the first four bytes of the double SHA-256 digest
//! of a frame's payload. The digest itself is computed by an outside
//! library; the codec only embeds and compares its four checksum bytes.

use vstd::prelude::*;

use bitcoin::hashes::Hash as _;

verus! {

/// The four checksum bytes of a payload: the first four bytes of its
/// double SHA-256 digest. The digest is a function of the payload bytes
/// alone; its value is not stated here.
pub uninterp spec fn checksum_of(payload: Seq<u8>) -> (u8, u8, u8, u8);

/// The checksum as the four-byte sequence a frame header carries.
pub open spec fn checksum_bytes(payload: Seq<u8>) -> Seq<u8> {
    let c = checksum_of(payload);
    seq![c.0, c.1, c.2, c.3]
}

/// Relies on `bitcoin::hashes::sha256d::Hash::hash`: the double SHA-256
/// digest of the input bytes, a function of those bytes alone; the frame
/// checksum is its first four bytes.
#[verifier::external_body]
pub fn compute_checksum(payload: &Vec<u8>) -> (r: Vec<u8>)
    ensures
        r@ == checksum_bytes(payload@),
        (r@[0], r@[1], r@[2], r@[3]) == checksum_of(payload@),
{
    let digest = <bitcoin::hashes::sha256d::Hash as bitcoin::hashes::Hash>::hash(
        payload.as_slice(),
    ).to_byte_array();
    let mut out = Vec::new();
    out.push(digest[0]);
    out.push(digest[1]);
    out.push(digest[2]);
    out.push(digest[3]);
    out
}

} // verus!
