//! The frame layer of the wire protocol.
//!
//! A frame is a 4-byte big-endian unsigned length `N` followed by exactly
//! `N` payload bytes. The length prefix is authoritative: a reader takes
//! exactly 4 bytes, then exactly `N` bytes, and never scans for delimiters.

use vstd::prelude::*;

verus! {

/// The four big-endian bytes of a 32-bit length prefix.
pub open spec fn be32(x: u32) -> Seq<u8> {
    seq![
        ((x >> 24) & 0xff) as u8,
        ((x >> 16) & 0xff) as u8,
        ((x >> 8) & 0xff) as u8,
        (x & 0xff) as u8,
    ]
}

/// The 32-bit value carried by four big-endian bytes.
pub open spec fn be32_value(b: Seq<u8>) -> u32
    recommends
        b.len() == 4,
{
    (((b[0] as u32) << 24) | ((b[1] as u32) << 16) | ((b[2] as u32) << 8) | (b[3] as u32)) as u32
}

/// Reading back the four bytes of a length prefix yields the length.
pub proof fn lemma_be32_value_of_be32(x: u32)
    ensures
        be32_value(be32(x)) == x,
{
    let b0 = ((x >> 24) & 0xff) as u8;
    let b1 = ((x >> 16) & 0xff) as u8;
    let b2 = ((x >> 8) & 0xff) as u8;
    let b3 = (x & 0xff) as u8;
    assert((((b0 as u32) << 24) | ((b1 as u32) << 16) | ((b2 as u32) << 8) | (b3 as u32)) as u32
        == x) by (bit_vector)
        requires
            b0 == ((x >> 24) & 0xff) as u8,
            b1 == ((x >> 16) & 0xff) as u8,
            b2 == ((x >> 8) & 0xff) as u8,
            b3 == (x & 0xff) as u8,
    ;
}

/// A length prefix is the only four bytes whose value it carries: re-encoding
/// the value read from any four bytes gives those bytes back.
pub proof fn lemma_be32_of_be32_value(b: Seq<u8>)
    requires
        b.len() == 4,
    ensures
        be32(be32_value(b)) == b,
{
    let b0 = b[0];
    let b1 = b[1];
    let b2 = b[2];
    let b3 = b[3];
    let x = be32_value(b);
    assert(((x >> 24) & 0xff) as u8 == b0 && ((x >> 16) & 0xff) as u8 == b1 && ((x >> 8)
        & 0xff) as u8 == b2 && (x & 0xff) as u8 == b3) by (bit_vector)
        requires
            x == (((b0 as u32) << 24) | ((b1 as u32) << 16) | ((b2 as u32) << 8) | (
            b3 as u32)) as u32,
    ;
    assert(be32(x) =~= b);
}

/// The frame that carries the given payload.
pub open spec fn frame_of(payload: Seq<u8>) -> Seq<u8>
    recommends
        payload.len() <= u32::MAX,
{
    be32(payload.len() as u32) + payload
}

/// Frame integrity: for every payload length, a frame written with that
/// length prefix and payload reads back as exactly that payload — the prefix
/// recovers the length, the next `len` bytes are the payload, and whatever
/// follows the frame is untouched.
pub proof fn lemma_frame_integrity(payload: Seq<u8>, rest: Seq<u8>)
    requires
        payload.len() <= u32::MAX,
    ensures
        (frame_of(payload) + rest).len() == 4 + payload.len() + rest.len(),
        be32_value((frame_of(payload) + rest).take(4)) == payload.len(),
        (frame_of(payload) + rest).subrange(4, 4 + payload.len() as int) == payload,
        (frame_of(payload) + rest).skip(4 + payload.len() as int) == rest,
{
    let f = frame_of(payload) + rest;
    assert(f.take(4) =~= be32(payload.len() as u32));
    lemma_be32_value_of_be32(payload.len() as u32);
    assert(f.subrange(4, 4 + payload.len() as int) =~= payload);
    assert(f.skip(4 + payload.len() as int) =~= rest);
}

/// The length carried by a frame's 4-byte header.
pub fn parse_header(header: &[u8; 4]) -> (n: u32)
    ensures
        n == be32_value(header@),
{
    let b0 = header[0];
    let b1 = header[1];
    let b2 = header[2];
    let b3 = header[3];
    ((b0 as u32) << 24) | ((b1 as u32) << 16) | ((b2 as u32) << 8) | (b3 as u32)
}

/// The four header bytes announcing a payload of `n` bytes.
pub fn encode_header(n: u32) -> (r: Vec<u8>)
    ensures
        r@ == be32(n),
{
    let mut v: Vec<u8> = Vec::new();
    v.push(((n >> 24) & 0xff) as u8);
    v.push(((n >> 16) & 0xff) as u8);
    v.push(((n >> 8) & 0xff) as u8);
    v.push((n & 0xff) as u8);
    proof {
        assert(v@ =~= be32(n));
    }
    v
}

/// The complete frame for a payload: header first, payload after.
pub fn make_frame(payload: Vec<u8>) -> (r: Vec<u8>)
    requires
        payload@.len() <= u32::MAX,
    ensures
        r@ == frame_of(payload@),
{
    let ghost payload_view = payload@;
    let mut r = encode_header(payload.len() as u32);
    let mut body = payload;
    r.append(&mut body);
    proof {
        assert(r@ =~= frame_of(payload_view));
    }
    r
}

} // verus!
