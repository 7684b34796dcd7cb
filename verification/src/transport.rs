//! The TCP side of the transport: the 2-byte big-endian
//! length-prefixed framing used when a truncated UDP response forces a
//! retry over a stream. The socket work itself lives outside the
//! library; these functions compute the frames and read them back, and
//! the framing round trip is proved.

use crate::codec::parse_u16;
use crate::codec::spec_encode_u16;
use vstd::prelude::*;

verus! {

/// The wire form of a TCP-framed message: its length as a big-endian
/// 16-bit prefix, then the message bytes.
pub open spec fn spec_frame_tcp(payload: Seq<u8>) -> Seq<u8> {
    spec_encode_u16(payload.len() as u16) + payload
}

/// Frame a message for the TCP transport. The prefix is 16 bits, so
/// the message must fit in it; every encoded DNS message does, since
/// the negotiated maximum size is itself a 16-bit value.
pub fn frame_tcp(msg: &Vec<u8>) -> (r: Vec<u8>)
    requires
        msg@.len() <= 0xffff,
    ensures
        r@ == spec_frame_tcp(msg@),
        r@.len() == msg@.len() + 2,
{
    let len = msg.len() as u16;
    let mut out: Vec<u8> = Vec::new();
    out.push((len >> 8) as u8);
    out.push((len & 0xff) as u8);
    let mut i: usize = 0;
    while i < msg.len()
        invariant
            i <= msg@.len(),
            out@ =~= spec_encode_u16(msg@.len() as u16) + msg@.subrange(0, i as int),
        decreases msg@.len() - i,
    {
        out.push(msg[i]);
        proof {
            assert(msg@.subrange(0, i + 1) =~= msg@.subrange(0, i as int).push(msg@[i as int]));
        }
        i = i + 1;
    }
    proof {
        assert(msg@.subrange(0, msg@.len() as int) =~= msg@);
        assert(out@ =~= spec_frame_tcp(msg@));
    }
    out
}

/// The payload length announced by the two bytes of a TCP length
/// prefix: the count of bytes that must be read before decoding.
pub fn tcp_payload_len(hi: u8, lo: u8) -> (r: u16)
    ensures
        r == (((hi as u16) << 8) | (lo as u16)),
{
    ((hi as u16) << 8) | (lo as u16)
}

/// Strip the length prefix from a fully read TCP frame: the payload,
/// when the buffer holds a prefix and exactly the announced number of
/// bytes after it.
pub fn unframe_tcp(buf: &[u8]) -> (r: Option<Vec<u8>>)
    ensures
        match r {
            Some(p) => buf@.len() >= 2 && buf@.len() - 2 == parse_u16(buf@, 0) && p@ == buf@.subrange(
                2,
                buf@.len() as int,
            ),
            None => buf@.len() < 2 || buf@.len() - 2 != parse_u16(buf@, 0),
        },
{
    if buf.len() < 2 {
        return None;
    }
    let announced = tcp_payload_len(buf[0], buf[1]);
    if buf.len() - 2 != announced as usize {
        return None;
    }
    let mut out: Vec<u8> = Vec::new();
    let mut i: usize = 2;
    while i < buf.len()
        invariant
            2 <= i <= buf@.len(),
            out@ =~= buf@.subrange(2, i as int),
        decreases buf@.len() - i,
    {
        out.push(buf[i]);
        proof {
            assert(buf@.subrange(2, i + 1) =~= buf@.subrange(2, i as int).push(buf@[i as int]));
        }
        i = i + 1;
    }
    proof {
        assert(out@ =~= buf@.subrange(2, buf@.len() as int));
    }
    Some(out)
}

/// The framing round trip: stripping the prefix from a framed message
/// gives the message back, so a peer that reads the announced number
/// of bytes reads exactly what was framed.
pub proof fn lemma_unframe_of_frame(payload: Seq<u8>)
    requires
        payload.len() <= 0xffff,
    ensures
        spec_frame_tcp(payload).len() == payload.len() + 2,
        parse_u16(spec_frame_tcp(payload), 0) == payload.len(),
        spec_frame_tcp(payload).subrange(2, spec_frame_tcp(payload).len() as int) == payload,
{
    let f = spec_frame_tcp(payload);
    assert(f.subrange(0, 2) =~= spec_encode_u16(payload.len() as u16));
    crate::codec::lemma_parse_u16_of_encoded(f, 0, payload.len() as u16);
    assert(f.subrange(2, f.len() as int) =~= payload);
}

} // verus!