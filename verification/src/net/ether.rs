//! Ethernet II framing: a 14-byte header (destination, source, EtherType) before the payload.

use vstd::prelude::*;

use crate::bytes;
use crate::bytes::{append, append_be16, read_array6, read_be16};

verus! {

/// A 48-bit Ethernet MAC address.
pub type MacAddr = [u8; 6];

/// The all-ones destination that every station accepts.
pub const BROADCAST: MacAddr = [0xFF, 0xFF, 0xFF, 0xFF, 0xFF, 0xFF];

/// EtherType for IPv4 payloads.
pub const ETHERTYPE_IPV4: u16 = 0x0800;

/// EtherType for ARP payloads.
pub const ETHERTYPE_ARP: u16 = 0x0806;

/// The fixed Ethernet II header length: destination, source and EtherType.
pub const HEADER_LEN: usize = 14;

/// A parsed Ethernet II frame. The payload points into the receive buffer.
pub struct Frame<'a> {
    pub dst: MacAddr,
    pub src: MacAddr,
    pub ethertype: u16,
    pub payload: &'a [u8],
}

/// The bytes of the frame with these fields.
pub open spec fn frame_bytes(dst: Seq<u8>, src: Seq<u8>, ethertype: u16, payload: Seq<u8>) -> Seq<
    u8,
> {
    dst + src + bytes::be16_bytes(ethertype) + payload
}

impl<'a> Frame<'a> {
    /// Parses an Ethernet II frame: `None` exactly for a buffer too short to hold the header.
    pub fn parse(buf: &'a [u8]) -> (frame: Option<Frame<'a>>)
        ensures
            frame is Some <==> buf@.len() >= HEADER_LEN,
            frame matches Some(f) ==> {
                &&& f.dst@ == buf@.subrange(0, 6)
                &&& f.src@ == buf@.subrange(6, 12)
                &&& f.ethertype == bytes::be16(buf@, 12)
                &&& f.payload@ == buf@.skip(14)
            },
    {
        if buf.len() < HEADER_LEN {
            return None;
        }
        let payload: &[u8] = &buf[HEADER_LEN..buf.len()];
        assert(payload@ =~= buf@.skip(14));
        Some(
            Frame {
                dst: read_array6(buf, 0),
                src: read_array6(buf, 6),
                ethertype: read_be16(buf, 12),
                payload,
            },
        )
    }
}

/// Builds an Ethernet II frame: the header followed by `payload`.
pub fn build(dst: MacAddr, src: MacAddr, ethertype: u16, payload: &[u8]) -> (frame: Vec<u8>)
    ensures
        frame@ == frame_bytes(dst@, src@, ethertype, payload@),
{
    let mut frame: Vec<u8> = Vec::new();
    append(&mut frame, &dst);
    append(&mut frame, &src);
    append_be16(&mut frame, ethertype);
    append(&mut frame, payload);
    assert(frame@ =~= frame_bytes(dst@, src@, ethertype, payload@));
    frame
}

/// Parsing a built frame gives back the fields it was built from: the slices that
/// [`Frame::parse`] reads are the addresses, the EtherType and the payload.
pub proof fn frame_round_trip(dst: Seq<u8>, src: Seq<u8>, ethertype: u16, payload: Seq<u8>)
    requires
        dst.len() == 6,
        src.len() == 6,
    ensures
        frame_bytes(dst, src, ethertype, payload).len() == HEADER_LEN + payload.len(),
        frame_bytes(dst, src, ethertype, payload).subrange(0, 6) == dst,
        frame_bytes(dst, src, ethertype, payload).subrange(6, 12) == src,
        bytes::be16(frame_bytes(dst, src, ethertype, payload), 12) == ethertype,
        frame_bytes(dst, src, ethertype, payload).skip(14) == payload,
{
    let f = frame_bytes(dst, src, ethertype, payload);
    assert(f.subrange(0, 6) =~= dst);
    assert(f.subrange(6, 12) =~= src);
    assert(f.skip(14) =~= payload);
    assert(f[12] == bytes::be16_bytes(ethertype)[0] && f[13] == bytes::be16_bytes(ethertype)[1]);
    bytes::be16_round_trip(ethertype);
}

} // verus!
