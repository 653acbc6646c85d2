//! TCP segments: the 20-byte header, its flags and the checksum over the pseudo-header.

use vstd::prelude::*;

use crate::bytes;
use crate::bytes::{append, append_be16, append_be32, read_be16, read_be32};
use crate::net::ipv4;

verus! {

/// IP protocol number for TCP.
pub const PROTO_TCP: u8 = 6;

/// The minimum TCP header length: five 32-bit words, no options.
pub const HEADER_LEN: usize = 20;

pub const FIN: u8 = 0x01;

pub const SYN: u8 = 0x02;

pub const RST: u8 = 0x04;

pub const PSH: u8 = 0x08;

pub const ACK: u8 = 0x10;

pub const URG: u8 = 0x20;

/// SYN and ACK together, the reply to a connection request.
pub const SYN_ACK: u8 = 0x12;

/// FIN and ACK together, the segment that closes one direction.
pub const FIN_ACK: u8 = 0x11;

/// PSH and ACK together, the flags of a data segment.
pub const PSH_ACK: u8 = 0x18;

/// Mask of the six flags that a parsed segment keeps.
pub const FLAG_MASK: u8 = 0x3F;

/// A parsed TCP segment. The payload points into the receive buffer, past any options.
pub struct Segment<'a> {
    pub src_port: u16,
    pub dst_port: u16,
    /// The stream position of the first payload byte; a SYN or a FIN has a position of its own.
    pub seq: u32,
    /// The next position that the sender expects, meaningful with [`ACK`] set.
    pub ack: u32,
    /// The control flags, masked by [`FLAG_MASK`].
    pub flags: u8,
    /// The sender's receive window in bytes.
    pub window: u16,
    pub payload: &'a [u8],
}

/// The contents of a segment.
#[verifier::ext_equal]
pub struct SegmentView {
    pub src_port: u16,
    pub dst_port: u16,
    pub seq: u32,
    pub ack: u32,
    pub flags: u8,
    pub window: u16,
    pub payload: Seq<u8>,
}

impl<'a> View for Segment<'a> {
    type V = SegmentView;

    open spec fn view(&self) -> SegmentView {
        SegmentView {
            src_port: self.src_port,
            dst_port: self.dst_port,
            seq: self.seq,
            ack: self.ack,
            flags: self.flags,
            window: self.window,
            payload: self.payload@,
        }
    }
}

impl SegmentView {
    /// Whether every flag of the single-bit mask `flag` is set.
    pub open spec fn has(self, flag: u8) -> bool {
        self.flags & flag != 0
    }
}

/// The header length in bytes that byte 12 of a segment states.
pub open spec fn data_offset(s: Seq<u8>) -> int {
    s[12] / 16 * 4
}

/// Whether `s` holds a complete TCP header.
pub open spec fn is_segment(s: Seq<u8>) -> bool {
    &&& s.len() >= HEADER_LEN
    &&& HEADER_LEN <= data_offset(s) <= s.len()
}

/// The segment that the bytes `s` encode.
pub open spec fn decode(s: Seq<u8>) -> SegmentView {
    SegmentView {
        src_port: bytes::be16(s, 0),
        dst_port: bytes::be16(s, 2),
        seq: bytes::be32(s, 4),
        ack: bytes::be32(s, 8),
        flags: s[13] & FLAG_MASK,
        window: bytes::be16(s, 14),
        payload: s.skip(data_offset(s)),
    }
}

impl<'a> Segment<'a> {
    /// Parses a TCP segment: `None` exactly for a buffer shorter than the minimum header and for
    /// a data offset below five words or past the buffer. The checksum is not checked.
    pub fn parse(buf: &'a [u8]) -> (segment: Option<Segment<'a>>)
        ensures
            segment is Some <==> is_segment(buf@),
            segment matches Some(s) ==> s@ == decode(buf@),
    {
        if buf.len() < HEADER_LEN {
            return None;
        }
        let offset: usize = (buf[12] / 16) as usize * 4;
        if offset < HEADER_LEN || buf.len() < offset {
            return None;
        }
        let payload: &[u8] = &buf[offset..buf.len()];
        assert(payload@ =~= buf@.skip(data_offset(buf@)));
        Some(
            Segment {
                src_port: read_be16(buf, 0),
                dst_port: read_be16(buf, 2),
                seq: read_be32(buf, 4),
                ack: read_be32(buf, 8),
                flags: buf[13] & FLAG_MASK,
                window: read_be16(buf, 14),
                payload,
            },
        )
    }
}

/// The pseudo-header that the checksum covers before the segment: both addresses, a zero byte,
/// the protocol and the segment length (its low 16 bits).
pub open spec fn pseudo_header(src_ip: Seq<u8>, dst_ip: Seq<u8>, len: int) -> Seq<u8> {
    src_ip + dst_ip + seq![0u8, PROTO_TCP] + bytes::be16_bytes((len % 0x1_0000) as u16)
}

/// The TCP checksum of `segment` between these addresses.
pub open spec fn segment_checksum(src_ip: Seq<u8>, dst_ip: Seq<u8>, segment: Seq<u8>) -> u16 {
    ipv4::internet_checksum(pseudo_header(src_ip, dst_ip, segment.len() as int) + segment)
}

/// The bytes of a segment with a zero checksum field.
pub open spec fn unsummed(s: SegmentView) -> Seq<u8> {
    bytes::be16_bytes(s.src_port) + bytes::be16_bytes(s.dst_port) + bytes::be32_bytes(s.seq)
        + bytes::be32_bytes(s.ack) + seq![0x50u8, s.flags] + bytes::be16_bytes(s.window) + seq![
        0u8,
        0u8,
        0u8,
        0u8,
    ] + s.payload
}

/// The bytes of a segment sent from `src_ip` to `dst_ip`: a header without options, carrying its
/// checksum, and the payload.
pub open spec fn encode(src_ip: Seq<u8>, dst_ip: Seq<u8>, s: SegmentView) -> Seq<u8> {
    ipv4::store_be16(unsummed(s), 16, segment_checksum(src_ip, dst_ip, unsummed(s)))
}

/// Builds a TCP segment.
pub fn build(
    src_ip: [u8; 4],
    dst_ip: [u8; 4],
    src_port: u16,
    dst_port: u16,
    seq: u32,
    ack: u32,
    flags: u8,
    window: u16,
    payload: &[u8],
) -> (segment: Vec<u8>)
    ensures
        segment@ == encode(
            src_ip@,
            dst_ip@,
            (SegmentView { src_port, dst_port, seq, ack, flags, window, payload: payload@ }),
        ),
{
    let ghost s = SegmentView {
        src_port,
        dst_port,
        seq,
        ack,
        flags,
        window,
        payload: payload@,
    };
    let mut segment: Vec<u8> = Vec::new();
    append_be16(&mut segment, src_port);
    append_be16(&mut segment, dst_port);
    append_be32(&mut segment, seq);
    append_be32(&mut segment, ack);
    segment.push(0x50);
    segment.push(flags);
    append_be16(&mut segment, window);
    segment.push(0);
    segment.push(0);
    segment.push(0);
    segment.push(0);
    append(&mut segment, payload);
    assert(segment@ =~= unsummed(s));
    let ck: u16 = checksum(src_ip, dst_ip, &segment);
    ipv4::put_be16(&mut segment, 16, ck);
    segment
}

/// The TCP checksum of `segment`, which carries zero in its checksum field while it is being
/// built and sums to zero once it carries its checksum.
pub fn checksum(src_ip: [u8; 4], dst_ip: [u8; 4], segment: &[u8]) -> (ck: u16)
    ensures
        ck == segment_checksum(src_ip@, dst_ip@, segment@),
{
    let mut buf: Vec<u8> = Vec::new();
    append(&mut buf, &src_ip);
    append(&mut buf, &dst_ip);
    buf.push(0);
    buf.push(PROTO_TCP);
    append_be16(&mut buf, (segment.len() % 0x1_0000) as u16);
    append(&mut buf, segment);
    assert(buf@ =~= pseudo_header(src_ip@, dst_ip@, segment@.len() as int) + segment@);
    ipv4::checksum(&buf)
}

/// The flag constants used together are the unions of the single flags, and the flags that the
/// connection code tests for are where they should be.
pub proof fn flag_facts()
    ensures
        SYN_ACK == SYN | ACK,
        FIN_ACK == FIN | ACK,
        PSH_ACK == PSH | ACK,
        SYN & SYN != 0,
        SYN & ACK == 0,
        SYN & FIN == 0,
        ACK & SYN == 0,
        ACK & ACK != 0,
        ACK & FIN == 0,
        SYN_ACK & SYN != 0,
        SYN_ACK & ACK != 0,
        SYN_ACK & FIN == 0,
        FIN_ACK & FIN != 0,
        FIN_ACK & ACK != 0,
        FIN_ACK & SYN == 0,
        PSH_ACK & ACK != 0,
        PSH_ACK & FIN == 0,
        PSH_ACK & SYN == 0,
        SYN & FLAG_MASK == SYN,
        ACK & FLAG_MASK == ACK,
        SYN_ACK & FLAG_MASK == SYN_ACK,
        FIN_ACK & FLAG_MASK == FIN_ACK,
        PSH_ACK & FLAG_MASK == PSH_ACK,
        ACK & (SYN | FIN) == 0,
        PSH_ACK & (SYN | FIN) == 0,
{
    assert(SYN_ACK == SYN | ACK && FIN_ACK == FIN | ACK && PSH_ACK == PSH | ACK && SYN & SYN != 0
        && SYN & ACK == 0 && SYN & FIN == 0 && ACK & SYN == 0 && ACK & ACK != 0 && ACK & FIN == 0
        && SYN_ACK & SYN != 0 && SYN_ACK & ACK != 0 && SYN_ACK & FIN == 0 && FIN_ACK & FIN != 0
        && FIN_ACK & ACK != 0 && FIN_ACK & SYN == 0 && PSH_ACK & ACK != 0 && PSH_ACK & FIN == 0
        && PSH_ACK & SYN == 0 && SYN & FLAG_MASK == SYN && ACK & FLAG_MASK == ACK && SYN_ACK
        & FLAG_MASK == SYN_ACK && FIN_ACK & FLAG_MASK == FIN_ACK && PSH_ACK & FLAG_MASK == PSH_ACK
        && ACK & (SYN | FIN) == 0 && PSH_ACK & (SYN | FIN) == 0) by (bit_vector);
}

/// A built segment parses back to the fields it was built from, with the flags masked.
pub proof fn segment_round_trip(src_ip: Seq<u8>, dst_ip: Seq<u8>, s: SegmentView)
    ensures
        is_segment(encode(src_ip, dst_ip, s)),
        decode(encode(src_ip, dst_ip, s)) == (SegmentView { flags: s.flags & FLAG_MASK, ..s }),
        encode(src_ip, dst_ip, s).len() == HEADER_LEN + s.payload.len(),
{
    let e = encode(src_ip, dst_ip, s);
    let u = unsummed(s);
    let b0 = bytes::be16_bytes(s.src_port);
    let b2 = bytes::be16_bytes(s.dst_port);
    let b4 = bytes::be32_bytes(s.seq);
    let b8 = bytes::be32_bytes(s.ack);
    let b14 = bytes::be16_bytes(s.window);
    assert(e.len() == u.len());
    assert(forall|i: int| 0 <= i < 16 ==> e[i] == u[i]);
    assert(u[0] == b0[0] && u[1] == b0[1] && u[2] == b2[0] && u[3] == b2[1]);
    assert(u[4] == b4[0] && u[5] == b4[1] && u[6] == b4[2] && u[7] == b4[3]);
    assert(u[8] == b8[0] && u[9] == b8[1] && u[10] == b8[2] && u[11] == b8[3]);
    assert(u[12] == 0x50 && u[13] == s.flags);
    assert(u[14] == b14[0] && u[15] == b14[1]);
    bytes::be16_round_trip(s.src_port);
    bytes::be16_round_trip(s.dst_port);
    bytes::be32_round_trip(s.seq);
    bytes::be32_round_trip(s.ack);
    bytes::be16_round_trip(s.window);
    assert(data_offset(e) == 20);
    assert(e.skip(20) =~= s.payload);
}

/// A built segment verifies: with its checksum in place the checksum is zero.
pub proof fn built_segment_verifies(src_ip: Seq<u8>, dst_ip: Seq<u8>, s: SegmentView)
    requires
        src_ip.len() == 4,
        dst_ip.len() == 4,
    ensures
        segment_checksum(src_ip, dst_ip, encode(src_ip, dst_ip, s)) == 0,
{
    let u = unsummed(s);
    let pseudo = pseudo_header(src_ip, dst_ip, u.len() as int);
    let e = encode(src_ip, dst_ip, s);
    ipv4::stored_checksum_verifies(pseudo + u, 28);
    assert(pseudo + e =~= ipv4::store_be16(
        pseudo + u,
        28,
        ipv4::internet_checksum(pseudo + u),
    ));
}

} // verus!
