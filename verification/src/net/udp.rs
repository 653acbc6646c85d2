//! UDP: an 8-byte header with ports, a length and a checksum over the pseudo-header.

use vstd::prelude::*;

use crate::bytes;
use crate::bytes::{append, append_be16, read_be16};
use crate::net::ipv4;

verus! {

/// IP protocol number for UDP.
pub const PROTO_UDP: u8 = 17;

/// The fixed UDP header length.
pub const HEADER_LEN: usize = 8;

/// A parsed UDP datagram. The payload ends where the length field says, so padding is excluded.
pub struct Datagram<'a> {
    pub src_port: u16,
    pub dst_port: u16,
    pub payload: &'a [u8],
}

/// Where the payload ends: at the stated length, but neither before the header's end nor past
/// the buffer's.
pub open spec fn payload_end(s: Seq<u8>) -> int {
    let stated = bytes::be16(s, 4) as int;
    let bounded = if stated < s.len() {
        stated
    } else {
        s.len() as int
    };
    if bounded < HEADER_LEN {
        HEADER_LEN as int
    } else {
        bounded
    }
}

impl<'a> Datagram<'a> {
    /// Parses a UDP datagram: `None` exactly for a buffer shorter than the header. The checksum
    /// is not checked.
    pub fn parse(buf: &'a [u8]) -> (datagram: Option<Datagram<'a>>)
        ensures
            datagram is Some <==> buf@.len() >= HEADER_LEN,
            datagram matches Some(d) ==> {
                &&& d.src_port == bytes::be16(buf@, 0)
                &&& d.dst_port == bytes::be16(buf@, 2)
                &&& d.payload@ == buf@.subrange(8, payload_end(buf@))
            },
    {
        if buf.len() < HEADER_LEN {
            return None;
        }
        let length: usize = read_be16(buf, 4) as usize;
        let bounded: usize = if length < buf.len() {
            length
        } else {
            buf.len()
        };
        let end: usize = if bounded < HEADER_LEN {
            HEADER_LEN
        } else {
            bounded
        };
        Some(
            Datagram {
                src_port: read_be16(buf, 0),
                dst_port: read_be16(buf, 2),
                payload: &buf[HEADER_LEN..end],
            },
        )
    }
}

/// The pseudo-header that the checksum covers before the datagram: both addresses, a zero byte,
/// the protocol and the datagram length (its low 16 bits).
pub open spec fn pseudo_header(src_ip: Seq<u8>, dst_ip: Seq<u8>, len: int) -> Seq<u8> {
    src_ip + dst_ip + seq![0u8, PROTO_UDP] + bytes::be16_bytes((len % 0x1_0000) as u16)
}

/// The UDP checksum of `datagram` between these addresses.
pub open spec fn datagram_checksum(src_ip: Seq<u8>, dst_ip: Seq<u8>, datagram: Seq<u8>) -> u16 {
    ipv4::internet_checksum(pseudo_header(src_ip, dst_ip, datagram.len() as int) + datagram)
}

/// A datagram with a zero checksum field. The length field holds the low 16 bits.
pub open spec fn unsummed(src_port: u16, dst_port: u16, payload: Seq<u8>) -> Seq<u8> {
    bytes::be16_bytes(src_port) + bytes::be16_bytes(dst_port) + bytes::be16_bytes(
        ((HEADER_LEN + payload.len()) % 0x1_0000) as u16,
    ) + seq![0u8, 0u8] + payload
}

/// The checksum field for a computed checksum: zero is sent as `0xFFFF`, for a zero field means
/// that there is none.
pub open spec fn checksum_field(ck: u16) -> u16 {
    if ck == 0 {
        0xFFFF
    } else {
        ck
    }
}

/// The datagram with these fields.
pub open spec fn datagram_bytes(
    src_ip: Seq<u8>,
    dst_ip: Seq<u8>,
    src_port: u16,
    dst_port: u16,
    payload: Seq<u8>,
) -> Seq<u8> {
    let u = unsummed(src_port, dst_port, payload);
    ipv4::store_be16(u, 6, checksum_field(datagram_checksum(src_ip, dst_ip, u)))
}

/// Builds a UDP datagram: the header with its checksum, followed by `payload`.
pub fn build(
    src_ip: [u8; 4],
    dst_ip: [u8; 4],
    src_port: u16,
    dst_port: u16,
    payload: &[u8],
) -> (datagram: Vec<u8>)
    ensures
        datagram@ == datagram_bytes(src_ip@, dst_ip@, src_port, dst_port, payload@),
{
    let length: usize = HEADER_LEN + payload.len() % 0x1_0000;
    assert(length % 0x1_0000 == (HEADER_LEN + payload@.len()) % 0x1_0000);
    let mut datagram: Vec<u8> = Vec::new();
    append_be16(&mut datagram, src_port);
    append_be16(&mut datagram, dst_port);
    append_be16(&mut datagram, (length % 0x1_0000) as u16);
    datagram.push(0);
    datagram.push(0);
    append(&mut datagram, payload);
    assert(datagram@ =~= unsummed(src_port, dst_port, payload@));
    let ck: u16 = checksum(src_ip, dst_ip, &datagram);
    let field: u16 = if ck == 0 {
        0xFFFF
    } else {
        ck
    };
    ipv4::put_be16(&mut datagram, 6, field);
    datagram
}

/// The UDP checksum of `datagram`, which carries zero in its checksum field while it is being
/// built and sums to zero once it carries its checksum.
pub fn checksum(src_ip: [u8; 4], dst_ip: [u8; 4], datagram: &[u8]) -> (ck: u16)
    ensures
        ck == datagram_checksum(src_ip@, dst_ip@, datagram@),
{
    let mut buf: Vec<u8> = Vec::new();
    append(&mut buf, &src_ip);
    append(&mut buf, &dst_ip);
    buf.push(0);
    buf.push(PROTO_UDP);
    append_be16(&mut buf, (datagram.len() % 0x1_0000) as u16);
    append(&mut buf, datagram);
    assert(buf@ =~= pseudo_header(src_ip@, dst_ip@, datagram@.len() as int) + datagram@);
    ipv4::checksum(&buf)
}

/// A built datagram parses back to its ports and, where the length fits its field, its payload;
/// its checksum field is never zero and it verifies.
pub proof fn datagram_round_trip(
    src_ip: Seq<u8>,
    dst_ip: Seq<u8>,
    src_port: u16,
    dst_port: u16,
    payload: Seq<u8>,
)
    requires
        src_ip.len() == 4,
        dst_ip.len() == 4,
    ensures
        ({
            let d = datagram_bytes(src_ip, dst_ip, src_port, dst_port, payload);
            &&& d.len() == HEADER_LEN + payload.len()
            &&& bytes::be16(d, 0) == src_port
            &&& bytes::be16(d, 2) == dst_port
            &&& HEADER_LEN + payload.len() <= 0xFFFF ==> d.subrange(8, payload_end(d)) == payload
            &&& bytes::be16(d, 6) != 0
            &&& datagram_checksum(src_ip, dst_ip, d) == 0
        }),
{
    let u = unsummed(src_port, dst_port, payload);
    let d = datagram_bytes(src_ip, dst_ip, src_port, dst_port, payload);
    let length = ((HEADER_LEN + payload.len()) % 0x1_0000) as u16;
    let b0 = bytes::be16_bytes(src_port);
    let b2 = bytes::be16_bytes(dst_port);
    let b4 = bytes::be16_bytes(length);
    assert(u[0] == b0[0] && u[1] == b0[1] && u[2] == b2[0] && u[3] == b2[1] && u[4] == b4[0]
        && u[5] == b4[1] && u[6] == 0 && u[7] == 0);
    bytes::be16_round_trip(src_port);
    bytes::be16_round_trip(dst_port);
    bytes::be16_round_trip(length);
    if HEADER_LEN + payload.len() <= 0xFFFF {
        assert(d.subrange(8, payload_end(d)) =~= payload);
    }
    let pseudo = pseudo_header(src_ip, dst_ip, u.len() as int);
    let field = checksum_field(datagram_checksum(src_ip, dst_ip, u));
    bytes::be16_round_trip(field);
    ipv4::stored_equivalent_verifies(pseudo + u, 18, field);
    assert(pseudo + d =~= ipv4::store_be16(pseudo + u, 18, field));
}

} // verus!
