//! ICMP echo messages, the request and the reply of a ping.

use vstd::prelude::*;

use crate::bytes;
use crate::bytes::{append, append_be16, read_be16};
use crate::net::ipv4;

verus! {

/// ICMP type of an echo request.
pub const TYPE_ECHO_REQUEST: u8 = 8;

/// ICMP type of an echo reply.
pub const TYPE_ECHO_REPLY: u8 = 0;

/// The fixed ICMP echo header length, before the data.
pub const HEADER_LEN: usize = 8;

/// A parsed ICMP echo message.
pub struct Echo<'a> {
    pub typ: u8,
    pub id: u16,
    pub seq: u16,
    pub data: &'a [u8],
}

impl<'a> Echo<'a> {
    /// Parses an ICMP echo message: `None` exactly for a buffer shorter than the header. The
    /// checksum is not checked.
    pub fn parse(buf: &'a [u8]) -> (echo: Option<Echo<'a>>)
        ensures
            echo is Some <==> buf@.len() >= HEADER_LEN,
            echo matches Some(e) ==> {
                &&& e.typ == buf@[0]
                &&& e.id == bytes::be16(buf@, 4)
                &&& e.seq == bytes::be16(buf@, 6)
                &&& e.data@ == buf@.skip(8)
            },
    {
        if buf.len() < HEADER_LEN {
            return None;
        }
        let data: &[u8] = &buf[HEADER_LEN..buf.len()];
        assert(data@ =~= buf@.skip(8));
        Some(Echo { typ: buf[0], id: read_be16(buf, 4), seq: read_be16(buf, 6), data })
    }
}

/// An echo message with a zero checksum field.
pub open spec fn unsummed(typ: u8, id: u16, seq: u16, data: Seq<u8>) -> Seq<u8> {
    seq![typ, 0u8, 0u8, 0u8] + bytes::be16_bytes(id) + bytes::be16_bytes(seq) + data
}

/// The echo message with these fields.
pub open spec fn echo_bytes(typ: u8, id: u16, seq: u16, data: Seq<u8>) -> Seq<u8> {
    let u = unsummed(typ, id, seq, data);
    ipv4::store_be16(u, 2, ipv4::internet_checksum(u))
}

/// Builds an echo message of the given type.
fn build(typ: u8, id: u16, seq: u16, data: &[u8]) -> (message: Vec<u8>)
    ensures
        message@ == echo_bytes(typ, id, seq, data@),
{
    let mut message: Vec<u8> = Vec::new();
    message.push(typ);
    message.push(0);
    message.push(0);
    message.push(0);
    append_be16(&mut message, id);
    append_be16(&mut message, seq);
    append(&mut message, data);
    assert(message@ =~= unsummed(typ, id, seq, data@));
    let ck: u16 = ipv4::checksum(&message);
    ipv4::put_be16(&mut message, 2, ck);
    message
}

/// Builds an echo request.
pub fn build_echo_request(id: u16, seq: u16, data: &[u8]) -> (message: Vec<u8>)
    ensures
        message@ == echo_bytes(TYPE_ECHO_REQUEST, id, seq, data@),
{
    build(TYPE_ECHO_REQUEST, id, seq, data)
}

/// Builds an echo reply.
pub fn build_echo_reply(id: u16, seq: u16, data: &[u8]) -> (message: Vec<u8>)
    ensures
        message@ == echo_bytes(TYPE_ECHO_REPLY, id, seq, data@),
{
    build(TYPE_ECHO_REPLY, id, seq, data)
}

/// A built echo message parses back to its fields and verifies.
pub proof fn echo_round_trip(typ: u8, id: u16, seq: u16, data: Seq<u8>)
    ensures
        ({
            let m = echo_bytes(typ, id, seq, data);
            &&& m.len() == HEADER_LEN + data.len()
            &&& m[0] == typ
            &&& bytes::be16(m, 4) == id
            &&& bytes::be16(m, 6) == seq
            &&& m.skip(8) == data
            &&& ipv4::internet_checksum(m) == 0
        }),
{
    let u = unsummed(typ, id, seq, data);
    let m = echo_bytes(typ, id, seq, data);
    let b4 = bytes::be16_bytes(id);
    let b6 = bytes::be16_bytes(seq);
    assert(u[4] == b4[0] && u[5] == b4[1] && u[6] == b6[0] && u[7] == b6[1]);
    bytes::be16_round_trip(id);
    bytes::be16_round_trip(seq);
    assert(m.skip(8) =~= data);
    ipv4::stored_checksum_verifies(u, 2);
}

} // verus!
