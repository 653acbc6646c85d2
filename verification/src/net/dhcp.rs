//! DHCP: leasing an IPv4 address in the four-step exchange of discover, offer, request and
//! acknowledgement. A message is a 236-byte fixed part, a magic cookie and a list of options.

use vstd::prelude::*;

use crate::bytes;
use crate::bytes::{
    append, append_be16, append_be32, append_zeros, read_array4, read_be32, same_bytes,
};
use crate::net::ether::MacAddr;

verus! {

/// The UDP port of a DHCP server.
pub const SERVER_PORT: u16 = 67;

/// The UDP port of a DHCP client.
pub const CLIENT_PORT: u16 = 68;

/// The op code of a message from client to server.
pub const BOOTREQUEST: u8 = 1;

/// The op code of a message from server to client.
pub const BOOTREPLY: u8 = 2;

/// Hardware type: Ethernet.
pub const HTYPE_ETHERNET: u8 = 1;

/// The length of a MAC address.
pub const HLEN_ETHERNET: u8 = 6;

/// The flag that asks the server to broadcast its reply.
pub const FLAG_BROADCAST: u16 = 0x8000;

/// The length of the fixed part, up to the magic cookie.
pub const FIXED_LEN: usize = 236;

pub const DISCOVER: u8 = 1;

pub const OFFER: u8 = 2;

pub const REQUEST: u8 = 3;

pub const ACK: u8 = 5;

pub const NAK: u8 = 6;

pub const OPT_PAD: u8 = 0;

pub const OPT_SUBNET_MASK: u8 = 1;

pub const OPT_ROUTER: u8 = 3;

pub const OPT_DNS: u8 = 6;

pub const OPT_REQUESTED_IP: u8 = 50;

pub const OPT_LEASE_TIME: u8 = 51;

pub const OPT_MSG_TYPE: u8 = 53;

pub const OPT_SERVER_ID: u8 = 54;

pub const OPT_PARAM_REQUEST: u8 = 55;

pub const OPT_END: u8 = 255;

/// The configuration that a server offers or confirms.
#[derive(Debug, Clone, Copy, PartialEq, Eq)]
pub struct Reply {
    /// The message type: [`OFFER`], [`ACK`], [`NAK`] or another.
    pub msg_type: u8,
    /// The address that the server gives us.
    pub your_ip: [u8; 4],
    /// The server that sent this; zero if it does not say.
    pub server_id: [u8; 4],
    pub subnet_mask: Option<[u8; 4]>,
    /// The first router listed.
    pub router: Option<[u8; 4]>,
    /// The first DNS server listed.
    pub dns: Option<[u8; 4]>,
    /// The lease duration in seconds.
    pub lease_secs: Option<u32>,
}

/// The contents of a [`Reply`].
#[verifier::ext_equal]
pub struct ReplyView {
    pub msg_type: u8,
    pub your_ip: Seq<u8>,
    pub server_id: Seq<u8>,
    pub subnet_mask: Option<Seq<u8>>,
    pub router: Option<Seq<u8>>,
    pub dns: Option<Seq<u8>>,
    pub lease_secs: Option<u32>,
}

/// An optional address as an optional sequence.
pub open spec fn ip_view(ip: Option<[u8; 4]>) -> Option<Seq<u8>> {
    match ip {
        Some(a) => Some(a@),
        None => None,
    }
}

impl View for Reply {
    type V = ReplyView;

    open spec fn view(&self) -> ReplyView {
        ReplyView {
            msg_type: self.msg_type,
            your_ip: self.your_ip@,
            server_id: self.server_id@,
            subnet_mask: ip_view(self.subnet_mask),
            router: ip_view(self.router),
            dns: ip_view(self.dns),
            lease_secs: self.lease_secs,
        }
    }
}

/// The four bytes of the magic cookie.
pub open spec fn cookie() -> Seq<u8> {
    seq![0x63u8, 0x82u8, 0x53u8, 0x63u8]
}

/// A client message up to its message type: the fixed part with the transaction id, the
/// broadcast flag, our address and our MAC, then the cookie and the first option.
pub open spec fn base_bytes(msg_type: u8, xid: u32, mac: Seq<u8>, ciaddr: Seq<u8>) -> Seq<u8> {
    seq![BOOTREQUEST, HTYPE_ETHERNET, HLEN_ETHERNET, 0u8] + bytes::be32_bytes(xid)
        + bytes::be16_bytes(0) + bytes::be16_bytes(FLAG_BROADCAST) + ciaddr + bytes::zeros(12)
        + mac + bytes::zeros(202) + cookie() + seq![OPT_MSG_TYPE, 1u8, msg_type]
}

/// The list of what we ask for: the subnet mask, the router and the DNS server.
pub open spec fn param_request() -> Seq<u8> {
    seq![OPT_PARAM_REQUEST, 3u8, OPT_SUBNET_MASK, OPT_ROUTER, OPT_DNS]
}

/// A message of type [`DISCOVER`].
pub open spec fn discover_bytes(xid: u32, mac: Seq<u8>) -> Seq<u8> {
    base_bytes(DISCOVER, xid, mac, bytes::zeros(4)) + param_request() + seq![OPT_END]
}

/// A message of type [`REQUEST`] for an address offered by a server.
pub open spec fn request_bytes(xid: u32, mac: Seq<u8>, requested_ip: Seq<u8>, server_id: Seq<u8>) -> Seq<
    u8,
> {
    base_bytes(REQUEST, xid, mac, bytes::zeros(4)) + seq![OPT_REQUESTED_IP, 4u8] + requested_ip
        + seq![OPT_SERVER_ID, 4u8] + server_id + param_request() + seq![OPT_END]
}

/// Builds a client message up to its message type.
fn build_base(msg_type: u8, xid: u32, mac: MacAddr, ciaddr: [u8; 4]) -> (message: Vec<u8>)
    ensures
        message@ == base_bytes(msg_type, xid, mac@, ciaddr@),
{
    let mut m: Vec<u8> = Vec::new();
    m.push(BOOTREQUEST);
    m.push(HTYPE_ETHERNET);
    m.push(HLEN_ETHERNET);
    m.push(0);
    append_be32(&mut m, xid);
    append_be16(&mut m, 0);
    append_be16(&mut m, FLAG_BROADCAST);
    append(&mut m, &ciaddr);
    append_zeros(&mut m, 12);
    append(&mut m, &mac);
    append_zeros(&mut m, 10 + 64 + 128);
    m.push(0x63);
    m.push(0x82);
    m.push(0x53);
    m.push(0x63);
    m.push(OPT_MSG_TYPE);
    m.push(1);
    m.push(msg_type);
    assert(m@ =~= base_bytes(msg_type, xid, mac@, ciaddr@));
    m
}

/// Appends the list of what we ask for.
fn push_param_request(m: &mut Vec<u8>)
    ensures
        final(m)@ == old(m)@ + param_request(),
{
    m.push(OPT_PARAM_REQUEST);
    m.push(3);
    m.push(OPT_SUBNET_MASK);
    m.push(OPT_ROUTER);
    m.push(OPT_DNS);
    assert(m@ =~= old(m)@ + param_request());
}

/// Builds the message that starts the exchange.
pub fn build_discover(xid: u32, mac: MacAddr) -> (message: Vec<u8>)
    ensures
        message@ == discover_bytes(xid, mac@),
{
    let none: [u8; 4] = [0, 0, 0, 0];
    assert(none@ =~= bytes::zeros(4));
    let mut m: Vec<u8> = build_base(DISCOVER, xid, mac, none);
    push_param_request(&mut m);
    m.push(OPT_END);
    assert(m@ =~= discover_bytes(xid, mac@));
    m
}

/// Builds the message that requests `requested_ip` from the server that offered it.
pub fn build_request(xid: u32, mac: MacAddr, requested_ip: [u8; 4], server_id: [u8; 4]) -> (message:
    Vec<u8>)
    ensures
        message@ == request_bytes(xid, mac@, requested_ip@, server_id@),
{
    let none: [u8; 4] = [0, 0, 0, 0];
    assert(none@ =~= bytes::zeros(4));
    let mut m: Vec<u8> = build_base(REQUEST, xid, mac, none);
    m.push(OPT_REQUESTED_IP);
    m.push(4);
    append(&mut m, &requested_ip);
    m.push(OPT_SERVER_ID);
    m.push(4);
    append(&mut m, &server_id);
    push_param_request(&mut m);
    m.push(OPT_END);
    assert(m@ =~= request_bytes(xid, mac@, requested_ip@, server_id@));
    m
}

/// The first address in an option value, if it holds one.
pub open spec fn first_address(val: Seq<u8>) -> Option<Seq<u8>> {
    if val.len() < 4 {
        None
    } else {
        Some(val.take(4))
    }
}

/// The reply after one option: an option that is not known or has the wrong length for its
/// code changes nothing, and a later one replaces an earlier.
pub open spec fn with_option(r: ReplyView, code: u8, val: Seq<u8>) -> ReplyView {
    if code == OPT_MSG_TYPE && val.len() == 1 {
        ReplyView { msg_type: val[0], ..r }
    } else if code == OPT_SERVER_ID && val.len() == 4 {
        ReplyView { server_id: val, ..r }
    } else if code == OPT_SUBNET_MASK {
        ReplyView { subnet_mask: first_address(val), ..r }
    } else if code == OPT_ROUTER {
        ReplyView { router: first_address(val), ..r }
    } else if code == OPT_DNS {
        ReplyView { dns: first_address(val), ..r }
    } else if code == OPT_LEASE_TIME && val.len() == 4 {
        ReplyView { lease_secs: Some(bytes::be32(val, 0)), ..r }
    } else {
        r
    }
}

/// The reply `r` completed by the options from `pos` on: code, length and value, except that
/// padding and the end marker are a single byte. `None` if an option runs past the buffer.
pub open spec fn with_options(r: ReplyView, s: Seq<u8>, pos: int) -> Option<ReplyView>
    decreases s.len() - pos,
{
    if pos >= s.len() || s[pos] == OPT_END {
        Some(r)
    } else if s[pos] == OPT_PAD {
        with_options(r, s, pos + 1)
    } else if pos + 1 >= s.len() || pos + 2 + s[pos + 1] > s.len() {
        None
    } else {
        let end = pos + 2 + s[pos + 1];
        with_options(with_option(r, s[pos], s.subrange(pos + 2, end)), s, end)
    }
}

/// Whether the message is a server's message in the exchange `xid`, with options.
pub open spec fn is_reply(s: Seq<u8>, xid: u32) -> bool {
    &&& s.len() >= FIXED_LEN + 4
    &&& s[0] == BOOTREPLY
    &&& bytes::be32(s, 4) == xid
    &&& s.subrange(236, 240) == cookie()
}

/// A reply before any option is read: only the address is known.
pub open spec fn bare_reply(your_ip: Seq<u8>) -> ReplyView {
    ReplyView {
        msg_type: 0,
        your_ip,
        server_id: bytes::zeros(4),
        subnet_mask: None,
        router: None,
        dns: None,
        lease_secs: None,
    }
}

/// What a message says, if it is a well-formed reply in the exchange `xid` that states its type.
pub open spec fn reply_in(s: Seq<u8>, xid: u32) -> Option<ReplyView> {
    if !is_reply(s, xid) {
        None
    } else {
        match with_options(bare_reply(s.subrange(16, 20)), s, 240) {
            Some(r) => if r.msg_type == 0 {
                None
            } else {
                Some(r)
            },
            None => None,
        }
    }
}

/// The first address in an option value, if it holds one.
fn first_ipv4(val: &[u8]) -> (ip: Option<[u8; 4]>)
    ensures
        ip_view(ip) == first_address(val@),
{
    if val.len() < 4 {
        return None;
    }
    let ip: [u8; 4] = read_array4(val, 0);
    assert(ip@ =~= val@.take(4));
    Some(ip)
}

/// Takes one option into the reply.
fn take_option(r: &mut Reply, code: u8, val: &[u8])
    ensures
        final(r)@ == with_option(old(r)@, code, val@),
{
    if code == OPT_MSG_TYPE && val.len() == 1 {
        r.msg_type = val[0];
    } else if code == OPT_SERVER_ID && val.len() == 4 {
        let id: [u8; 4] = read_array4(val, 0);
        assert(id@ =~= val@);
        r.server_id = id;
    } else if code == OPT_SUBNET_MASK {
        r.subnet_mask = first_ipv4(val);
    } else if code == OPT_ROUTER {
        r.router = first_ipv4(val);
    } else if code == OPT_DNS {
        r.dns = first_ipv4(val);
    } else if code == OPT_LEASE_TIME && val.len() == 4 {
        r.lease_secs = Some(read_be32(val, 0));
    }
}

/// Parses a DHCP reply: `None` exactly when the message is too short, not from a server, of
/// another exchange, without the magic cookie, with an option that runs past its end, or without
/// a message type.
pub fn parse_reply(buf: &[u8], expected_xid: u32) -> (reply: Option<Reply>)
    ensures
        match reply {
            Some(r) => reply_in(buf@, expected_xid) == Some(r@),
            None => reply_in(buf@, expected_xid) is None,
        },
{
    let n: usize = buf.len();
    if n < FIXED_LEN + 4 {
        return None;
    }
    if buf[0] != BOOTREPLY {
        return None;
    }
    if read_be32(buf, 4) != expected_xid {
        return None;
    }
    let magic: [u8; 4] = [0x63, 0x82, 0x53, 0x63];
    assert(magic@ =~= cookie());
    if !same_bytes(&buf[FIXED_LEN..FIXED_LEN + 4], &magic) {
        return None;
    }
    let none: [u8; 4] = [0, 0, 0, 0];
    assert(none@ =~= bytes::zeros(4));
    let mut reply = Reply {
        msg_type: 0,
        your_ip: read_array4(buf, 16),
        server_id: none,
        subnet_mask: None,
        router: None,
        dns: None,
        lease_secs: None,
    };
    let mut pos: usize = FIXED_LEN + 4;
    let ghost start = reply@;
    assert(start == bare_reply(buf@.subrange(16, 20)));
    while pos < n && buf[pos] != OPT_END
        invariant
            n == buf@.len(),
            pos <= n,
            with_options(start, buf@, 240) == with_options(reply@, buf@, pos as int),
            is_reply(buf@, expected_xid),
            start == bare_reply(buf@.subrange(16, 20)),
        decreases n - pos,
    {
        let code: u8 = buf[pos];
        if code == OPT_PAD {
            pos = pos + 1;
        } else {
            if n - pos < 2 {
                return None;
            }
            let len: usize = buf[pos + 1] as usize;
            if n - pos - 2 < len {
                return None;
            }
            let end: usize = pos + 2 + len;
            take_option(&mut reply, code, &buf[pos + 2..end]);
            pos = end;
        }
    }
    if reply.msg_type == 0 {
        return None;
    }
    Some(reply)
}

/// Both client messages are addressed to the exchange by its id and carry our MAC, the cookie,
/// and their type as the first option.
pub proof fn client_message_layout(msg_type: u8, xid: u32, mac: Seq<u8>, rest: Seq<u8>)
    requires
        mac.len() == 6,
    ensures
        ({
            let m = base_bytes(msg_type, xid, mac, bytes::zeros(4)) + rest;
            &&& m[0] == BOOTREQUEST
            &&& bytes::be32(m, 4) == xid
            &&& bytes::be16(m, 10) == FLAG_BROADCAST
            &&& m.subrange(12, 16) == bytes::zeros(4)
            &&& m.subrange(28, 34) == mac
            &&& m.subrange(236, 240) == cookie()
            &&& m.subrange(240, 243) == seq![OPT_MSG_TYPE, 1u8, msg_type]
        }),
{
    let m = base_bytes(msg_type, xid, mac, bytes::zeros(4)) + rest;
    let b = bytes::be32_bytes(xid);
    let f = bytes::be16_bytes(FLAG_BROADCAST);
    bytes::be32_round_trip(xid);
    bytes::be16_round_trip(FLAG_BROADCAST);
    assert(m[4] == b[0] && m[5] == b[1] && m[6] == b[2] && m[7] == b[3]);
    assert(m[10] == f[0] && m[11] == f[1]);
    assert(m.subrange(12, 16) =~= bytes::zeros(4));
    assert(m.subrange(28, 34) =~= mac);
    assert(m.subrange(236, 240) =~= cookie());
    assert(m.subrange(240, 243) =~= seq![OPT_MSG_TYPE, 1u8, msg_type]);
}

/// A client never takes its own kind of message for a reply.
pub proof fn requests_are_not_replies(msg_type: u8, xid: u32, mac: Seq<u8>, rest: Seq<u8>, other: u32)
    ensures
        reply_in(base_bytes(msg_type, xid, mac, bytes::zeros(4)) + rest, other) is None,
{
    assert((base_bytes(msg_type, xid, mac, bytes::zeros(4)) + rest)[0] == BOOTREQUEST);
}

} // verus!
