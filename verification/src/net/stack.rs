//! The protocol stack: what a received frame does, and what is sent in answer.
//!
//! The card is outside: received frames are handed in, and frames to transmit are returned.

use vstd::prelude::*;

use crate::bytes;
use crate::bytes::{same_ip, to_vec};
use crate::net::arp;
use crate::net::arp::{ArpCache, ArpPacket};
use crate::net::dhcp;
use crate::net::ether;
use crate::net::ether::{Frame, MacAddr};
use crate::net::icmp;
use crate::net::icmp::Echo;
use crate::net::ipv4;
use crate::net::ipv4::Ipv4Packet;
use crate::net::tcp;
use crate::net::tcp::model;
use crate::net::tcp::model::TcpModel;
use crate::net::tcp::{Segment, Tcp};
use crate::net::udp;
use crate::net::udp::Datagram;

verus! {

/// The address used when no DHCP server answers.
pub const OUR_IP: [u8; 4] = [10, 0, 2, 15];

/// The virtual gateway.
pub const GATEWAY_IP: [u8; 4] = [10, 0, 2, 2];

/// The limited broadcast address.
pub const LIMITED_BROADCAST: [u8; 4] = [255, 255, 255, 255];

/// The virtual DNS server.
pub const DNS_SERVER: [u8; 4] = [10, 0, 2, 3];

/// The UDP port whose datagrams are sent straight back.
pub const UDP_ECHO_PORT: u16 = 7;

/// Totals since the start.
#[derive(Clone, Copy)]
pub struct Stats {
    pub frames_received: u64,
    pub arp_seen: u64,
    pub ipv4_seen: u64,
    pub arp_replies_sent: u64,
    pub icmp_requests_handled: u64,
    pub icmp_replies_received: u64,
    pub udp_received: u64,
    pub udp_echoes_sent: u64,
    pub udp_delivered: u64,
    pub dhcp_delivered: u64,
    pub tcp_segments_received: u64,
}

/// The counters that number pings, queries, exchanges and connections.
#[derive(Clone, Copy)]
pub struct Serials {
    pub ping: u32,
    pub dns: u32,
    pub dhcp: u32,
    pub ephemeral: u32,
}

/// The state of the stack.
#[verifier::ext_equal]
pub struct StackModel {
    pub mac: Seq<u8>,
    /// Our address; all zero until one is configured.
    pub ip: Seq<u8>,
    pub gateway: Seq<u8>,
    pub dns: Seq<u8>,
    pub mask: Seq<u8>,
    pub dhcp_server: Seq<u8>,
    pub lease_secs: u32,
    pub dhcp_configured: bool,
    pub arp: Map<u32, Seq<u8>>,
    pub tcp: TcpModel,
    pub stats: Stats,
    pub serials: Serials,
    /// The source of the frame received last.
    pub last_src: Seq<u8>,
    /// The identifier and number of the echo reply received last.
    pub last_reply: (u16, u16),
    /// The payload of the datagram delivered last.
    pub last_udp: Seq<u8>,
    /// The DHCP message delivered last.
    pub last_dhcp: Seq<u8>,
}

/// The network stack.
pub struct Stack {
    mac: MacAddr,
    ip: [u8; 4],
    gateway: [u8; 4],
    dns: [u8; 4],
    mask: [u8; 4],
    dhcp_server: [u8; 4],
    lease_secs: u32,
    dhcp_configured: bool,
    arp: ArpCache,
    tcp: Tcp,
    stats: Stats,
    serials: Serials,
    last_src: MacAddr,
    last_reply: (u16, u16),
    last_udp: Vec<u8>,
    last_dhcp: Vec<u8>,
}

impl View for Stack {
    type V = StackModel;

    closed spec fn view(&self) -> StackModel {
        StackModel {
            mac: self.mac@,
            ip: self.ip@,
            gateway: self.gateway@,
            dns: self.dns@,
            mask: self.mask@,
            dhcp_server: self.dhcp_server@,
            lease_secs: self.lease_secs,
            dhcp_configured: self.dhcp_configured,
            arp: self.arp@,
            tcp: self.tcp@,
            stats: self.stats,
            serials: self.serials,
            last_src: self.last_src@,
            last_reply: self.last_reply,
            last_udp: self.last_udp@,
            last_dhcp: self.last_dhcp@,
        }
    }
}

impl Stack {
    /// What holds of the stack between any two operations.
    pub open spec fn ok(&self) -> bool {
        model::tcp_ok(self@.tcp)
    }

    /// The TCP connections.
    pub fn tcp(&self) -> (tcp: &Tcp)
        ensures
            tcp@ == self@.tcp,
    {
        &self.tcp
    }

    /// The ARP cache.
    pub fn arp(&self) -> (arp: &ArpCache)
        ensures
            arp@ == self@.arp,
    {
        &self.arp
    }
}

/// The stack that has just been brought up: only the card's address is known.
pub open spec fn fresh_stack(mac: Seq<u8>, tcp: TcpModel) -> StackModel {
    StackModel {
        mac,
        ip: bytes::zeros(4),
        gateway: bytes::zeros(4),
        dns: bytes::zeros(4),
        mask: bytes::zeros(4),
        dhcp_server: bytes::zeros(4),
        lease_secs: 0,
        dhcp_configured: false,
        arp: Map::empty(),
        tcp,
        stats: Stats {
            frames_received: 0,
            arp_seen: 0,
            ipv4_seen: 0,
            arp_replies_sent: 0,
            icmp_requests_handled: 0,
            icmp_replies_received: 0,
            udp_received: 0,
            udp_echoes_sent: 0,
            udp_delivered: 0,
            dhcp_delivered: 0,
            tcp_segments_received: 0,
        },
        serials: Serials { ping: 0, dns: 0, dhcp: 0, ephemeral: 49152 },
        last_src: bytes::zeros(6),
        last_reply: (0, 0),
        last_udp: Seq::empty(),
        last_dhcp: Seq::empty(),
    }
}

/// Brings the stack up for a card with the address `mac`. No IP address is configured yet.
pub fn init(mac: MacAddr) -> (stack: Stack)
    ensures
        stack.ok(),
        stack@.tcp.connections.len() == 0,
        stack@.tcp.next_isn == model::ISN_STRIDE,
        stack@ == fresh_stack(mac@, stack@.tcp),
{
    let none: [u8; 4] = [0, 0, 0, 0];
    let nobody: MacAddr = [0, 0, 0, 0, 0, 0];
    assert(none@ =~= bytes::zeros(4));
    assert(nobody@ =~= bytes::zeros(6));
    let stack = Stack {
        mac,
        ip: none,
        gateway: none,
        dns: none,
        mask: none,
        dhcp_server: none,
        lease_secs: 0,
        dhcp_configured: false,
        arp: ArpCache::new(),
        tcp: Tcp::new(),
        stats: Stats {
            frames_received: 0,
            arp_seen: 0,
            ipv4_seen: 0,
            arp_replies_sent: 0,
            icmp_requests_handled: 0,
            icmp_replies_received: 0,
            udp_received: 0,
            udp_echoes_sent: 0,
            udp_delivered: 0,
            dhcp_delivered: 0,
            tcp_segments_received: 0,
        },
        serials: Serials { ping: 0, dns: 0, dhcp: 0, ephemeral: 49152 },
        last_src: nobody,
        last_reply: (0, 0),
        last_udp: Vec::new(),
        last_dhcp: Vec::new(),
    };
    assert(stack@ =~= fresh_stack(mac@, stack@.tcp));
    stack
}

/// Our MAC address.
pub fn our_mac(stack: &Stack) -> (mac: MacAddr)
    ensures
        mac@ == stack@.mac,
{
    stack.mac
}

/// Our IPv4 address, all zero until one is configured.
pub fn our_ip(stack: &Stack) -> (ip: [u8; 4])
    ensures
        ip@ == stack@.ip,
{
    stack.ip
}

/// The frame that carries an IPv4 packet from us to `dst` by way of `mac`.
pub open spec fn ipv4_frame(m: StackModel, mac: Seq<u8>, dst: Seq<u8>, protocol: u8, payload: Seq<u8>) -> Seq<
    u8,
> {
    ether::frame_bytes(
        mac,
        m.mac,
        ether::ETHERTYPE_IPV4,
        ipv4::packet_bytes(m.ip, dst, protocol, payload),
    )
}

/// Builds the frame that carries an IPv4 packet from us to `dst` by way of `mac`.
pub fn build_ipv4_frame(stack: &Stack, mac: MacAddr, dst: [u8; 4], protocol: u8, payload: &[u8]) -> (frame:
    Vec<u8>)
    ensures
        frame@ == ipv4_frame(stack@, mac@, dst@, protocol, payload@),
{
    let packet: Vec<u8> = ipv4::build(stack.ip, dst, protocol, payload);
    ether::build(mac, stack.mac, ether::ETHERTYPE_IPV4, &packet)
}

/// What an ARP payload does to the stack, and the frame sent in answer: every packet teaches us
/// its sender's address, and a request for ours is answered.
pub open spec fn received_arp(m: StackModel, payload: Seq<u8>) -> (StackModel, Option<Seq<u8>>) {
    if !arp::is_arp(payload) {
        (m, None)
    } else {
        let sha = payload.subrange(8, 14);
        let spa = payload.subrange(14, 18);
        let learned = StackModel { arp: m.arp.insert(arp::ip_key(spa), sha), ..m };
        if bytes::be16(payload, 6) == arp::OPER_REQUEST && payload.subrange(24, 28) == m.ip {
            let reply = arp::packet_bytes(arp::OPER_REPLY, m.mac, m.ip, sha, spa);
            (
                StackModel {
                    stats: Stats {
                        arp_replies_sent: m.stats.arp_replies_sent.wrapping_add(1),
                        ..m.stats
                    },
                    ..learned
                },
                Some(ether::frame_bytes(sha, m.mac, ether::ETHERTYPE_ARP, reply)),
            )
        } else {
            (learned, None)
        }
    }
}

/// What an ICMP message from `src` does: an echo request is answered, an echo reply noted.
pub open spec fn received_icmp(m: StackModel, src_mac: Seq<u8>, src: Seq<u8>, payload: Seq<u8>) -> (
    StackModel,
    Option<Seq<u8>>,
) {
    if payload.len() < icmp::HEADER_LEN {
        (m, None)
    } else {
        let id = bytes::be16(payload, 4);
        let seq = bytes::be16(payload, 6);
        if payload[0] == icmp::TYPE_ECHO_REQUEST {
            (
                StackModel {
                    stats: Stats {
                        icmp_requests_handled: m.stats.icmp_requests_handled.wrapping_add(1),
                        ..m.stats
                    },
                    ..m
                },
                Some(
                    ipv4_frame(
                        m,
                        src_mac,
                        src,
                        ipv4::PROTO_ICMP,
                        icmp::echo_bytes(icmp::TYPE_ECHO_REPLY, id, seq, payload.skip(8)),
                    ),
                ),
            )
        } else if payload[0] == icmp::TYPE_ECHO_REPLY {
            (
                StackModel {
                    stats: Stats {
                        icmp_replies_received: m.stats.icmp_replies_received.wrapping_add(1),
                        ..m.stats
                    },
                    last_reply: (id, seq),
                    ..m
                },
                None,
            )
        } else {
            (m, None)
        }
    }
}

/// What a UDP datagram from `src` does: a DHCP reply is kept for the exchange in progress, a
/// datagram on the echo port is sent back with the ports swapped, and any other is delivered.
pub open spec fn received_udp(m: StackModel, src_mac: Seq<u8>, src: Seq<u8>, payload: Seq<u8>) -> (
    StackModel,
    Option<Seq<u8>>,
) {
    if payload.len() < udp::HEADER_LEN {
        (m, None)
    } else {
        let src_port = bytes::be16(payload, 0);
        let dst_port = bytes::be16(payload, 2);
        let data = payload.subrange(8, udp::payload_end(payload));
        let counted = Stats { udp_received: m.stats.udp_received.wrapping_add(1), ..m.stats };
        if dst_port == dhcp::CLIENT_PORT {
            (
                StackModel {
                    stats: Stats {
                        dhcp_delivered: m.stats.dhcp_delivered.wrapping_add(1),
                        ..counted
                    },
                    last_dhcp: data,
                    ..m
                },
                None,
            )
        } else if dst_port == UDP_ECHO_PORT {
            (
                StackModel {
                    stats: Stats {
                        udp_echoes_sent: m.stats.udp_echoes_sent.wrapping_add(1),
                        ..counted
                    },
                    ..m
                },
                Some(
                    ipv4_frame(
                        m,
                        src_mac,
                        src,
                        udp::PROTO_UDP,
                        udp::datagram_bytes(m.ip, src, UDP_ECHO_PORT, src_port, data),
                    ),
                ),
            )
        } else {
            (
                StackModel {
                    stats: Stats {
                        udp_delivered: m.stats.udp_delivered.wrapping_add(1),
                        ..counted
                    },
                    last_udp: data,
                    ..m
                },
                None,
            )
        }
    }
}

/// What a TCP segment from `src` does: it advances the connection table, whose answer is sent
/// back.
pub open spec fn received_tcp(m: StackModel, src_mac: Seq<u8>, src: Seq<u8>, payload: Seq<u8>, now: u64) -> (
    StackModel,
    Option<Seq<u8>>,
) {
    if !tcp::segment::is_segment(payload) {
        (m, None)
    } else {
        let (table, reply) = model::on_segment(
            m.tcp,
            m.ip,
            src,
            tcp::segment::decode(payload),
            now,
        );
        (
            StackModel {
                tcp: table,
                stats: Stats {
                    tcp_segments_received: m.stats.tcp_segments_received.wrapping_add(1),
                    ..m.stats
                },
                ..m
            },
            match reply {
                Some(r) => Some(ipv4_frame(m, src_mac, src, tcp::PROTO_TCP, r)),
                None => None,
            },
        )
    }
}

/// Whether a packet is for us: addressed to our address or to everyone.
pub open spec fn for_us(m: StackModel, dst: Seq<u8>) -> bool {
    dst == m.ip || dst == seq![255u8, 255u8, 255u8, 255u8]
}

/// What an IPv4 payload does.
pub open spec fn received_ipv4(m: StackModel, src_mac: Seq<u8>, packet: Seq<u8>, now: u64) -> (
    StackModel,
    Option<Seq<u8>>,
) {
    if !ipv4::is_ipv4(packet) || !for_us(m, packet.subrange(16, 20)) {
        (m, None)
    } else {
        let src = packet.subrange(12, 16);
        let payload = packet.subrange(ipv4::stated_header_len(packet), ipv4::payload_end(packet));
        if packet[9] == ipv4::PROTO_ICMP {
            received_icmp(m, src_mac, src, payload)
        } else if packet[9] == udp::PROTO_UDP {
            received_udp(m, src_mac, src, payload)
        } else if packet[9] == tcp::PROTO_TCP {
            received_tcp(m, src_mac, src, payload, now)
        } else {
            (m, None)
        }
    }
}

/// What a received frame does to the stack, and the frame sent in answer, if any.
pub open spec fn received(m: StackModel, frame: Seq<u8>, now: u64) -> (
    StackModel,
    Option<Seq<u8>>,
) {
    if frame.len() < ether::HEADER_LEN {
        (m, None)
    } else {
        let src = frame.subrange(6, 12);
        let ethertype = bytes::be16(frame, 12);
        let payload = frame.skip(14);
        let counted = Stats {
            frames_received: m.stats.frames_received.wrapping_add(1),
            ..m.stats
        };
        if ethertype == ether::ETHERTYPE_ARP {
            received_arp(
                StackModel {
                    last_src: src,
                    stats: Stats { arp_seen: m.stats.arp_seen.wrapping_add(1), ..counted },
                    ..m
                },
                payload,
            )
        } else if ethertype == ether::ETHERTYPE_IPV4 {
            received_ipv4(
                StackModel {
                    last_src: src,
                    stats: Stats { ipv4_seen: m.stats.ipv4_seen.wrapping_add(1), ..counted },
                    ..m
                },
                src,
                payload,
                now,
            )
        } else {
            (StackModel { last_src: src, stats: counted, ..m }, None)
        }
    }
}

/// An optional frame as an optional sequence.
pub open spec fn frame_view(f: Option<Vec<u8>>) -> Option<Seq<u8>> {
    match f {
        Some(v) => Some(v@),
        None => None,
    }
}

/// Handles an ICMP message addressed to us.
fn handle_icmp(stack: &mut Stack, pkt: &Ipv4Packet, src_mac: MacAddr) -> (reply: Option<Vec<u8>>)
    ensures
        (final(stack)@, frame_view(reply)) == received_icmp(
            old(stack)@,
            src_mac@,
            pkt.src@,
            pkt.payload@,
        ),
{
    let echo: Echo = match Echo::parse(pkt.payload) {
        Some(e) => e,
        None => {
            return None;
        },
    };
    if echo.typ == icmp::TYPE_ECHO_REQUEST {
        let reply: Vec<u8> = icmp::build_echo_reply(echo.id, echo.seq, echo.data);
        let frame: Vec<u8> = build_ipv4_frame(stack, src_mac, pkt.src, ipv4::PROTO_ICMP, &reply);
        stack.stats.icmp_requests_handled = stack.stats.icmp_requests_handled.wrapping_add(1);
        Some(frame)
    } else if echo.typ == icmp::TYPE_ECHO_REPLY {
        stack.last_reply = (echo.id, echo.seq);
        stack.stats.icmp_replies_received = stack.stats.icmp_replies_received.wrapping_add(1);
        None
    } else {
        None
    }
}

/// Handles a UDP datagram addressed to us.
fn handle_udp(stack: &mut Stack, pkt: &Ipv4Packet, src_mac: MacAddr) -> (reply: Option<Vec<u8>>)
    ensures
        (final(stack)@, frame_view(reply)) == received_udp(
            old(stack)@,
            src_mac@,
            pkt.src@,
            pkt.payload@,
        ),
{
    let dg: Datagram = match Datagram::parse(pkt.payload) {
        Some(d) => d,
        None => {
            return None;
        },
    };
    stack.stats.udp_received = stack.stats.udp_received.wrapping_add(1);
    if dg.dst_port == dhcp::CLIENT_PORT {
        stack.last_dhcp = to_vec(dg.payload);
        stack.stats.dhcp_delivered = stack.stats.dhcp_delivered.wrapping_add(1);
        None
    } else if dg.dst_port == UDP_ECHO_PORT {
        let reply: Vec<u8> = udp::build(
            stack.ip,
            pkt.src,
            UDP_ECHO_PORT,
            dg.src_port,
            dg.payload,
        );
        let frame: Vec<u8> = build_ipv4_frame(stack, src_mac, pkt.src, udp::PROTO_UDP, &reply);
        stack.stats.udp_echoes_sent = stack.stats.udp_echoes_sent.wrapping_add(1);
        Some(frame)
    } else {
        stack.last_udp = to_vec(dg.payload);
        stack.stats.udp_delivered = stack.stats.udp_delivered.wrapping_add(1);
        None
    }
}

/// Handles a TCP segment addressed to us.
fn handle_tcp(stack: &mut Stack, pkt: &Ipv4Packet, src_mac: MacAddr, now: u64) -> (reply: Option<
    Vec<u8>,
>)
    requires
        old(stack).ok(),
        model::clock_ok(now),
    ensures
        final(stack).ok(),
        (final(stack)@, frame_view(reply)) == received_tcp(
            old(stack)@,
            src_mac@,
            pkt.src@,
            pkt.payload@,
            now,
        ),
{
    let seg: Segment = match Segment::parse(pkt.payload) {
        Some(s) => s,
        None => {
            return None;
        },
    };
    stack.stats.tcp_segments_received = stack.stats.tcp_segments_received.wrapping_add(1);
    let ip: [u8; 4] = stack.ip;
    match tcp::on_segment(&mut stack.tcp, ip, pkt.src, &seg, now) {
        Some(reply) => Some(build_ipv4_frame(stack, src_mac, pkt.src, tcp::PROTO_TCP, &reply)),
        None => None,
    }
}

/// Processes one received frame and returns the frame to transmit in answer, if any.
pub fn receive(stack: &mut Stack, frame: &[u8], now: u64) -> (reply: Option<Vec<u8>>)
    requires
        old(stack).ok(),
        model::clock_ok(now),
    ensures
        final(stack).ok(),
        (final(stack)@, frame_view(reply)) == received(old(stack)@, frame@, now),
{
    let f: Frame = match Frame::parse(frame) {
        Some(f) => f,
        None => {
            return None;
        },
    };
    stack.stats.frames_received = stack.stats.frames_received.wrapping_add(1);
    stack.last_src = f.src;
    if f.ethertype == ether::ETHERTYPE_ARP {
        stack.stats.arp_seen = stack.stats.arp_seen.wrapping_add(1);
        let pkt: ArpPacket = match ArpPacket::parse(f.payload) {
            Some(p) => p,
            None => {
                return None;
            },
        };
        let mac: MacAddr = stack.mac;
        let ip: [u8; 4] = stack.ip;
        match arp::process(&mut stack.arp, mac, ip, &pkt) {
            Some(reply) => {
                let answer: Vec<u8> = ether::build(pkt.sha, mac, ether::ETHERTYPE_ARP, &reply);
                stack.stats.arp_replies_sent = stack.stats.arp_replies_sent.wrapping_add(1);
                Some(answer)
            },
            None => None,
        }
    } else if f.ethertype == ether::ETHERTYPE_IPV4 {
        stack.stats.ipv4_seen = stack.stats.ipv4_seen.wrapping_add(1);
        let pkt: Ipv4Packet = match Ipv4Packet::parse(f.payload) {
            Some(p) => p,
            None => {
                return None;
            },
        };
        let everyone: [u8; 4] = [255, 255, 255, 255];
        assert(everyone@ =~= seq![255u8, 255u8, 255u8, 255u8]);
        if !same_ip(pkt.dst, stack.ip) && !same_ip(pkt.dst, everyone) {
            return None;
        }
        if pkt.protocol == ipv4::PROTO_ICMP {
            handle_icmp(stack, &pkt, f.src)
        } else if pkt.protocol == udp::PROTO_UDP {
            handle_udp(stack, &pkt, f.src)
        } else if pkt.protocol == tcp::PROTO_TCP {
            handle_tcp(stack, &pkt, f.src, now)
        } else {
            None
        }
    } else {
        None
    }
}

/// What the frames from `frames` on do to the stack, and the frames sent in answer, in order.
pub open spec fn received_all(m: StackModel, frames: Seq<Seq<u8>>, now: u64, n: int) -> (
    StackModel,
    Seq<Seq<u8>>,
)
    decreases n,
{
    if n <= 0 {
        (m, Seq::empty())
    } else {
        let (before, out) = received_all(m, frames, now, n - 1);
        let (after, reply) = received(before, frames[n - 1], now);
        (
            after,
            match reply {
                Some(f) => out.push(f),
                None => out,
            },
        )
    }
}

/// Frames as sequences.
pub open spec fn frames_view(frames: Seq<Vec<u8>>) -> Seq<Seq<u8>> {
    Seq::new(frames.len(), |i: int| frames[i]@)
}

/// Dispatches every frame that the card had waiting, in order, and returns the frames to
/// transmit in answer.
pub fn poll(stack: &mut Stack, frames: &Vec<Vec<u8>>, now: u64) -> (out: Vec<Vec<u8>>)
    requires
        old(stack).ok(),
        model::clock_ok(now),
    ensures
        final(stack).ok(),
        (final(stack)@, frames_view(out@)) == received_all(
            old(stack)@,
            frames_view(frames@),
            now,
            frames@.len() as int,
        ),
{
    let mut out: Vec<Vec<u8>> = Vec::new();
    let mut i: usize = 0;
    assert(frames_view(out@) =~= Seq::empty());
    while i < frames.len()
        invariant
            stack.ok(),
            model::clock_ok(now),
            i <= frames@.len(),
            (stack@, frames_view(out@)) == received_all(
                old(stack)@,
                frames_view(frames@),
                now,
                i as int,
            ),
        decreases frames@.len() - i,
    {
        let ghost sent = frames_view(out@);
        assert(frames_view(frames@)[i as int] == frames@[i as int]@);
        match receive(stack, &frames[i], now) {
            Some(reply) => {
                let ghost view = reply@;
                out.push(reply);
                assert(frames_view(out@) =~= sent.push(view));
            },
            None => {},
        }
        i = i + 1;
    }
    out
}

/// Frames parsed.
pub fn frames_received(stack: &Stack) -> (n: u64)
    ensures
        n == stack@.stats.frames_received,
{
    stack.stats.frames_received
}

/// Frames classified as ARP.
pub fn arp_seen(stack: &Stack) -> (n: u64)
    ensures
        n == stack@.stats.arp_seen,
{
    stack.stats.arp_seen
}

/// Frames classified as IPv4.
pub fn ipv4_seen(stack: &Stack) -> (n: u64)
    ensures
        n == stack@.stats.ipv4_seen,
{
    stack.stats.ipv4_seen
}

/// ARP replies sent.
pub fn arp_replies_sent(stack: &Stack) -> (n: u64)
    ensures
        n == stack@.stats.arp_replies_sent,
{
    stack.stats.arp_replies_sent
}

/// Echo requests answered.
pub fn icmp_requests_handled(stack: &Stack) -> (n: u64)
    ensures
        n == stack@.stats.icmp_requests_handled,
{
    stack.stats.icmp_requests_handled
}

/// Echo replies received.
pub fn icmp_replies_received(stack: &Stack) -> (n: u64)
    ensures
        n == stack@.stats.icmp_replies_received,
{
    stack.stats.icmp_replies_received
}

/// UDP datagrams parsed.
pub fn udp_received(stack: &Stack) -> (n: u64)
    ensures
        n == stack@.stats.udp_received,
{
    stack.stats.udp_received
}

/// UDP datagrams sent back.
pub fn udp_echoes_sent(stack: &Stack) -> (n: u64)
    ensures
        n == stack@.stats.udp_echoes_sent,
{
    stack.stats.udp_echoes_sent
}

/// UDP datagrams delivered.
pub fn udp_delivered(stack: &Stack) -> (n: u64)
    ensures
        n == stack@.stats.udp_delivered,
{
    stack.stats.udp_delivered
}

/// DHCP messages delivered.
pub fn dhcp_delivered(stack: &Stack) -> (n: u64)
    ensures
        n == stack@.stats.dhcp_delivered,
{
    stack.stats.dhcp_delivered
}

/// TCP segments parsed.
pub fn tcp_segments_received(stack: &Stack) -> (n: u64)
    ensures
        n == stack@.stats.tcp_segments_received,
{
    stack.stats.tcp_segments_received
}

/// Whether a lease has been installed.
pub fn dhcp_configured(stack: &Stack) -> (n: bool)
    ensures
        n == stack@.dhcp_configured,
{
    stack.dhcp_configured
}

/// The lease duration in seconds, zero if there is none.
pub fn lease_secs(stack: &Stack) -> (n: u32)
    ensures
        n == stack@.lease_secs,
{
    stack.lease_secs
}

/// The identifier and number of the echo reply received last.
pub fn last_reply(stack: &Stack) -> (n: (u16, u16))
    ensures
        n == stack@.last_reply,
{
    stack.last_reply
}

/// The gateway of the lease, all zero if none was named.
pub fn leased_gateway(stack: &Stack) -> (a: [u8; 4])
    ensures
        a@ == stack@.gateway,
{
    stack.gateway
}

/// The DNS server of the lease, all zero if none was named.
pub fn leased_dns(stack: &Stack) -> (a: [u8; 4])
    ensures
        a@ == stack@.dns,
{
    stack.dns
}

/// The subnet mask of the lease, all zero if none was named.
pub fn leased_mask(stack: &Stack) -> (a: [u8; 4])
    ensures
        a@ == stack@.mask,
{
    stack.mask
}

/// The source of the frame received last.
pub fn last_src(stack: &Stack) -> (a: MacAddr)
    ensures
        a@ == stack@.last_src,
{
    stack.last_src
}

/// A copy of the payload of the datagram delivered last.
pub fn last_udp(stack: &Stack) -> (payload: Vec<u8>)
    ensures
        payload@ == stack@.last_udp,
{
    to_vec(&stack.last_udp)
}

/// A copy of the DHCP message delivered last.
pub fn last_dhcp(stack: &Stack) -> (payload: Vec<u8>)
    ensures
        payload@ == stack@.last_dhcp,
{
    to_vec(&stack.last_dhcp)
}

/// The address of an option, or what was recorded before.
pub open spec fn leased_or(ip: Option<Seq<u8>>, before: Seq<u8>) -> Seq<u8> {
    match ip {
        Some(a) => a,
        None => before,
    }
}

/// The stack with the lease of an acknowledgement: our address, and what else it names.
pub open spec fn with_lease(m: StackModel, ack: dhcp::ReplyView) -> StackModel {
    StackModel {
        ip: ack.your_ip,
        dhcp_server: ack.server_id,
        gateway: leased_or(ack.router, m.gateway),
        dns: leased_or(ack.dns, m.dns),
        mask: leased_or(ack.subnet_mask, m.mask),
        lease_secs: match ack.lease_secs {
            Some(n) => n,
            None => 0,
        },
        dhcp_configured: true,
        ..m
    }
}

/// Installs the lease of an acknowledgement.
pub fn install_lease(stack: &mut Stack, ack: &dhcp::Reply)
    ensures
        final(stack)@ == with_lease(old(stack)@, ack@),
{
    stack.ip = ack.your_ip;
    stack.dhcp_server = ack.server_id;
    if let Some(gateway) = ack.router {
        stack.gateway = gateway;
    }
    if let Some(dns) = ack.dns {
        stack.dns = dns;
    }
    if let Some(mask) = ack.subnet_mask {
        stack.mask = mask;
    }
    stack.lease_secs =
    match ack.lease_secs {
        Some(n) => n,
        None => 0,
    };
    stack.dhcp_configured = true;
    assert(stack@ =~= with_lease(old(stack)@, ack@));
}

/// Configures the static address.
pub fn use_static_fallback(stack: &mut Stack)
    ensures
        final(stack)@ == (StackModel { ip: OUR_IP@, ..old(stack)@ }),
{
    stack.ip = OUR_IP;
}

/// Takes the number of the next ping.
pub fn next_ping_seq(stack: &mut Stack) -> (seq: u16)
    ensures
        seq == (old(stack)@.serials.ping + 1) % 0x1_0000,
        final(stack)@ == (StackModel {
            serials: Serials {
                ping: old(stack)@.serials.ping.wrapping_add(1),
                ..old(stack)@.serials
            },
            ..old(stack)@
        }),
{
    let n: u32 = stack.serials.ping.wrapping_add(1);
    stack.serials.ping = n;
    (n % 0x1_0000) as u16
}

/// Takes the id of the next DNS query.
pub fn next_dns_id(stack: &mut Stack) -> (id: u16)
    ensures
        id == (0xA000 + old(stack)@.serials.dns) % 0x1_0000,
        final(stack)@ == (StackModel {
            serials: Serials {
                dns: old(stack)@.serials.dns.wrapping_add(1),
                ..old(stack)@.serials
            },
            ..old(stack)@
        }),
{
    let n: u32 = stack.serials.dns;
    stack.serials.dns = n.wrapping_add(1);
    ((0xA000 + n as u64) % 0x1_0000) as u16
}

/// Takes the id of the next DHCP exchange.
pub fn next_dhcp_xid(stack: &mut Stack) -> (xid: u32)
    ensures
        xid == 0xAE7C_0000u32.wrapping_add(old(stack)@.serials.dhcp),
        final(stack)@ == (StackModel {
            serials: Serials {
                dhcp: old(stack)@.serials.dhcp.wrapping_add(1),
                ..old(stack)@.serials
            },
            ..old(stack)@
        }),
{
    let n: u32 = stack.serials.dhcp;
    stack.serials.dhcp = n.wrapping_add(1);
    0xAE7C_0000u32.wrapping_add(n)
}

/// Takes the next local port for an outgoing connection, in `49152..=65535`.
pub fn next_ephemeral_port(stack: &mut Stack) -> (port: u16)
    ensures
        port == 49152 + old(stack)@.serials.ephemeral % 16384,
        final(stack)@ == (StackModel {
            serials: Serials {
                ephemeral: old(stack)@.serials.ephemeral.wrapping_add(1),
                ..old(stack)@.serials
            },
            ..old(stack)@
        }),
{
    let n: u32 = stack.serials.ephemeral;
    stack.serials.ephemeral = n.wrapping_add(1);
    (49152 + n % 16384) as u16
}

/// Registers a listener on `port`.
pub fn tcp_listen(stack: &mut Stack, port: u16)
    requires
        old(stack).ok(),
    ensures
        final(stack).ok(),
        final(stack)@ == (StackModel {
            tcp: match model::find(old(stack)@.tcp.connections, model::listens_on(port)) {
                Some(_) => old(stack)@.tcp,
                None => TcpModel {
                    connections: old(stack)@.tcp.connections.push(model::listener(port)),
                    ..old(stack)@.tcp
                },
            },
            ..old(stack)@
        }),
{
    tcp::open_passive(&mut stack.tcp, port);
}

/// Drops every connection and listener.
pub fn tcp_reset(stack: &mut Stack)
    ensures
        final(stack).ok(),
        final(stack)@ == (StackModel {
            tcp: TcpModel { connections: Seq::empty(), ..old(stack)@.tcp },
            ..old(stack)@
        }),
{
    tcp::reset_connections(&mut stack.tcp);
}

/// Records an outgoing connection and returns the SYN to send.
pub fn tcp_open(stack: &mut Stack, remote_ip: [u8; 4], local_port: u16, remote_port: u16) -> (syn:
    Vec<u8>)
    requires
        old(stack).ok(),
    ensures
        final(stack).ok(),
        ({
            let m = old(stack)@;
            let t = model::syn_sent(local_port, remote_port, remote_ip@, m.tcp.next_isn);
            &&& final(stack)@ == (StackModel {
                tcp: TcpModel {
                    connections: m.tcp.connections.push(t),
                    next_isn: m.tcp.next_isn.wrapping_add(model::ISN_STRIDE),
                    ..m.tcp
                },
                ..m
            })
            &&& syn@ == tcp::segment::encode(
                m.ip,
                remote_ip@,
                model::own_segment(t, t.iss, 0, tcp::SYN, Seq::empty()),
            )
        }),
{
    let ip: [u8; 4] = stack.ip;
    tcp::open_active(&mut stack.tcp, ip, remote_ip, local_port, remote_port)
}

/// What accepting a connection on `port` does: the first established one that nobody has claimed
/// is claimed.
pub open spec fn accepted(m: StackModel, claimed: Seq<(u16, u16)>, port: u16) -> (
    Seq<(u16, u16)>,
    Option<(u16, u16)>,
) {
    match model::find(m.tcp.connections, model::acceptable(port, claimed)) {
        Some(i) => {
            let t = m.tcp.connections[i];
            (claimed.push((t.local_port, t.remote_port)), Some((t.local_port, t.remote_port)))
        },
        None => (claimed, None),
    }
}

/// Takes the next connection that a listener on `port` has accepted, and returns its local and
/// remote port. `claimed` holds the connections that were taken before.
pub fn tcp_accept(stack: &Stack, claimed: &mut Vec<(u16, u16)>, port: u16) -> (ports: Option<
    (u16, u16),
>)
    ensures
        (final(claimed)@, ports) == accepted(stack@, old(claimed)@, port),
{
    match tcp::unclaimed(&stack.tcp, port, claimed) {
        Some(ports) => {
            claimed.push(ports);
            Some(ports)
        },
        None => None,
    }
}

/// Queues `data` on the established connection with these ports and sends what the windows
/// allow. Returns the segments to transmit with the addresses they go to; `None` if there is no
/// such connection.
pub fn tcp_send(stack: &mut Stack, local_port: u16, remote_port: u16, data: &[u8], now: u64) -> (out:
    Option<Vec<(Vec<u8>, [u8; 4])>>)
    requires
        old(stack).ok(),
        model::clock_ok(now),
    ensures
        final(stack).ok(),
        match model::find(
            old(stack)@.tcp.connections,
            model::established_on(local_port, remote_port),
        ) {
            Some(i) => {
                let m = old(stack)@;
                let t = m.tcp.connections[i];
                let queued = m.tcp.connections.update(
                    i,
                    model::TcbModel { snd_buf: t.snd_buf + data@, ..t },
                );
                &&& out matches Some(segs) && tcp::table::outgoing_views(segs@)
                    == model::flush_output(queued, m.ip, now, queued.len() as int)
                    && final(stack)@ == (StackModel {
                    tcp: TcpModel {
                        connections: model::flush_table(queued, m.ip, now),
                        counters: tcp::table::sent_counted(m.tcp.counters, segs@.len()),
                        ..m.tcp
                    },
                    ..m
                })
            },
            None => out is None && final(stack)@ == old(stack)@,
        },
{
    let ip: [u8; 4] = stack.ip;
    if !tcp::queue_send(&mut stack.tcp, local_port, remote_port, data) {
        return None;
    }
    Some(tcp::flush(&mut stack.tcp, ip, now))
}

/// Takes up to `max` received bytes from the connection with these ports.
pub fn tcp_read(stack: &mut Stack, local_port: u16, remote_port: u16, max: usize) -> (data: Option<
    Vec<u8>,
>)
    requires
        old(stack).ok(),
    ensures
        final(stack).ok(),
        match model::find(
            old(stack)@.tcp.connections,
            model::has_ports(local_port, remote_port),
        ) {
            Some(i) => {
                let m = old(stack)@;
                let t = m.tcp.connections[i];
                let n = model::smaller(max as int, t.rx.len() as int);
                &&& data matches Some(d) && d@ == t.rx.take(n)
                &&& final(stack)@ == (StackModel {
                    tcp: TcpModel {
                        connections: m.tcp.connections.update(
                            i,
                            model::TcbModel { rx: t.rx.skip(n), ..t },
                        ),
                        ..m.tcp
                    },
                    ..m
                })
            },
            None => data is None && final(stack)@ == old(stack)@,
        },
{
    tcp::read(&mut stack.tcp, local_port, remote_port, max)
}

/// What servicing the TCP timers does: overdue segments are resent, then what the windows allow
/// is sent, then overdue acknowledgements.
pub open spec fn serviced(m: TcpModel, ip: Seq<u8>, now: u64) -> (TcpModel, Seq<(Seq<u8>, Seq<u8>)>) {
    let n = m.connections.len() as int;
    let ticked = model::tick_table(m.connections, now);
    let flushed = model::flush_table(ticked, ip, now);
    let sent = model::flush_output(ticked, ip, now, n);
    let acks = model::overdue_acks(flushed, ip, now, n);
    (
        TcpModel {
            connections: model::acked_table(flushed, now),
            counters: tcp::table::acks_counted(
                tcp::table::sent_counted(m.counters, sent.len()),
                acks.len(),
            ),
            ..m
        },
        model::tick_output(m.connections, now, n) + sent + acks,
    )
}

/// Services the TCP timers; due once per poll. Returns the segments to transmit with the
/// addresses they go to.
pub fn tcp_service(stack: &mut Stack, now: u64) -> (out: Vec<(Vec<u8>, [u8; 4])>)
    requires
        old(stack).ok(),
        model::clock_ok(now),
    ensures
        final(stack).ok(),
        ({
            let (tcp, sent) = serviced(old(stack)@.tcp, old(stack)@.ip, now);
            &&& final(stack)@ == (StackModel { tcp, ..old(stack)@ })
            &&& tcp::table::outgoing_views(out@) == sent
        }),
{
    let ghost m = stack@;
    let ip: [u8; 4] = stack.ip;
    let mut out: Vec<(Vec<u8>, [u8; 4])> = tcp::on_tick(&mut stack.tcp, now);
    let ghost first = tcp::table::outgoing_views(out@);
    let mut sent: Vec<(Vec<u8>, [u8; 4])> = tcp::flush(&mut stack.tcp, ip, now);
    let ghost second = tcp::table::outgoing_views(sent@);
    assert(second.len() == sent@.len());
    let mut acks: Vec<(Vec<u8>, [u8; 4])> = tcp::flush_delayed_acks(&mut stack.tcp, ip, now);
    let ghost third = tcp::table::outgoing_views(acks@);
    assert(third.len() == acks@.len());
    out.append(&mut sent);
    out.append(&mut acks);
    assert(tcp::table::outgoing_views(out@) =~= first + second + third);
    assert(stack@.tcp =~= serviced(m.tcp, m.ip, now).0);
    out
}

} // verus!
