//! What arriving frames do, by the bytes that they are made of, and what the answers look like.

use vstd::prelude::*;

use crate::bytes;
use crate::net::arp;
use crate::net::ether;
use crate::net::icmp;
use crate::net::ipv4;
use crate::net::laws::{addressed, noted};
use crate::net::stack;
use crate::net::stack::{StackModel, Stats};
use crate::net::tcp;
use crate::net::tcp::model;
use crate::net::tcp::segment::SegmentView;
use crate::net::udp;

verus! {

/// The number in the two bytes at `i`, the highest first.
pub open spec fn number2(s: Seq<u8>, i: int) -> int {
    s[i] * 256 + s[i + 1]
}

/// The sum of the 16-bit words of `s`, with a zero byte behind an odd one.
pub open spec fn words_total(s: Seq<u8>) -> int
    decreases s.len(),
{
    if s.len() == 0 {
        0
    } else if s.len() == 1 {
        s[0] * 256
    } else {
        s[0] * 256 + s[1] + words_total(s.skip(2))
    }
}

/// Whether a message that holds its checksum is intact: its words sum up to all ones.
pub open spec fn is_intact(s: Seq<u8>) -> bool {
    words_total(s) > 0 && words_total(s) % 0xFFFF == 0
}

proof fn lemma_words(s: Seq<u8>, i: int)
    requires
        0 <= i <= s.len(),
    ensures
        ipv4::word_sum(s, i) == words_total(s.skip(i)),
        ipv4::word_sum(s, i) >= 0,
    decreases s.len() - i,
{
    let t = s.skip(i);
    if i + 1 < s.len() {
        lemma_words(s, i + 2);
        assert(t.skip(2) =~= s.skip(i + 2));
        assert(t[0] == s[i] && t[1] == s[i + 1]);
    } else if i + 1 == s.len() {
        assert(t[0] == s[i]);
    }
}

pub(crate) proof fn lemma_intact(s: Seq<u8>)
    requires
        ipv4::internet_checksum(s) == 0,
    ensures
        is_intact(s),
{
    lemma_words(s, 0);
    assert(s.skip(0) =~= s);
    let n = ipv4::word_sum(s, 0);
    assert(0 <= ipv4::fold_carries(n) <= 0xFFFF);
    assert(ipv4::fold_carries(n) == 0xFFFF);
    assert((n - 1) % 0xFFFF == 0xFFFE);
}

/// Whether `f` is an Ethernet frame from `src` that carries an IPv4 packet.
pub open spec fn is_ipv4_frame(f: Seq<u8>, src: Seq<u8>) -> bool {
    f.len() >= 14 && f.subrange(6, 12) == src && f[12] == 8 && f[13] == 0
}

/// Whether `p` is an IPv4 packet with a header of `header` bytes: four of them to the word that
/// the low half of its first byte counts. Bytes behind the stated length do not count.
pub open spec fn is_packet(
    p: Seq<u8>,
    header: int,
    protocol: u8,
    src: Seq<u8>,
    dst: Seq<u8>,
    payload: Seq<u8>,
) -> bool {
    &&& 20 <= header <= 60
    &&& p[0] * 4 == 0x40 * 4 + header
    &&& p.len() >= header + payload.len()
    &&& number2(p, 2) == header + payload.len()
    &&& p[9] == protocol
    &&& p.subrange(12, 16) == src
    &&& p.subrange(16, 20) == dst
    &&& p.subrange(header, header + payload.len()) == payload
}

/// Whether a packet for `dst` is for us.
pub open spec fn is_for_us(m: StackModel, dst: Seq<u8>) -> bool {
    dst == m.ip || dst == seq![255u8, 255u8, 255u8, 255u8]
}

/// A packet reaches its protocol.
proof fn lemma_arrives(
    m: StackModel,
    f: Seq<u8>,
    mac: Seq<u8>,
    header: int,
    protocol: u8,
    src: Seq<u8>,
    dst: Seq<u8>,
    payload: Seq<u8>,
    now: u64,
)
    requires
        is_ipv4_frame(f, mac),
        is_packet(f.skip(14), header, protocol, src, dst, payload),
    ensures
        ({
            let n = noted(m, mac);
            stack::received(m, f, now) == if !is_for_us(m, dst) {
                (n, None)
            } else if protocol == 1 {
                stack::received_icmp(n, mac, src, payload)
            } else if protocol == 17 {
                stack::received_udp(n, mac, src, payload)
            } else if protocol == 6 {
                stack::received_tcp(n, mac, src, payload, now)
            } else {
                (n, None)
            }
        }),
{
    let p = f.skip(14);
    assert(bytes::be16(f, 12) == 0x0800);
    assert(p[0] / 16 == 4 && p[0] % 16 * 4 == header);
    assert(ipv4::is_ipv4(p));
    assert(bytes::be16(p, 2) == header + payload.len());
    assert(ipv4::payload_end(p) == header + payload.len());
}

/// A frame of ours, byte by byte: to `dst_mac`, with an intact header of twenty bytes that says
/// version 4, not to be fragmented and a time to live of 64.
pub open spec fn is_own_packet(
    m: StackModel,
    f: Seq<u8>,
    dst_mac: Seq<u8>,
    protocol: u8,
    dst: Seq<u8>,
    payload: Seq<u8>,
) -> bool {
    &&& f.subrange(0, 6) == dst_mac
    &&& is_ipv4_frame(f, m.mac)
    &&& f.len() == 34 + payload.len()
    &&& is_packet(f.skip(14), 20, protocol, m.ip, dst, payload)
    &&& f.subrange(18, 23) == seq![0u8, 0u8, 0x40u8, 0u8, 64u8]
    &&& is_intact(f.subrange(14, 34))
}

/// What we send is laid out so.
pub proof fn own_packets_are_laid_out(
    m: StackModel,
    dst_mac: Seq<u8>,
    protocol: u8,
    dst: Seq<u8>,
    payload: Seq<u8>,
)
    requires
        addressed(m),
        dst_mac.len() == 6,
        dst.len() == 4,
        20 + payload.len() <= 0xFFFF,
    ensures
        is_own_packet(
            m,
            stack::ipv4_frame(m, dst_mac, dst, protocol, payload),
            dst_mac,
            protocol,
            dst,
            payload,
        ),
{
    let p = ipv4::packet_bytes(m.ip, dst, protocol, payload);
    let f = stack::ipv4_frame(m, dst_mac, dst, protocol, payload);
    ether::frame_round_trip(dst_mac, m.mac, 0x0800, p);
    ipv4::packet_round_trip(m.ip, dst, protocol, payload);
    let b = bytes::be16_bytes(0x0800);
    assert(f[12] == b[0] && f[13] == b[1]);
    assert(f.skip(14) =~= p);
    let total = (20 + payload.len()) as u16;
    bytes::be16_round_trip(total);
    let t = bytes::be16_bytes(total);
    assert(p[2] == t[0] && p[3] == t[1]);
    assert(p[0] == 0x45);
    assert(ipv4::payload_end(p) == 20 + payload.len());
    assert(f.subrange(18, 23) =~= seq![0u8, 0u8, 0x40u8, 0u8, 64u8]);
    assert(f.subrange(14, 34) =~= p.take(20));
    lemma_intact(p.take(20));
}

/// An echo request to us, or to all, comes back to where it came from as an echo reply with the
/// same identifier, number and data; nothing but the totals changes.
#[verifier::spinoff_prover]
#[verifier::rlimit(40)]
pub proof fn echo_request_comes_back(
    m: StackModel,
    f: Seq<u8>,
    mac: Seq<u8>,
    header: int,
    src: Seq<u8>,
    dst: Seq<u8>,
    request: Seq<u8>,
    now: u64,
)
    requires
        addressed(m),
        is_ipv4_frame(f, mac),
        is_packet(f.skip(14), header, 1, src, dst, request),
        is_for_us(m, dst),
        request.len() >= 8,
        request[0] == 8,
        20 + request.len() <= 0xFFFF,
    ensures
        ({
            let (after, answer) = stack::received(m, f, now);
            &&& after == (StackModel { stats: after.stats, ..noted(m, mac) })
            &&& answer is Some
            &&& exists|reply: Seq<u8>| #[trigger]
                is_own_packet(m, answer.unwrap(), mac, 1, src, reply) && reply.len()
                    == request.len() && reply[0] == 0 && reply[1] == 0 && reply.skip(4)
                    == request.skip(4) && is_intact(reply)
        }),
{
    lemma_arrives(m, f, mac, header, 1, src, dst, request, now);
    assert(f.skip(14).subrange(12, 16).len() == 4);
    assert(mac.len() == 6);
    let id = bytes::be16(request, 4);
    let seq = bytes::be16(request, 6);
    let data = request.skip(8);
    let reply = icmp::echo_bytes(0, id, seq, data);
    icmp::echo_round_trip(0, id, seq, data);
    own_packets_are_laid_out(m, mac, 1, src, reply);
    lemma_intact(reply);
    let u = icmp::unsummed(0, id, seq, data);
    let b4 = bytes::be16_bytes(id);
    let b6 = bytes::be16_bytes(seq);
    assert(u[4] == b4[0] && u[5] == b4[1] && u[6] == b6[0] && u[7] == b6[1]);
    lemma_two(request, 4);
    lemma_two(request, 6);
    assert(reply.skip(4) =~= request.skip(4)) by {
        assert forall|i: int| 0 <= i < reply.skip(4).len() implies reply.skip(4)[i]
            == request.skip(4)[i] by {
            assert(reply.skip(4)[i] == u[i + 4]);
            if i >= 4 {
                assert(u[i + 4] == data[i - 4]);
            }
        }
    }
    let answer = stack::received(m, f, now).1;
    assert(answer == Some(stack::ipv4_frame(m, mac, src, 1, reply)));
    assert(is_own_packet(m, answer.unwrap(), mac, 1, src, reply));
}

/// The bytes of a number that was read are the bytes it was read from.
proof fn lemma_two(s: Seq<u8>, i: int)
    requires
        0 <= i,
        i + 2 <= s.len(),
    ensures
        bytes::be16_bytes(bytes::be16(s, i))[0] == s[i],
        bytes::be16_bytes(bytes::be16(s, i))[1] == s[i + 1],
{
    let x = s[i] * 256 + s[i + 1];
    assert(x / 256 == s[i] && x % 256 == s[i + 1]);
}

/// An echo reply is noted with its identifier and number, and counted; it is not answered. Other
/// ICMP messages do nothing.
pub proof fn echo_reply_is_noted(
    m: StackModel,
    f: Seq<u8>,
    mac: Seq<u8>,
    header: int,
    src: Seq<u8>,
    dst: Seq<u8>,
    reply: Seq<u8>,
    now: u64,
)
    requires
        is_ipv4_frame(f, mac),
        is_packet(f.skip(14), header, 1, src, dst, reply),
        is_for_us(m, dst),
        reply.len() >= 8,
        reply[0] != 8,
    ensures
        ({
            let (after, answer) = stack::received(m, f, now);
            &&& answer is None
            &&& reply[0] == 0 ==> after.last_reply.0 == number2(reply, 4) && after.last_reply.1
                == number2(reply, 6) && after.stats.icmp_replies_received
                == m.stats.icmp_replies_received.wrapping_add(1)
            &&& reply[0] != 0 ==> after == noted(m, mac)
        }),
{
    lemma_arrives(m, f, mac, header, 1, src, dst, reply, now);
}

/// Whether `d` is a UDP datagram with these ports and this data; bytes behind the stated length
/// do not count.
pub open spec fn is_datagram(d: Seq<u8>, from: int, to: int, data: Seq<u8>) -> bool {
    &&& d.len() >= 8 + data.len()
    &&& number2(d, 0) == from
    &&& number2(d, 2) == to
    &&& number2(d, 4) == 8 + data.len()
    &&& d.subrange(8, 8 + data.len() as int) == data
}

/// A datagram on port 7 comes back to the port it came from, with its data, from port 7, with a
/// checksum that holds.
#[verifier::spinoff_prover]
#[verifier::rlimit(40)]
pub proof fn echo_datagram_comes_back(
    m: StackModel,
    f: Seq<u8>,
    mac: Seq<u8>,
    header: int,
    src: Seq<u8>,
    dst: Seq<u8>,
    d: Seq<u8>,
    from: int,
    data: Seq<u8>,
    now: u64,
)
    requires
        addressed(m),
        is_ipv4_frame(f, mac),
        is_packet(f.skip(14), header, 17, src, dst, d),
        is_for_us(m, dst),
        is_datagram(d, from, 7, data),
        28 + data.len() <= 0xFFFF,
    ensures
        ({
            let (after, answer) = stack::received(m, f, now);
            &&& after == (StackModel { stats: after.stats, ..noted(m, mac) })
            &&& answer is Some
            &&& exists|e: Seq<u8>| #[trigger]
                is_own_packet(m, answer.unwrap(), mac, 17, src, e) && e.len() == 8 + data.len()
                    && is_datagram(e, 7, from, data) && number2(e, 6) != 0 && is_intact(
                    m.ip + src + seq![0u8, 17u8] + e.subrange(4, 6) + e,
                )
        }),
{
    lemma_arrives(m, f, mac, header, 17, src, dst, d, now);
    assert(f.skip(14).subrange(12, 16).len() == 4);
    assert(mac.len() == 6);
    assert(bytes::be16(d, 0) == from && bytes::be16(d, 2) == 7 && bytes::be16(d, 4) == 8
        + data.len());
    assert(d.subrange(8, udp::payload_end(d)) =~= data);
    let e = udp::datagram_bytes(m.ip, src, 7, from as u16, data);
    udp::datagram_round_trip(m.ip, src, 7, from as u16, data);
    lemma_own_datagram(m.ip, src, 7, from as u16, data);
    own_packets_are_laid_out(m, mac, 17, src, e);
    let answer = stack::received(m, f, now).1;
    assert(answer == Some(stack::ipv4_frame(m, mac, src, 17, e)));
    assert(is_own_packet(m, answer.unwrap(), mac, 17, src, e));
}

/// A datagram of ours is laid out so, and intact with its pseudo-header.
proof fn lemma_own_datagram(from_ip: Seq<u8>, to_ip: Seq<u8>, from: u16, to: u16, data: Seq<u8>)
    requires
        from_ip.len() == 4,
        to_ip.len() == 4,
        8 + data.len() <= 0xFFFF,
    ensures
        ({
            let e = udp::datagram_bytes(from_ip, to_ip, from, to, data);
            &&& e.len() == 8 + data.len()
            &&& is_datagram(e, from as int, to as int, data)
            &&& number2(e, 6) != 0
            &&& is_intact(from_ip + to_ip + seq![0u8, 17u8] + e.subrange(4, 6) + e)
        }),
{
    let e = udp::datagram_bytes(from_ip, to_ip, from, to, data);
    udp::datagram_round_trip(from_ip, to_ip, from, to, data);
    let u = udp::unsummed(from, to, data);
    let length = (8 + data.len()) as u16;
    let b = bytes::be16_bytes(length);
    bytes::be16_round_trip(length);
    assert(u[4] == b[0] && u[5] == b[1]);
    assert(e[4] == b[0] && e[5] == b[1]);
    assert(udp::payload_end(e) == 8 + data.len());
    let pseudo = udp::pseudo_header(from_ip, to_ip, e.len() as int);
    assert(pseudo + e =~= from_ip + to_ip + seq![0u8, 17u8] + e.subrange(4, 6) + e);
    lemma_intact(pseudo + e);
}

/// A datagram that we send is laid out so as well: the frame carries the ports, the data and a
/// checksum that holds.
pub proof fn own_datagrams_are_laid_out(
    m: StackModel,
    mac: Seq<u8>,
    dst: Seq<u8>,
    to: u16,
    from: u16,
    data: Seq<u8>,
)
    requires
        addressed(m),
        mac.len() == 6,
        dst.len() == 4,
        28 + data.len() <= 0xFFFF,
    ensures
        exists|e: Seq<u8>| #[trigger]
            is_own_packet(
                m,
                crate::net::jobs::udp_frame(m, mac, dst, to, from, data),
                mac,
                17,
                dst,
                e,
            ) && e.len() == 8 + data.len() && is_datagram(e, from as int, to as int, data)
                && number2(e, 6) != 0 && is_intact(
                m.ip + dst + seq![0u8, 17u8] + e.subrange(4, 6) + e,
            ),
{
    let e = udp::datagram_bytes(m.ip, dst, from, to, data);
    lemma_own_datagram(m.ip, dst, from, to, data);
    own_packets_are_laid_out(m, mac, 17, dst, e);
    let f = crate::net::jobs::udp_frame(m, mac, dst, to, from, data);
    assert(f == stack::ipv4_frame(m, mac, dst, 17, e));
    assert(is_own_packet(m, f, mac, 17, dst, e));
}

/// A datagram on port 68 is kept for the DHCP exchange, one on any other port but 7 as the last
/// delivered; its padding is not. Neither is answered.
pub proof fn other_datagrams_are_kept(
    m: StackModel,
    f: Seq<u8>,
    mac: Seq<u8>,
    header: int,
    src: Seq<u8>,
    dst: Seq<u8>,
    d: Seq<u8>,
    from: int,
    to: int,
    data: Seq<u8>,
    now: u64,
)
    requires
        is_ipv4_frame(f, mac),
        is_packet(f.skip(14), header, 17, src, dst, d),
        is_for_us(m, dst),
        is_datagram(d, from, to, data),
        to != 7,
    ensures
        ({
            let (after, answer) = stack::received(m, f, now);
            let n = noted(m, mac);
            &&& answer is None
            &&& to == 68 ==> after == (StackModel {
                last_dhcp: data,
                stats: Stats {
                    udp_received: m.stats.udp_received.wrapping_add(1),
                    dhcp_delivered: m.stats.dhcp_delivered.wrapping_add(1),
                    ..n.stats
                },
                ..n
            })
            &&& to != 68 ==> after == (StackModel {
                last_udp: data,
                stats: Stats {
                    udp_received: m.stats.udp_received.wrapping_add(1),
                    udp_delivered: m.stats.udp_delivered.wrapping_add(1),
                    ..n.stats
                },
                ..n
            })
        }),
{
    lemma_arrives(m, f, mac, header, 17, src, dst, d, now);
    assert(bytes::be16(d, 0) == from && bytes::be16(d, 2) == to && bytes::be16(d, 4) == 8
        + data.len());
    assert(d.subrange(8, udp::payload_end(d)) =~= data);
}

/// A packet for others, or of an unknown protocol, is only counted, and so is what claims to be
/// an IPv4 packet but has another version, or a header that is too short or cut off. A frame of
/// another kind only counts as a frame, and one that is too short not even that.
pub proof fn other_frames_do_nothing(
    m: StackModel,
    f: Seq<u8>,
    mac: Seq<u8>,
    header: int,
    protocol: u8,
    src: Seq<u8>,
    dst: Seq<u8>,
    payload: Seq<u8>,
    now: u64,
)
    ensures
        is_ipv4_frame(f, mac) && is_packet(f.skip(14), header, protocol, src, dst, payload) && (
        !is_for_us(m, dst) || (protocol != 1 && protocol != 6 && protocol != 17))
            ==> stack::received(m, f, now) == (noted(m, mac), None::<Seq<u8>>),
        is_ipv4_frame(f, mac) && (f.len() < 34 || f[14] / 16 != 4 || f[14] % 16 < 5 || f.len() < 14
            + 4 * (f[14] % 16)) ==> stack::received(m, f, now) == (
            noted(m, mac),
            None::<Seq<u8>>,
        ),
        f.len() < 14 ==> stack::received(m, f, now) == (m, None::<Seq<u8>>),
        f.len() >= 14 && number2(f, 12) != 0x0800 && number2(f, 12) != 0x0806 ==> stack::received(
            m,
            f,
            now,
        ) == (
            StackModel {
                last_src: f.subrange(6, 12),
                stats: Stats {
                    frames_received: m.stats.frames_received.wrapping_add(1),
                    ..m.stats
                },
                ..m
            },
            None::<Seq<u8>>,
        ),
{
    if is_ipv4_frame(f, mac) && is_packet(f.skip(14), header, protocol, src, dst, payload) {
        lemma_arrives(m, f, mac, header, protocol, src, dst, payload, now);
    }
    if f.len() >= 14 {
        assert(bytes::be16(f, 12) == number2(f, 12));
        if f.len() > 14 {
            assert(f.skip(14)[0] == f[14]);
        }
    }
}

/// Whether `p` is an ARP packet: Ethernet and IPv4 addresses of 6 and 4 bytes.
pub open spec fn is_arp_packet(
    p: Seq<u8>,
    operation: u8,
    sender_mac: Seq<u8>,
    sender: Seq<u8>,
    target_mac: Seq<u8>,
    target: Seq<u8>,
) -> bool {
    &&& p.len() >= 28
    &&& p.subrange(0, 8) == seq![0u8, 1u8, 8u8, 0u8, 6u8, 4u8, 0u8, operation]
    &&& p.subrange(8, 14) == sender_mac
    &&& p.subrange(14, 18) == sender
    &&& p.subrange(18, 24) == target_mac
    &&& p.subrange(24, 28) == target
}

/// Every ARP packet teaches us where its sender is, whomever it is for. A request for our address
/// is answered to the sender with our MAC address; nothing else is answered.
pub proof fn arp_packets_teach_and_ask(
    m: StackModel,
    f: Seq<u8>,
    operation: u8,
    sender_mac: Seq<u8>,
    sender: Seq<u8>,
    target_mac: Seq<u8>,
    target: Seq<u8>,
    other: Seq<u8>,
    now: u64,
)
    requires
        addressed(m),
        f.len() >= 14,
        f[12] == 8,
        f[13] == 6,
        is_arp_packet(f.skip(14), operation, sender_mac, sender, target_mac, target),
        other.len() == 4,
        other != sender,
    ensures
        ({
            let (after, answer) = stack::received(m, f, now);
            &&& arp::cached(after.arp, sender) == Some(sender_mac)
            &&& arp::cached(after.arp, other) == arp::cached(m.arp, other)
            &&& after.ip == m.ip && after.mac == m.mac && after.tcp == m.tcp
            &&& operation == 1 && target == m.ip ==> {
                &&& answer matches Some(a)
                &&& a.len() == 42
                &&& a.subrange(0, 6) == sender_mac
                &&& a.subrange(6, 12) == m.mac
                &&& a[12] == 8 && a[13] == 6
                &&& is_arp_packet(a.skip(14), 2, m.mac, m.ip, sender_mac, sender)
            }
            &&& !(operation == 1 && target == m.ip) ==> answer is None
        }),
{
    let p = f.skip(14);
    let h = p.subrange(0, 8);
    assert(bytes::be16(f, 12) == 0x0806);
    assert(h[0] == p[0] && h[1] == p[1] && h[2] == p[2] && h[3] == p[3] && h[4] == p[4] && h[5]
        == p[5] && h[6] == p[6] && h[7] == p[7]);
    assert(arp::is_arp(p));
    assert(bytes::be16(p, 6) == operation);
    arp::keys_are_faithful(sender, other);
    lemma_arp_frame(sender_mac, 2, m.mac, m.ip, sender_mac, sender);
}

/// An ARP frame of ours is laid out so.
#[verifier::spinoff_prover]
#[verifier::rlimit(40)]
proof fn lemma_arp_frame(
    dst: Seq<u8>,
    operation: u8,
    sender_mac: Seq<u8>,
    sender: Seq<u8>,
    target_mac: Seq<u8>,
    target: Seq<u8>,
)
    requires
        dst.len() == 6,
        sender_mac.len() == 6,
        sender.len() == 4,
        target_mac.len() == 6,
        target.len() == 4,
    ensures
        ({
            let p = arp::packet_bytes(operation as u16, sender_mac, sender, target_mac, target);
            let f = ether::frame_bytes(dst, sender_mac, 0x0806, p);
            &&& f.len() == 42
            &&& f.subrange(0, 6) == dst
            &&& f.subrange(6, 12) == sender_mac
            &&& f[12] == 8 && f[13] == 6
            &&& is_arp_packet(f.skip(14), operation, sender_mac, sender, target_mac, target)
        }),
{
    let p = arp::packet_bytes(operation as u16, sender_mac, sender, target_mac, target);
    let f = ether::frame_bytes(dst, sender_mac, 0x0806, p);
    arp::packet_round_trip(operation as u16, sender_mac, sender, target_mac, target);
    ether::frame_round_trip(dst, sender_mac, 0x0806, p);
    let b = bytes::be16_bytes(0x0806);
    assert(f[12] == b[0] && f[13] == b[1]);
    let o = bytes::be16_bytes(operation as u16);
    assert(o[0] == 0 && o[1] == operation);
    assert(p.subrange(0, 8) =~= seq![0u8, 1u8, 8u8, 0u8, 6u8, 4u8, 0u8, operation]);
}

/// What asks for the owner of an address is a broadcast that names us and the address.
pub proof fn address_requests_are_laid_out(m: StackModel, ip: Seq<u8>)
    requires
        addressed(m),
        ip.len() == 4,
    ensures
        ({
            let f = crate::net::jobs::request_frame(m, ip);
            &&& f.len() == 42
            &&& f.subrange(0, 6) == seq![255u8, 255u8, 255u8, 255u8, 255u8, 255u8]
            &&& f.subrange(6, 12) == m.mac
            &&& f[12] == 8 && f[13] == 6
            &&& is_arp_packet(
                f.skip(14),
                1,
                m.mac,
                m.ip,
                seq![0u8, 0u8, 0u8, 0u8, 0u8, 0u8],
                ip,
            )
        }),
{
    let z = bytes::zeros(6);
    assert(z =~= seq![0u8, 0u8, 0u8, 0u8, 0u8, 0u8]);
    assert(ether::BROADCAST@ =~= seq![255u8, 255u8, 255u8, 255u8, 255u8, 255u8]);
    lemma_arp_frame(ether::BROADCAST@, 1, m.mac, m.ip, z, ip);
}

/// The number in the four bytes at `i`, the highest first.
pub open spec fn number4(s: Seq<u8>, i: int) -> int {
    s[i] * 0x100_0000 + s[i + 1] * 0x1_0000 + s[i + 2] * 0x100 + s[i + 3]
}

/// A TCP segment is understood byte by byte, with or without options: they are passed over, and
/// the data begins behind as many words as the high half of the thirteenth byte counts. One whose
/// header is too short or longer than the segment is none.
pub proof fn segments_are_understood(s: Seq<u8>)
    ensures
        tcp::segment::is_segment(s) <==> s.len() >= 20 && s[12] >= 0x50 && s.len() >= 4 * (s[12]
            / 16),
        tcp::segment::is_segment(s) ==> {
            let d = tcp::segment::decode(s);
            &&& d.src_port == number2(s, 0)
            &&& d.dst_port == number2(s, 2)
            &&& d.seq == number4(s, 4)
            &&& d.ack == number4(s, 8)
            &&& d.flags == s[13] % 64
            &&& d.window == number2(s, 14)
            &&& d.payload == s.subrange(4 * (s[12] / 16), s.len() as int)
        },
{
    if s.len() >= 20 {
        let f = s[13];
        assert(f & 0x3Fu8 == f % 64) by (bit_vector);
        assert(bytes::be32(s, 4) == number4(s, 4));
        assert(bytes::be32(s, 8) == number4(s, 8));
        if tcp::segment::is_segment(s) {
            assert(s.skip(tcp::segment::data_offset(s)) =~= s.subrange(
                4 * (s[12] / 16) as int,
                s.len() as int,
            ));
        }
    }
}

/// A segment of ours is laid out the same way, without options, and intact with its
/// pseudo-header.
pub proof fn own_segments_are_laid_out(src: Seq<u8>, dst: Seq<u8>, v: SegmentView)
    requires
        src.len() == 4,
        dst.len() == 4,
        20 + v.payload.len() <= 0xFFFF,
    ensures
        ({
            let s = tcp::segment::encode(src, dst, v);
            let n = (20 + v.payload.len()) as u16;
            &&& s.len() == 20 + v.payload.len()
            &&& number2(s, 0) == v.src_port && number2(s, 2) == v.dst_port
            &&& number4(s, 4) == v.seq && number4(s, 8) == v.ack
            &&& s[12] == 0x50 && s[13] == v.flags && number2(s, 14) == v.window
            &&& s[18] == 0 && s[19] == 0
            &&& s.skip(20) == v.payload
            &&& is_intact(
                src + dst + seq![0u8, 6u8] + seq![(n / 256) as u8, (n % 256) as u8] + s,
            )
        }),
{
    let s = tcp::segment::encode(src, dst, v);
    let n = (20 + v.payload.len()) as u16;
    let u = tcp::segment::unsummed(v);
    tcp::segment::segment_round_trip(src, dst, v);
    tcp::segment::built_segment_verifies(src, dst, v);
    assert(s.len() == u.len());
    assert(forall|i: int| 0 <= i < 16 ==> s[i] == u[i]);
    assert(s[12] == 0x50 && s[13] == v.flags && s[18] == 0 && s[19] == 0);
    assert(s.skip(20) =~= v.payload);
    assert(bytes::be32(s, 4) == number4(s, 4));
    assert(bytes::be32(s, 8) == number4(s, 8));
    let pseudo = tcp::segment::pseudo_header(src, dst, s.len() as int);
    assert(pseudo + s =~= src + dst + seq![0u8, 6u8] + seq![(n / 256) as u8, (n % 256) as u8] + s);
    lemma_intact(pseudo + s);
}

/// A segment for us goes to the connections, and what they answer goes back to where it came
/// from. What is no segment does nothing.
pub proof fn segments_reach_the_connections(
    m: StackModel,
    f: Seq<u8>,
    mac: Seq<u8>,
    header: int,
    src: Seq<u8>,
    dst: Seq<u8>,
    s: Seq<u8>,
    now: u64,
)
    requires
        is_ipv4_frame(f, mac),
        is_packet(f.skip(14), header, 6, src, dst, s),
        is_for_us(m, dst),
    ensures
        ({
            let (after, answer) = stack::received(m, f, now);
            let (table, reply) = model::on_segment(
                m.tcp,
                m.ip,
                src,
                tcp::segment::decode(s),
                now,
            );
            &&& !tcp::segment::is_segment(s) ==> after == noted(m, mac) && answer is None
            &&& tcp::segment::is_segment(s) ==> {
                &&& after.tcp == table
                &&& after.stats.tcp_segments_received == m.stats.tcp_segments_received.wrapping_add(
                    1,
                )
                &&& after == (StackModel { tcp: table, stats: after.stats, ..noted(m, mac) })
                &&& reply is None ==> answer is None
                &&& reply matches Some(r) ==> answer == Some(stack::ipv4_frame(m, mac, src, 6, r))
            }
        }),
{
    lemma_arrives(m, f, mac, header, 6, src, dst, s, now);
    if tcp::segment::is_segment(s) {
        let reply = model::on_segment(m.tcp, m.ip, src, tcp::segment::decode(s), now).1;
        if reply is Some {
            let r = reply.unwrap();
            assert(stack::ipv4_frame(noted(m, mac), mac, src, 6, r) == stack::ipv4_frame(
                m,
                mac,
                src,
                6,
                r,
            ));
        }
    }
}

} // verus!
