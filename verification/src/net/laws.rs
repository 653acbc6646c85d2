//! What the stack promises as a whole: who is answered, with what, and what is left alone.

use vstd::prelude::*;

use crate::bytes;
use crate::net::arp;
use crate::net::dhcp;
use crate::net::ether;
use crate::net::icmp;
use crate::net::ipv4;
use crate::net::jobs;
use crate::net::lookup;
use crate::net::selftest;
use crate::net::stack;
use crate::net::stack::{StackModel, Stats};
use crate::net::udp;

verus! {

/// The addresses of a stack have the lengths of addresses.
pub open spec fn addressed(m: StackModel) -> bool {
    m.mac.len() == 6 && m.ip.len() == 4
}

/// A frame with an IPv4 packet from a peer.
pub open spec fn peer_frame(
    dst_mac: Seq<u8>,
    peer_mac: Seq<u8>,
    peer_ip: Seq<u8>,
    dst_ip: Seq<u8>,
    protocol: u8,
    payload: Seq<u8>,
) -> Seq<u8> {
    ether::frame_bytes(
        dst_mac,
        peer_mac,
        ether::ETHERTYPE_IPV4,
        ipv4::packet_bytes(peer_ip, dst_ip, protocol, payload),
    )
}

/// The stack after the arrival of a frame with an IPv4 packet has been noted.
pub open spec fn noted(m: StackModel, src: Seq<u8>) -> StackModel {
    StackModel {
        last_src: src,
        stats: Stats {
            frames_received: m.stats.frames_received.wrapping_add(1),
            ipv4_seen: m.stats.ipv4_seen.wrapping_add(1),
            ..m.stats
        },
        ..m
    }
}

/// A frame with an IPv4 packet reaches the protocol that it is for.
proof fn lemma_packet_arrives(
    m: StackModel,
    dst_mac: Seq<u8>,
    peer_mac: Seq<u8>,
    peer_ip: Seq<u8>,
    dst_ip: Seq<u8>,
    protocol: u8,
    payload: Seq<u8>,
    now: u64,
)
    requires
        dst_mac.len() == 6,
        peer_mac.len() == 6,
        peer_ip.len() == 4,
        dst_ip.len() == 4,
        ipv4::HEADER_LEN + payload.len() <= 0xFFFF,
    ensures
        ({
            let frame = peer_frame(dst_mac, peer_mac, peer_ip, dst_ip, protocol, payload);
            let n = noted(m, peer_mac);
            stack::received(m, frame, now) == if !stack::for_us(m, dst_ip) {
                (n, None)
            } else if protocol == ipv4::PROTO_ICMP {
                stack::received_icmp(n, peer_mac, peer_ip, payload)
            } else if protocol == udp::PROTO_UDP {
                stack::received_udp(n, peer_mac, peer_ip, payload)
            } else if protocol == crate::net::tcp::PROTO_TCP {
                stack::received_tcp(n, peer_mac, peer_ip, payload, now)
            } else {
                (n, None)
            }
        }),
{
    let packet = ipv4::packet_bytes(peer_ip, dst_ip, protocol, payload);
    ether::frame_round_trip(dst_mac, peer_mac, ether::ETHERTYPE_IPV4, packet);
    ipv4::packet_round_trip(peer_ip, dst_ip, protocol, payload);
}

/// Whoever pings us is answered, with the identifier, the number and the data of the request,
/// and the answer is counted.
pub proof fn ping_is_answered(
    m: StackModel,
    peer_mac: Seq<u8>,
    peer_ip: Seq<u8>,
    id: u16,
    number: u16,
    data: Seq<u8>,
    now: u64,
)
    requires
        addressed(m),
        peer_mac.len() == 6,
        peer_ip.len() == 4,
        28 + data.len() <= 0xFFFF,
    ensures
        ({
            let request = icmp::echo_bytes(icmp::TYPE_ECHO_REQUEST, id, number, data);
            let reply = icmp::echo_bytes(icmp::TYPE_ECHO_REPLY, id, number, data);
            let frame = peer_frame(m.mac, peer_mac, peer_ip, m.ip, ipv4::PROTO_ICMP, request);
            let (after, answer) = stack::received(m, frame, now);
            &&& answer == Some(
                stack::ipv4_frame(m, peer_mac, peer_ip, ipv4::PROTO_ICMP, reply),
            )
            &&& after.stats.icmp_requests_handled == m.stats.icmp_requests_handled.wrapping_add(1)
            &&& after == (StackModel { stats: after.stats, ..noted(m, peer_mac) })
        }),
{
    let request = icmp::echo_bytes(icmp::TYPE_ECHO_REQUEST, id, number, data);
    icmp::echo_round_trip(icmp::TYPE_ECHO_REQUEST, id, number, data);
    lemma_packet_arrives(m, m.mac, peer_mac, peer_ip, m.ip, ipv4::PROTO_ICMP, request, now);
}

/// The answer to our ping ends it: from then on the step that looks for the reply succeeds with
/// the ping's number. It takes a reply counter that can still grow.
pub proof fn reply_ends_ping(
    m: StackModel,
    peer_mac: Seq<u8>,
    peer_ip: Seq<u8>,
    number: u16,
    data: Seq<u8>,
    frame: Seq<u8>,
    attempt: u32,
    now: u64,
)
    requires
        addressed(m),
        peer_mac.len() == 6,
        peer_ip.len() == 4,
        28 + data.len() <= 0xFFFF,
        m.stats.icmp_replies_received < u64::MAX,
    ensures
        ({
            let reply = icmp::echo_bytes(icmp::TYPE_ECHO_REPLY, jobs::PING_ID, number, data);
            let arriving = peer_frame(m.mac, peer_mac, peer_ip, m.ip, ipv4::PROTO_ICMP, reply);
            let (after, answer) = stack::received(m, arriving, now);
            let waiting = jobs::PingView::Waiting {
                seq: number,
                frame,
                replies_before: m.stats.icmp_replies_received,
                attempt,
            };
            &&& answer is None
            &&& jobs::pinging(after, waiting) == (
                after,
                waiting,
                jobs::StepView::<u16>::Done(Some(number)),
            )
        }),
{
    let reply = icmp::echo_bytes(icmp::TYPE_ECHO_REPLY, jobs::PING_ID, number, data);
    icmp::echo_round_trip(icmp::TYPE_ECHO_REPLY, jobs::PING_ID, number, data);
    lemma_packet_arrives(m, m.mac, peer_mac, peer_ip, m.ip, ipv4::PROTO_ICMP, reply, now);
}

/// A datagram on the echo port comes back to its sender, from that port to the port it came
/// from, with its data intact.
pub proof fn datagram_is_echoed(
    m: StackModel,
    peer_mac: Seq<u8>,
    peer_ip: Seq<u8>,
    port: u16,
    data: Seq<u8>,
    now: u64,
)
    requires
        addressed(m),
        peer_mac.len() == 6,
        peer_ip.len() == 4,
        28 + data.len() <= 0xFFFF,
    ensures
        ({
            let datagram = udp::datagram_bytes(peer_ip, m.ip, port, stack::UDP_ECHO_PORT, data);
            let echo = udp::datagram_bytes(m.ip, peer_ip, stack::UDP_ECHO_PORT, port, data);
            let frame = peer_frame(m.mac, peer_mac, peer_ip, m.ip, udp::PROTO_UDP, datagram);
            let (after, answer) = stack::received(m, frame, now);
            &&& answer == Some(stack::ipv4_frame(m, peer_mac, peer_ip, udp::PROTO_UDP, echo))
            &&& after.stats.udp_echoes_sent == m.stats.udp_echoes_sent.wrapping_add(1)
            &&& after == (StackModel { stats: after.stats, ..noted(m, peer_mac) })
        }),
{
    let datagram = udp::datagram_bytes(peer_ip, m.ip, port, stack::UDP_ECHO_PORT, data);
    udp::datagram_round_trip(peer_ip, m.ip, port, stack::UDP_ECHO_PORT, data);
    lemma_packet_arrives(m, m.mac, peer_mac, peer_ip, m.ip, udp::PROTO_UDP, datagram, now);
}

/// A datagram on any port but the echo port and the DHCP client's is kept, with its data intact,
/// and not answered.
pub proof fn datagram_is_delivered(
    m: StackModel,
    peer_mac: Seq<u8>,
    peer_ip: Seq<u8>,
    src_port: u16,
    dst_port: u16,
    data: Seq<u8>,
    now: u64,
)
    requires
        addressed(m),
        peer_mac.len() == 6,
        peer_ip.len() == 4,
        28 + data.len() <= 0xFFFF,
        dst_port != stack::UDP_ECHO_PORT,
        dst_port != dhcp::CLIENT_PORT,
    ensures
        ({
            let datagram = udp::datagram_bytes(peer_ip, m.ip, src_port, dst_port, data);
            let frame = peer_frame(m.mac, peer_mac, peer_ip, m.ip, udp::PROTO_UDP, datagram);
            let (after, answer) = stack::received(m, frame, now);
            &&& answer is None
            &&& after.last_udp == data
            &&& after.stats.udp_delivered == m.stats.udp_delivered.wrapping_add(1)
            &&& after == (StackModel {
                stats: after.stats,
                last_udp: data,
                ..noted(m, peer_mac)
            })
        }),
{
    let datagram = udp::datagram_bytes(peer_ip, m.ip, src_port, dst_port, data);
    udp::datagram_round_trip(peer_ip, m.ip, src_port, dst_port, data);
    lemma_packet_arrives(m, m.mac, peer_mac, peer_ip, m.ip, udp::PROTO_UDP, datagram, now);
}

/// A broadcast DHCP message reaches the exchange in progress even while we have no address.
pub proof fn dhcp_broadcast_is_delivered(
    m: StackModel,
    server_mac: Seq<u8>,
    server_ip: Seq<u8>,
    message: Seq<u8>,
    now: u64,
)
    requires
        server_mac.len() == 6,
        server_ip.len() == 4,
        28 + message.len() <= 0xFFFF,
    ensures
        ({
            let datagram = udp::datagram_bytes(
                server_ip,
                stack::LIMITED_BROADCAST@,
                dhcp::SERVER_PORT,
                dhcp::CLIENT_PORT,
                message,
            );
            let frame = peer_frame(
                ether::BROADCAST@,
                server_mac,
                server_ip,
                stack::LIMITED_BROADCAST@,
                udp::PROTO_UDP,
                datagram,
            );
            let (after, answer) = stack::received(m, frame, now);
            &&& answer is None
            &&& after.last_dhcp == message
            &&& after.stats.dhcp_delivered == m.stats.dhcp_delivered.wrapping_add(1)
        }),
{
    let all = stack::LIMITED_BROADCAST@;
    assert(all =~= seq![255u8, 255u8, 255u8, 255u8]);
    let datagram = udp::datagram_bytes(
        server_ip,
        all,
        dhcp::SERVER_PORT,
        dhcp::CLIENT_PORT,
        message,
    );
    udp::datagram_round_trip(server_ip, all, dhcp::SERVER_PORT, dhcp::CLIENT_PORT, message);
    lemma_packet_arrives(
        m,
        ether::BROADCAST@,
        server_mac,
        server_ip,
        all,
        udp::PROTO_UDP,
        datagram,
        now,
    );
}

/// The acknowledgement that the request leg of an exchange waits for ends the exchange with the
/// lease in force: our address is the leased one.
pub proof fn acknowledged_lease_is_installed(
    m: StackModel,
    job: lookup::DhcpExchangeView,
    r: dhcp::ReplyView,
)
    requires
        job.want == dhcp::ACK,
        m.stats.dhcp_delivered != job.seen,
        dhcp::reply_in(m.last_dhcp, job.xid) == Some(r),
        r.msg_type == dhcp::ACK,
    ensures
        ({
            let (after, next, step) = lookup::configuring(m, job);
            &&& step == jobs::StepView::<()>::Done(Some(()))
            &&& after.ip == r.your_ip
            &&& after.dhcp_server == r.server_id
            &&& after.dhcp_configured
            &&& r.router matches Some(a) ==> after.gateway == a
            &&& r.dns matches Some(a) ==> after.dns == a
            &&& r.subnet_mask matches Some(a) ==> after.mask == a
        }),
{
}

/// A packet for someone else is counted and otherwise ignored.
pub proof fn packet_for_others_is_ignored(
    m: StackModel,
    dst_mac: Seq<u8>,
    peer_mac: Seq<u8>,
    peer_ip: Seq<u8>,
    dst_ip: Seq<u8>,
    protocol: u8,
    payload: Seq<u8>,
    now: u64,
)
    requires
        dst_mac.len() == 6,
        peer_mac.len() == 6,
        peer_ip.len() == 4,
        dst_ip.len() == 4,
        20 + payload.len() <= 0xFFFF,
        dst_ip != m.ip,
        dst_ip != stack::LIMITED_BROADCAST@,
    ensures
        stack::received(
            m,
            peer_frame(dst_mac, peer_mac, peer_ip, dst_ip, protocol, payload),
            now,
        ) == (noted(m, peer_mac), None::<Seq<u8>>),
{
    assert(stack::LIMITED_BROADCAST@ =~= seq![255u8, 255u8, 255u8, 255u8]);
    lemma_packet_arrives(m, dst_mac, peer_mac, peer_ip, dst_ip, protocol, payload, now);
}

/// A request for the owner of our address is answered with our MAC address, to whoever asked,
/// whom we remember.
pub proof fn address_request_is_answered(
    m: StackModel,
    peer_mac: Seq<u8>,
    peer_ip: Seq<u8>,
    unknown: Seq<u8>,
    now: u64,
)
    requires
        addressed(m),
        peer_mac.len() == 6,
        peer_ip.len() == 4,
        unknown.len() == 6,
    ensures
        ({
            let request = arp::packet_bytes(
                arp::OPER_REQUEST,
                peer_mac,
                peer_ip,
                unknown,
                m.ip,
            );
            let reply = arp::packet_bytes(arp::OPER_REPLY, m.mac, m.ip, peer_mac, peer_ip);
            let frame = ether::frame_bytes(
                ether::BROADCAST@,
                peer_mac,
                ether::ETHERTYPE_ARP,
                request,
            );
            let (after, answer) = stack::received(m, frame, now);
            &&& answer == Some(
                ether::frame_bytes(peer_mac, m.mac, ether::ETHERTYPE_ARP, reply),
            )
            &&& arp::cached(after.arp, peer_ip) == Some(peer_mac)
        }),
{
    let request = arp::packet_bytes(arp::OPER_REQUEST, peer_mac, peer_ip, unknown, m.ip);
    ether::frame_round_trip(ether::BROADCAST@, peer_mac, ether::ETHERTYPE_ARP, request);
    arp::packet_round_trip(arp::OPER_REQUEST, peer_mac, peer_ip, unknown, m.ip);
}

/// The reply to an address request ends the resolution with the replier's MAC address.
pub proof fn address_reply_resolves(
    m: StackModel,
    peer_mac: Seq<u8>,
    peer_ip: Seq<u8>,
    attempt: u32,
    now: u64,
)
    requires
        addressed(m),
        peer_mac.len() == 6,
        peer_ip.len() == 4,
    ensures
        ({
            let reply = arp::packet_bytes(arp::OPER_REPLY, peer_mac, peer_ip, m.mac, m.ip);
            let frame = ether::frame_bytes(m.mac, peer_mac, ether::ETHERTYPE_ARP, reply);
            let (after, answer) = stack::received(m, frame, now);
            &&& answer is None
            &&& jobs::resolving(after, peer_ip, attempt) == jobs::StepView::Done(Some(peer_mac))
        }),
{
    let reply = arp::packet_bytes(arp::OPER_REPLY, peer_mac, peer_ip, m.mac, m.ip);
    ether::frame_round_trip(m.mac, peer_mac, ether::ETHERTYPE_ARP, reply);
    arp::packet_round_trip(arp::OPER_REPLY, peer_mac, peer_ip, m.mac, m.ip);
}

/// The frame that carries a message of ours back to ourselves.
pub open spec fn own_frame(m: StackModel, protocol: u8, payload: Seq<u8>) -> Seq<u8> {
    stack::ipv4_frame(m, m.mac, m.ip, protocol, payload)
}

/// What two arrivals leave behind: that of `frame`, and that of the answer to it.
pub open spec fn there_and_back(m: StackModel, frame: Seq<u8>, now: u64) -> Option<StackModel> {
    match stack::received(m, frame, now) {
        (after, Some(answer)) => Some(stack::received(after, answer, now).0),
        (after, None) => None,
    }
}

proof fn lemma_own_ping(m: StackModel, number: u16, data: Seq<u8>, now: u64)
    requires
        addressed(m),
        28 + data.len() <= 0xFFFF,
    ensures
        ({
            let request = icmp::echo_bytes(
                icmp::TYPE_ECHO_REQUEST,
                jobs::PING_ID,
                number,
                data,
            );
            &&& there_and_back(m, own_frame(m, ipv4::PROTO_ICMP, request), now) matches Some(end)
            &&& end.stats.icmp_requests_handled == m.stats.icmp_requests_handled.wrapping_add(1)
            &&& end.stats.icmp_replies_received == m.stats.icmp_replies_received.wrapping_add(1)
        }),
{
    let request = icmp::echo_bytes(icmp::TYPE_ECHO_REQUEST, jobs::PING_ID, number, data);
    let reply = icmp::echo_bytes(icmp::TYPE_ECHO_REPLY, jobs::PING_ID, number, data);
    icmp::echo_round_trip(icmp::TYPE_ECHO_REQUEST, jobs::PING_ID, number, data);
    lemma_packet_arrives(m, m.mac, m.mac, m.ip, m.ip, ipv4::PROTO_ICMP, request, now);
    let after = stack::received(m, own_frame(m, ipv4::PROTO_ICMP, request), now).0;
    icmp::echo_round_trip(icmp::TYPE_ECHO_REPLY, jobs::PING_ID, number, data);
    lemma_packet_arrives(after, m.mac, m.mac, m.ip, m.ip, ipv4::PROTO_ICMP, reply, now);
}

proof fn lemma_ping_test_len()
    ensures
        bytes::str_bytes(selftest::PING_TEST_PAYLOAD).len() == 29,
{
    reveal_strlit("aether icmp loopback selftest");
    vstd::utf8::is_ascii_chars_encode_utf8(selftest::PING_TEST_PAYLOAD@);
}

/// The ping self-test passes once its frame and then our answer to it have come back. It takes
/// counters that can still grow.
pub proof fn ping_selftest_passes(m: StackModel, now: u64)
    requires
        addressed(m),
        m.stats.icmp_requests_handled < u64::MAX,
        m.stats.icmp_replies_received < u64::MAX,
    ensures
        ({
            let request = icmp::echo_bytes(
                icmp::TYPE_ECHO_REQUEST,
                jobs::PING_ID,
                selftest::PING_TEST_SEQ,
                bytes::str_bytes(selftest::PING_TEST_PAYLOAD),
            );
            let trial = selftest::Trial::Ping {
                handled: m.stats.icmp_requests_handled,
                replies: m.stats.icmp_replies_received,
            };
            &&& there_and_back(m, own_frame(m, ipv4::PROTO_ICMP, request), now) matches Some(end)
            &&& selftest::passed(end, trial)
        }),
{
    lemma_ping_test_len();
    lemma_own_ping(
        m,
        selftest::PING_TEST_SEQ,
        bytes::str_bytes(selftest::PING_TEST_PAYLOAD),
        now,
    );
}

proof fn lemma_own_datagram(m: StackModel, port: u16, data: Seq<u8>, now: u64)
    requires
        addressed(m),
        28 + data.len() <= 0xFFFF,
        port != stack::UDP_ECHO_PORT,
        port != dhcp::CLIENT_PORT,
    ensures
        ({
            let datagram = udp::datagram_bytes(m.ip, m.ip, port, stack::UDP_ECHO_PORT, data);
            &&& there_and_back(m, own_frame(m, udp::PROTO_UDP, datagram), now) matches Some(end)
            &&& end.stats.udp_echoes_sent == m.stats.udp_echoes_sent.wrapping_add(1)
            &&& end.stats.udp_delivered == m.stats.udp_delivered.wrapping_add(1)
            &&& end.last_udp == data
        }),
{
    let echo_port = stack::UDP_ECHO_PORT;
    let datagram = udp::datagram_bytes(m.ip, m.ip, port, echo_port, data);
    let echo = udp::datagram_bytes(m.ip, m.ip, echo_port, port, data);
    udp::datagram_round_trip(m.ip, m.ip, port, echo_port, data);
    lemma_packet_arrives(m, m.mac, m.mac, m.ip, m.ip, udp::PROTO_UDP, datagram, now);
    let after = stack::received(m, own_frame(m, udp::PROTO_UDP, datagram), now).0;
    udp::datagram_round_trip(m.ip, m.ip, echo_port, port, data);
    lemma_packet_arrives(after, m.mac, m.mac, m.ip, m.ip, udp::PROTO_UDP, echo, now);
}

proof fn lemma_udp_test_len()
    ensures
        bytes::str_bytes(selftest::UDP_TEST_PAYLOAD).len() == 33,
{
    reveal_strlit("aether udp echo loopback selftest");
    vstd::utf8::is_ascii_chars_encode_utf8(selftest::UDP_TEST_PAYLOAD@);
}

/// The UDP self-test passes once its frame and then our echo of it have come back. It takes
/// counters that can still grow.
pub proof fn udp_selftest_passes(m: StackModel, now: u64)
    requires
        addressed(m),
        m.stats.udp_echoes_sent < u64::MAX,
        m.stats.udp_delivered < u64::MAX,
    ensures
        ({
            let datagram = udp::datagram_bytes(
                m.ip,
                m.ip,
                selftest::UDP_TEST_PORT,
                stack::UDP_ECHO_PORT,
                bytes::str_bytes(selftest::UDP_TEST_PAYLOAD),
            );
            let trial = selftest::Trial::UdpEcho {
                echoes: m.stats.udp_echoes_sent,
                delivered: m.stats.udp_delivered,
            };
            &&& there_and_back(m, own_frame(m, udp::PROTO_UDP, datagram), now) matches Some(end)
            &&& selftest::passed(end, trial)
        }),
{
    lemma_udp_test_len();
    lemma_own_datagram(
        m,
        selftest::UDP_TEST_PORT,
        bytes::str_bytes(selftest::UDP_TEST_PAYLOAD),
        now,
    );
}

} // verus!
