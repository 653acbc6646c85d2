use aether::net::address::parse_ipv4;
use aether::net::arp;
use aether::net::arp::{ArpCache, ArpPacket};
use aether::net::connect;
use aether::net::connect::Connect;
use aether::net::dhcp;
use aether::net::dns;
use aether::net::ether;
use aether::net::icmp;
use aether::net::ipv4;
use aether::net::jobs;
use aether::net::jobs::{Ping, Step};
use aether::net::lookup;
use aether::net::selftest;
use aether::net::stack;
use aether::net::stack::{Stack, DNS_SERVER, GATEWAY_IP, OUR_IP};
use aether::net::tcp::table;
use aether::net::udp;

const MAC: [u8; 6] = [0x52, 0x54, 0, 0x12, 0x34, 0x56];
const PEER: [u8; 6] = [2, 2, 2, 2, 2, 2];

fn host() -> Stack {
    let mut s = stack::init(MAC);
    stack::use_static_fallback(&mut s);
    s
}

// Formats.

#[test]
fn ethernet_frame_parses_back() {
    let frame = ether::build([1; 6], [2; 6], 0x0800, &[9, 8, 7]);
    let parsed = ether::Frame::parse(&frame).unwrap();
    assert_eq!(parsed.dst, [1; 6]);
    assert_eq!(parsed.src, [2; 6]);
    assert_eq!(parsed.ethertype, 0x0800);
    assert_eq!(parsed.payload, &[9, 8, 7]);
    assert!(ether::Frame::parse(&frame[..13]).is_none());
}

#[test]
fn checksum_is_the_complement_of_the_sum() {
    assert_eq!(ipv4::checksum(&[]), 0xFFFF);
    assert_eq!(ipv4::checksum(&[0x00, 0x01, 0xF2, 0x03, 0xF4, 0xF5, 0xF6, 0xF7]), 0x220D);
    assert_eq!(ipv4::checksum(&[0xFF]), 0x00FF);
}

#[test]
fn packet_parses_back() {
    let packet = ipv4::build([10, 0, 0, 1], [10, 0, 0, 2], 17, b"payload");
    assert_eq!(ipv4::checksum(&packet[..20]), 0);
    let p = ipv4::Ipv4Packet::parse(&packet).unwrap();
    assert_eq!((p.src, p.dst, p.protocol), ([10, 0, 0, 1], [10, 0, 0, 2], 17));
    assert_eq!(p.payload, b"payload");
    let mut padded = packet.clone();
    padded.extend_from_slice(&[0; 9]);
    assert_eq!(ipv4::Ipv4Packet::parse(&padded).unwrap().payload, b"payload");
    assert_eq!(ipv4::Ipv4Packet::parse(&packet[..24]).unwrap().payload, b"payl");
    assert!(ipv4::Ipv4Packet::parse(&packet[..19]).is_none());
    let mut longer_header = packet.clone();
    longer_header[0] = 0x46;
    assert_eq!(ipv4::Ipv4Packet::parse(&longer_header).unwrap().payload, b"oad");
    let mut header_beyond = packet.clone();
    header_beyond[0] = 0x4F;
    assert!(ipv4::Ipv4Packet::parse(&header_beyond).is_none());
    let mut other_version = packet.clone();
    other_version[0] = 0x65;
    assert!(ipv4::Ipv4Packet::parse(&other_version).is_none());
}

#[test]
fn echo_parses_back() {
    let message = icmp::build_echo_request(0xABCD, 7, b"data");
    let echo = icmp::Echo::parse(&message).unwrap();
    assert_eq!((echo.typ, echo.id, echo.seq, echo.data), (8, 0xABCD, 7, &b"data"[..]));
    assert_eq!(ipv4::checksum(&message), 0);
    assert!(icmp::Echo::parse(&message[..7]).is_none());
    assert_eq!(icmp::build_echo_reply(0xABCD, 7, b"data")[0], 0);
}

#[test]
fn datagram_parses_back() {
    let d = udp::build([1, 2, 3, 4], [5, 6, 7, 8], 1000, 2000, b"abc");
    let parsed = udp::Datagram::parse(&d).unwrap();
    assert_eq!((parsed.src_port, parsed.dst_port, parsed.payload), (1000, 2000, &b"abc"[..]));
    assert_eq!(d.len(), 11);
    assert!(udp::Datagram::parse(&d[..7]).is_none());
}

#[test]
fn address_request_parses_back() {
    let request = arp::build_request(MAC, [10, 0, 0, 1], [10, 0, 0, 2]);
    let p = ArpPacket::parse(&request).unwrap();
    assert_eq!(p.oper, arp::OPER_REQUEST);
    assert_eq!((p.sha, p.spa, p.tpa), (MAC, [10, 0, 0, 1], [10, 0, 0, 2]));
    assert_eq!(p.tha, [0; 6]);
    assert!(ArpPacket::parse(&request[..27]).is_none());
    let mut token_ring = request.clone();
    token_ring[1] = 6;
    assert!(ArpPacket::parse(&token_ring).is_none());
}

#[test]
fn cache_keeps_the_latest_address() {
    let mut cache = ArpCache::new();
    arp::cache_insert(&mut cache, [10, 0, 0, 2], PEER);
    arp::cache_insert(&mut cache, [10, 0, 0, 1], MAC);
    arp::cache_insert(&mut cache, [10, 0, 0, 2], MAC);
    assert_eq!(arp::cache_len(&cache), 2);
    assert_eq!(arp::cache_lookup(&cache, [10, 0, 0, 2]), Some(MAC));
    assert_eq!(arp::cache_lookup(&cache, [10, 0, 0, 3]), None);
    assert_eq!(
        arp::cache_entries(&cache),
        vec![([10, 0, 0, 1], MAC), ([10, 0, 0, 2], MAC)]
    );
}

#[test]
fn dotted_addresses_are_parsed() {
    assert_eq!(parse_ipv4("10.0.2.15"), Some([10, 0, 2, 15]));
    assert_eq!(parse_ipv4("255.255.255.255"), Some([255; 4]));
    for bad in ["", "1.2.3", "1.2.3.4.5", "1.2.3.256", "1.2.3.x", "a.b.c.d", "1..2.3", "10.0.2.+2"] {
        assert_eq!(parse_ipv4(bad), None, "{}", bad);
    }
}

#[test]
fn names_are_encoded_in_queries() {
    let q = dns::build_query(0x1234, "ab.example").unwrap();
    assert_eq!(&q[..12], &[0x12, 0x34, 1, 0, 0, 1, 0, 0, 0, 0, 0, 0]);
    assert_eq!(&q[12..], b"\x02ab\x07example\x00\x00\x01\x00\x01");
    assert_eq!(dns::build_query(1, ""), None);
    assert_eq!(dns::build_query(1, "a..b"), None);
    assert_eq!(dns::build_query(1, &"x".repeat(64)), None);
}

fn dns_answer(id: u16, address: [u8; 4]) -> Vec<u8> {
    let mut r = id.to_be_bytes().to_vec();
    r.extend_from_slice(&[0x81, 0x80, 0, 1, 0, 2, 0, 0, 0, 0]);
    r.extend_from_slice(b"\x01a\x00\x00\x01\x00\x01");
    // An alias, then the address.
    r.extend_from_slice(&[0xC0, 12, 0, 5, 0, 1, 0, 0, 0, 9, 0, 2, 0xC0, 12]);
    r.extend_from_slice(&[0xC0, 12, 0, 1, 0, 1, 0, 0, 0, 9, 0, 4]);
    r.extend_from_slice(&address);
    r
}

#[test]
fn first_address_of_a_response_is_taken() {
    let r = dns_answer(5, [93, 184, 216, 34]);
    assert_eq!(dns::parse_response(&r, 5), Some([93, 184, 216, 34]));
    assert_eq!(dns::parse_response(&r, 6), None);
    assert_eq!(dns::parse_response(&r[..r.len() - 1], 5), None);
    let mut failed = r.clone();
    failed[3] = 0x83;
    assert_eq!(dns::parse_response(&failed, 5), None);
    let mut query = r.clone();
    query[2] = 0x01;
    assert_eq!(dns::parse_response(&query, 5), None);
}

fn dhcp_reply(xid: u32, kind: u8) -> Vec<u8> {
    let mut r = vec![0u8; 236];
    r[0] = dhcp::BOOTREPLY;
    r[4..8].copy_from_slice(&xid.to_be_bytes());
    r[16..20].copy_from_slice(&[192, 168, 1, 50]);
    r.extend_from_slice(&[0x63, 0x82, 0x53, 0x63]);
    r.extend_from_slice(&[53, 1, kind, 0, 54, 4, 192, 168, 1, 1]);
    r.extend_from_slice(&[1, 4, 255, 255, 255, 0, 3, 4, 192, 168, 1, 254]);
    r.extend_from_slice(&[6, 4, 192, 168, 1, 53, 51, 4, 0, 0, 0x0E, 0x10, 255]);
    r
}

#[test]
fn lease_messages_are_built() {
    let d = dhcp::build_discover(0xAABB_CCDD, MAC);
    assert_eq!(&d[..8], &[1, 1, 6, 0, 0xAA, 0xBB, 0xCC, 0xDD]);
    assert_eq!(&d[10..12], &[0x80, 0]);
    assert_eq!(&d[28..34], &MAC);
    assert_eq!(&d[236..243], &[0x63, 0x82, 0x53, 0x63, 53, 1, 1]);
    assert_eq!(d.last(), Some(&255));
    let r = dhcp::build_request(1, MAC, [1, 2, 3, 4], [5, 6, 7, 8]);
    assert_eq!(&r[240..243], &[53, 1, 3]);
    assert!(r.windows(6).any(|w| w == [50, 4, 1, 2, 3, 4]));
    assert!(r.windows(6).any(|w| w == [54, 4, 5, 6, 7, 8]));
}

#[test]
fn lease_messages_are_parsed() {
    let r = dhcp::parse_reply(&dhcp_reply(9, dhcp::OFFER), 9).unwrap();
    assert_eq!(r.msg_type, 2);
    assert_eq!(r.your_ip, [192, 168, 1, 50]);
    assert_eq!(r.server_id, [192, 168, 1, 1]);
    assert_eq!(r.subnet_mask, Some([255, 255, 255, 0]));
    assert_eq!(r.router, Some([192, 168, 1, 254]));
    assert_eq!(r.dns, Some([192, 168, 1, 53]));
    assert_eq!(r.lease_secs, Some(3600));
    assert_eq!(dhcp::parse_reply(&dhcp_reply(9, dhcp::OFFER), 8), None);
    let mut request = dhcp_reply(9, dhcp::OFFER);
    request[0] = dhcp::BOOTREQUEST;
    assert_eq!(dhcp::parse_reply(&request, 9), None);
    let mut other = dhcp_reply(9, dhcp::OFFER);
    other[236] = 0;
    assert_eq!(dhcp::parse_reply(&other, 9), None);
}

// The stack.

fn payload_of(frame: &[u8]) -> (ether::Frame<'_>, ipv4::Ipv4Packet<'_>) {
    let f = ether::Frame::parse(frame).unwrap();
    let p = ipv4::Ipv4Packet::parse(f.payload).unwrap();
    (f, p)
}

fn to_us(protocol: u8, payload: &[u8]) -> Vec<u8> {
    let packet = ipv4::build([10, 0, 2, 2], OUR_IP, protocol, payload);
    ether::build(MAC, PEER, ether::ETHERTYPE_IPV4, &packet)
}

#[test]
fn address_request_for_us_is_answered() {
    let mut s = host();
    let request = arp::build_request(PEER, [10, 0, 2, 2], OUR_IP);
    let frame = ether::build(ether::BROADCAST, PEER, ether::ETHERTYPE_ARP, &request);
    let reply = stack::receive(&mut s, &frame, 0).unwrap();
    let f = ether::Frame::parse(&reply).unwrap();
    assert_eq!((f.dst, f.src, f.ethertype), (PEER, MAC, ether::ETHERTYPE_ARP));
    let p = ArpPacket::parse(f.payload).unwrap();
    assert_eq!((p.oper, p.sha, p.spa, p.tha), (arp::OPER_REPLY, MAC, OUR_IP, PEER));
    assert_eq!(arp::cache_lookup(s.arp(), [10, 0, 2, 2]), Some(PEER));
    assert_eq!((stack::arp_seen(&s), stack::arp_replies_sent(&s)), (1, 1));
    let other = arp::build_request(PEER, [10, 0, 2, 2], [10, 0, 2, 99]);
    let frame = ether::build(ether::BROADCAST, PEER, ether::ETHERTYPE_ARP, &other);
    assert_eq!(stack::receive(&mut s, &frame, 0), None);
}

#[test]
fn ping_to_us_is_answered() {
    let mut s = host();
    let frame = to_us(ipv4::PROTO_ICMP, &icmp::build_echo_request(3, 4, b"hi"));
    let reply = stack::receive(&mut s, &frame, 0).unwrap();
    let (f, p) = payload_of(&reply);
    assert_eq!((f.dst, p.src, p.dst), (PEER, OUR_IP, [10, 0, 2, 2]));
    assert_eq!(p.payload, &icmp::build_echo_reply(3, 4, b"hi")[..]);
    assert_eq!(stack::icmp_requests_handled(&s), 1);
    let reply = to_us(ipv4::PROTO_ICMP, &icmp::build_echo_reply(3, 9, b""));
    assert_eq!(stack::receive(&mut s, &reply, 0), None);
    assert_eq!(stack::icmp_replies_received(&s), 1);
    assert_eq!(stack::last_reply(&s), (3, 9));
}

#[test]
fn datagram_is_echoed_or_delivered() {
    let mut s = host();
    let echo = udp::build([10, 0, 2, 2], OUR_IP, 999, stack::UDP_ECHO_PORT, b"back");
    let reply = stack::receive(&mut s, &to_us(udp::PROTO_UDP, &echo), 0).unwrap();
    let (_, p) = payload_of(&reply);
    let d = udp::Datagram::parse(p.payload).unwrap();
    assert_eq!((d.src_port, d.dst_port, d.payload), (7, 999, &b"back"[..]));
    let other = udp::build([10, 0, 2, 2], OUR_IP, 999, 1234, b"keep");
    assert_eq!(stack::receive(&mut s, &to_us(udp::PROTO_UDP, &other), 0), None);
    assert_eq!(stack::last_udp(&s), b"keep".to_vec());
    assert_eq!(
        (stack::udp_received(&s), stack::udp_echoes_sent(&s), stack::udp_delivered(&s)),
        (2, 1, 1)
    );
}

#[test]
fn packet_for_another_host_is_ignored() {
    let mut s = host();
    let packet = ipv4::build([10, 0, 2, 2], [10, 0, 2, 77], 1, &icmp::build_echo_request(1, 1, b""));
    let frame = ether::build(MAC, PEER, ether::ETHERTYPE_IPV4, &packet);
    assert_eq!(stack::receive(&mut s, &frame, 0), None);
    assert_eq!(stack::icmp_requests_handled(&s), 0);
    assert_eq!(stack::frames_received(&s), 1);
    assert_eq!(stack::last_src(&s), PEER);
    assert_eq!(stack::receive(&mut s, &[1, 2, 3], 0), None);
}

/// Runs a job with a peer that maps each frame sent to the frames it answers with.
fn run<T>(
    s: &mut Stack,
    mut step: impl FnMut(&mut Stack, u64) -> Step<T>,
    mut peer: impl FnMut(&[u8]) -> Vec<Vec<u8>>,
) -> (Option<T>, u64) {
    let mut sent = 0;
    let mut now = 0;
    loop {
        match step(s, now) {
            Step::Done(r) => return (r, sent),
            Step::Wait(frames) => {
                let mut out = frames;
                while !out.is_empty() {
                    let mut arriving = Vec::new();
                    for f in out.iter() {
                        sent += 1;
                        arriving.extend(peer(f));
                    }
                    out = stack::poll(s, &arriving, now);
                }
            }
        }
        now += 1;
    }
}

fn itself(frame: &[u8]) -> Vec<Vec<u8>> {
    vec![frame.to_vec()]
}

fn nobody(_: &[u8]) -> Vec<Vec<u8>> {
    vec![]
}

fn answer_arp(frame: &[u8]) -> Option<Vec<u8>> {
    let f = ether::Frame::parse(frame)?;
    if f.ethertype != ether::ETHERTYPE_ARP {
        return None;
    }
    let p = ArpPacket::parse(f.payload)?;
    let reply = arp::build_reply(PEER, p.tpa, p.sha, p.spa);
    Some(ether::build(p.sha, PEER, ether::ETHERTYPE_ARP, &reply))
}

#[test]
fn address_is_resolved() {
    let mut s = host();
    let mut attempt = 0;
    let (mac, sent) = run(
        &mut s,
        |s, _| {
            attempt += 1;
            jobs::arp_resolve(s, GATEWAY_IP, attempt - 1)
        },
        |f| answer_arp(f).into_iter().collect(),
    );
    assert_eq!(mac, Some(PEER));
    assert_eq!(sent, 1);
}

#[test]
fn silent_address_is_given_up() {
    let mut s = host();
    let mut attempt = 0;
    let (mac, sent) = run(
        &mut s,
        |s, _| {
            attempt += 1;
            jobs::arp_resolve(s, GATEWAY_IP, attempt - 1)
        },
        nobody,
    );
    assert_eq!(mac, None);
    assert_eq!(sent, (jobs::SHORT_LIMIT / jobs::SHORT_PERIOD) as u64);
}

#[test]
fn ping_is_answered_by_its_target() {
    let mut s = host();
    let mut job = Ping::Resolving { ip: GATEWAY_IP, attempt: 0 };
    let (seq, _) = run(&mut s, |s, _| jobs::ping(s, &mut job), |f| {
        if let Some(reply) = answer_arp(f) {
            return vec![reply];
        }
        let (_, p) = payload_of(f);
        let echo = icmp::Echo::parse(p.payload).unwrap();
        assert_eq!((echo.typ, echo.id, echo.data), (8, jobs::PING_ID, jobs::PING_PAYLOAD.as_bytes()));
        vec![to_us(1, &icmp::build_echo_reply(echo.id, echo.seq, echo.data))]
    });
    assert_eq!(seq, Some(1));
    let mut unanswered = Ping::Resolving { ip: GATEWAY_IP, attempt: 0 };
    let (seq, _) = run(&mut s, |s, _| jobs::ping(s, &mut unanswered), nobody);
    assert_eq!(seq, None);
}

#[test]
fn datagram_is_sent_once_the_address_is_known() {
    let mut s = host();
    let mut attempt = 0;
    let (frame, _) = run(
        &mut s,
        |s, _| {
            attempt += 1;
            jobs::udp_send(s, GATEWAY_IP, 7, 5000, b"msg", attempt - 1)
        },
        |f| answer_arp(f).into_iter().collect(),
    );
    let frame = frame.unwrap();
    let (f, p) = payload_of(&frame);
    assert_eq!((f.dst, p.dst), (PEER, GATEWAY_IP));
    assert_eq!(udp::Datagram::parse(p.payload).unwrap().payload, b"msg");
}

#[test]
fn name_is_looked_up() {
    let mut s = host();
    let mut job = lookup::dns_query(&mut s, "a").unwrap();
    let (address, _) = run(&mut s, |s, _| lookup::dns_resolve(s, &mut job), |f| {
        if let Some(reply) = answer_arp(f) {
            return vec![reply];
        }
        let (_, p) = payload_of(f);
        let d = udp::Datagram::parse(p.payload).unwrap();
        assert_eq!((p.dst, d.dst_port), (DNS_SERVER, 53));
        let id = u16::from_be_bytes([d.payload[0], d.payload[1]]);
        let answer = dns_answer(id, [1, 2, 3, 4]);
        let reply = udp::build(p.dst, p.src, 53, d.src_port, &answer);
        vec![to_us(udp::PROTO_UDP, &reply)]
    });
    assert_eq!(address, Some([1, 2, 3, 4]));
    assert!(lookup::dns_query(&mut s, "a..b").is_none());
    let mut unanswered = lookup::dns_query(&mut s, "a").unwrap();
    let (address, _) = run(&mut s, |s, _| lookup::dns_resolve(s, &mut unanswered), nobody);
    assert_eq!(address, None);
}

#[test]
fn lease_is_acquired() {
    let mut s = stack::init(MAC);
    let mut job = lookup::dhcp_begin(&mut s);
    let (done, sent) = run(&mut s, |s, _| lookup::dhcp_configure(s, &mut job), |f| {
        let (frame, p) = payload_of(f);
        assert_eq!((frame.dst, p.src, p.dst), (ether::BROADCAST, [0; 4], [255; 4]));
        let d = udp::Datagram::parse(p.payload).unwrap();
        assert_eq!((d.src_port, d.dst_port), (68, 67));
        let xid = u32::from_be_bytes([d.payload[4], d.payload[5], d.payload[6], d.payload[7]]);
        let kind = if d.payload[242] == dhcp::DISCOVER { dhcp::OFFER } else { dhcp::ACK };
        let reply = udp::build([192, 168, 1, 1], [255; 4], 67, 68, &dhcp_reply(xid, kind));
        let packet = ipv4::build([192, 168, 1, 1], [255; 4], udp::PROTO_UDP, &reply);
        vec![ether::build(ether::BROADCAST, PEER, ether::ETHERTYPE_IPV4, &packet)]
    });
    assert_eq!((done, sent), (Some(()), 2));
    assert!(stack::dhcp_configured(&s));
    assert_eq!(stack::our_ip(&s), [192, 168, 1, 50]);
    assert_eq!(stack::leased_gateway(&s), [192, 168, 1, 254]);
    assert_eq!(stack::leased_dns(&s), [192, 168, 1, 53]);
    assert_eq!(stack::leased_mask(&s), [255, 255, 255, 0]);
    assert_eq!(stack::lease_secs(&s), 3600);
    stack::use_static_fallback(&mut s);
    assert_eq!(stack::our_ip(&s), OUR_IP);
    assert_eq!(stack::leased_gateway(&s), [192, 168, 1, 254]);
}

#[test]
fn refused_lease_fails() {
    let mut s = stack::init(MAC);
    let mut job = lookup::dhcp_begin(&mut s);
    let (done, _) = run(&mut s, |s, _| lookup::dhcp_configure(s, &mut job), |f| {
        let (_, p) = payload_of(f);
        let d = udp::Datagram::parse(p.payload).unwrap();
        let xid = u32::from_be_bytes([d.payload[4], d.payload[5], d.payload[6], d.payload[7]]);
        let reply = udp::build([192, 168, 1, 1], [255; 4], 67, 68, &dhcp_reply(xid, dhcp::NAK));
        let packet = ipv4::build([192, 168, 1, 1], [255; 4], udp::PROTO_UDP, &reply);
        vec![ether::build(ether::BROADCAST, PEER, ether::ETHERTYPE_IPV4, &packet)]
    });
    assert_eq!(done, None);
    assert!(!stack::dhcp_configured(&s));
    assert_eq!(stack::our_ip(&s), [0; 4]);
}

#[test]
fn loopback_selftests_pass() {
    let mut s = host();
    for mut job in [
        selftest::loopback_selftest(&s),
        selftest::ping_loopback_selftest(&s),
        selftest::udp_echo_loopback_selftest(&s),
    ] {
        let (done, _) = run(&mut s, |s, _| selftest::run_selftest(s, &mut job), itself);
        assert_eq!(done, Some(()));
    }
    let mut job = selftest::ping_loopback_selftest(&s);
    let (done, _) = run(&mut s, |s, _| selftest::run_selftest(s, &mut job), nobody);
    assert_eq!(done, None);
}

#[test]
fn connection_to_ourselves_is_established() {
    let mut s = host();
    let mut job = connect::begin_tcp_handshake_selftest(&mut s);
    let (done, _) = run(&mut s, |s, _| connect::tcp_handshake_loopback_selftest(s, &mut job), itself);
    assert_eq!(done, Some(()));
    assert_eq!(table::established_count(s.tcp()), 2);
}

#[test]
fn data_to_ourselves_arrives() {
    let mut s = host();
    let mut job = connect::begin_tcp_data_selftest(&mut s);
    let (done, _) = run(
        &mut s,
        |s, now| {
            match connect::tcp_data_loopback_selftest(s, &mut job, now) {
                Step::Done(r) => Step::Done(r),
                Step::Wait(mut frames) => {
                    let mac = stack::our_mac(s);
                    for (segment, ip) in stack::tcp_service(s, now) {
                        frames.push(stack::build_ipv4_frame(s, mac, ip, 6, &segment));
                    }
                    Step::Wait(frames)
                }
            }
        },
        itself,
    );
    assert_eq!(done, Some(()));
    let accepted = stack::tcp_accept(&s, &mut Vec::new(), connect::DATA_TEST_PORT).unwrap();
    assert_eq!(accepted.0, connect::DATA_TEST_PORT);
    let payload = connect::DATA_TEST_PAYLOAD.as_bytes().to_vec();
    assert_eq!(stack::tcp_read(&mut s, accepted.0, accepted.1, 100), Some(payload));
    assert_eq!(stack::tcp_read(&mut s, accepted.0, accepted.1, 100), Some(vec![]));
    stack::tcp_reset(&mut s);
    assert_eq!(stack::tcp_read(&mut s, accepted.0, accepted.1, 100), None);
}

#[test]
fn connection_without_a_peer_fails() {
    let mut s = host();
    let mut job = Connect::Resolving { ip: [10, 0, 2, 9], port: 80, attempt: 0 };
    let (port, _) = run(&mut s, |s, _| connect::tcp_connect(s, &mut job), nobody);
    assert_eq!(port, None);
}

#[test]
fn accepted_connection_is_claimed_once() {
    let mut s = host();
    let mut job = connect::begin_tcp_handshake_selftest(&mut s);
    run(&mut s, |s, _| connect::tcp_handshake_loopback_selftest(s, &mut job), itself);
    let mut claimed = Vec::new();
    let first = stack::tcp_accept(&s, &mut claimed, connect::HANDSHAKE_TEST_PORT);
    assert!(first.is_some());
    assert_eq!(stack::tcp_accept(&s, &mut claimed, connect::HANDSHAKE_TEST_PORT), None);
    assert_eq!(claimed, vec![first.unwrap()]);
}

#[test]
fn segment_goes_to_its_next_hop() {
    let mut s = host();
    let frame = match jobs::tcp_transmit(&s, b"segment", OUR_IP, 0) {
        Step::Done(Some(frame)) => frame,
        _ => panic!("our own address is known"),
    };
    let (f, p) = payload_of(&frame);
    assert_eq!((f.dst, p.dst, p.protocol, p.payload), (MAC, OUR_IP, 6, &b"segment"[..]));
    let mut attempt = 0;
    let (unreachable, _) = run(
        &mut s,
        |s, _| {
            attempt += 1;
            jobs::tcp_transmit(s, b"segment", GATEWAY_IP, attempt - 1)
        },
        nobody,
    );
    assert_eq!(unreachable, None);
}
