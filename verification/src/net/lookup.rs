//! Asking servers: a name of the DNS server, and our configuration of a DHCP server.
//!
//! Both are jobs as described in [`crate::net::jobs`].

use vstd::prelude::*;

use crate::bytes;
use crate::net::dhcp;
use crate::net::dns;
use crate::net::ether;
use crate::net::ipv4;
use crate::net::jobs;
use crate::net::jobs::{udp_send, when_due, Step, StepView};
use crate::net::stack;
use crate::net::stack::{
    install_lease, next_dhcp_xid, next_dns_id, our_mac, Serials, Stack, StackModel, DNS_SERVER,
    LIMITED_BROADCAST,
};
use crate::net::udp;

verus! {

/// The UDP port that our DNS queries come from.
pub const DNS_CLIENT_PORT: u16 = 50000;

/// How often a DNS query or a leg of a DHCP exchange is advanced.
pub const LONG_LIMIT: u32 = 3000;

/// How many steps lie between two transmissions.
pub const LONG_PERIOD: u32 = 300;

/// A name lookup in progress.
pub struct DnsQuery {
    pub id: u16,
    pub query: Vec<u8>,
    /// How many datagrams had been delivered when we last looked.
    pub seen: u64,
    pub attempt: u32,
    /// While the server's MAC address is being resolved, the step of that.
    pub resolving: Option<u32>,
}

/// A name lookup in progress, over sequences.
#[verifier::ext_equal]
pub struct DnsQueryView {
    pub id: u16,
    pub query: Seq<u8>,
    pub seen: u64,
    pub attempt: u32,
    pub resolving: Option<u32>,
}

impl View for DnsQuery {
    type V = DnsQueryView;

    open spec fn view(&self) -> DnsQueryView {
        DnsQueryView {
            id: self.id,
            query: self.query@,
            seen: self.seen,
            attempt: self.attempt,
            resolving: self.resolving,
        }
    }
}

/// The id of the next query.
pub open spec fn query_id(m: StackModel) -> u16 {
    ((0xA000 + m.serials.dns) % 0x1_0000) as u16
}

/// Starts the lookup of `hostname`, under a fresh id; `None` if no query can be built for it.
pub fn dns_query(s: &mut Stack, hostname: &str) -> (job: Option<DnsQuery>)
    requires
        old(s).ok(),
    ensures
        final(s).ok(),
        final(s)@ == (StackModel {
            serials: Serials {
                dns: old(s)@.serials.dns.wrapping_add(1),
                ..old(s)@.serials
            },
            ..old(s)@
        }),
        match dns::query_bytes(query_id(old(s)@), bytes::str_bytes(hostname)) {
            Some(query) => job matches Some(j) && j@ == (DnsQueryView {
                id: query_id(old(s)@),
                query,
                seen: old(s)@.stats.udp_delivered,
                attempt: 0,
                resolving: None,
            }),
            None => job is None,
        },
{
    let id: u16 = next_dns_id(s);
    match dns::build_query(id, hostname) {
        Some(query) => Some(
            DnsQuery { id, query, seen: stack::udp_delivered(s), attempt: 0, resolving: None },
        ),
        None => None,
    }
}

/// The address that a newly delivered datagram gives as the answer to the query.
pub open spec fn answer(m: StackModel, job: DnsQueryView) -> Option<Seq<u8>> {
    if m.stats.udp_delivered != job.seen {
        dns::response_address(m.last_udp, job.id)
    } else {
        None
    }
}

/// A step of transmitting the query, which may first have to resolve the server.
pub open spec fn asking(m: StackModel, job: DnsQueryView, tried: u32) -> (
    DnsQueryView,
    StepView<Seq<u8>>,
) {
    match jobs::sending_udp(
        m,
        DNS_SERVER@,
        dns::DNS_PORT,
        DNS_CLIENT_PORT,
        job.query,
        tried,
    ) {
        StepView::Done(Some(frame)) => (
            DnsQueryView { resolving: None, attempt: jobs::next_attempt(job.attempt), ..job },
            StepView::Wait(seq![frame]),
        ),
        StepView::Done(None) => (DnsQueryView { resolving: Some(tried), ..job }, StepView::Done(None)),
        StepView::Wait(frames) => (
            DnsQueryView { resolving: Some(jobs::next_attempt(tried)), ..job },
            StepView::Wait(frames),
        ),
    }
}

/// A step of a name lookup.
pub open spec fn looking_up(m: StackModel, job: DnsQueryView) -> (DnsQueryView, StepView<Seq<u8>>) {
    match job.resolving {
        Some(tried) => asking(m, job, tried),
        None => {
            let looked = DnsQueryView { seen: m.stats.udp_delivered, ..job };
            if answer(m, job) is Some {
                (looked, StepView::Done(answer(m, job)))
            } else if job.attempt >= LONG_LIMIT {
                (looked, StepView::Done(None))
            } else if job.attempt % LONG_PERIOD == 0 {
                asking(m, looked, 0)
            } else {
                (
                    DnsQueryView { attempt: jobs::next_attempt(job.attempt), ..looked },
                    StepView::Wait(jobs::nothing()),
                )
            }
        },
    }
}

/// A step of transmitting the query.
fn ask(s: &Stack, job: &mut DnsQuery, tried: u32) -> (step: Step<[u8; 4]>)
    requires
        old(job).attempt < LONG_LIMIT,
    ensures
        (final(job)@, jobs::ip_step(step)) == asking(s@, old(job)@, tried),
{
    match udp_send(s, DNS_SERVER, dns::DNS_PORT, DNS_CLIENT_PORT, &job.query, tried) {
        Step::Done(Some(frame)) => {
            job.resolving = None;
            job.attempt = job.attempt + 1;
            Step::Wait(jobs::one(frame))
        },
        Step::Done(None) => {
            job.resolving = Some(tried);
            Step::Done(None)
        },
        Step::Wait(frames) => {
            job.resolving = Some(tried + 1);
            Step::Wait(frames)
        },
    }
}

impl DnsQuery {
    /// A lookup that is resolving the server has steps left.
    pub open spec fn ok(&self) -> bool {
        self.resolving is Some ==> self.attempt < LONG_LIMIT
    }
}

/// Advances a name lookup: sends the query to the DNS server until a datagram arrives that
/// answers it.
pub fn dns_resolve(s: &Stack, job: &mut DnsQuery) -> (step: Step<[u8; 4]>)
    requires
        old(job).ok(),
    ensures
        final(job).ok(),
        (final(job)@, jobs::ip_step(step)) == looking_up(s@, old(job)@),
{
    if let Some(tried) = job.resolving {
        return ask(s, job, tried);
    }
    let delivered: u64 = stack::udp_delivered(s);
    let fresh: bool = delivered != job.seen;
    job.seen = delivered;
    if fresh {
        let payload: Vec<u8> = stack::last_udp(s);
        if let Some(ip) = dns::parse_response(&payload, job.id) {
            return Step::Done(Some(ip));
        }
    }
    if job.attempt >= LONG_LIMIT {
        return Step::Done(None);
    }
    if job.attempt % LONG_PERIOD == 0 {
        return ask(s, job, 0);
    }
    job.attempt = job.attempt + 1;
    Step::Wait(jobs::none())
}

/// A DHCP exchange in progress: the discover leg, which wants an [`dhcp::OFFER`], then the
/// request leg, which wants an [`dhcp::ACK`].
pub struct DhcpExchange {
    pub xid: u32,
    /// The message of this leg.
    pub message: Vec<u8>,
    /// The type of reply that this leg waits for.
    pub want: u8,
    /// How many replies had been delivered when we last looked.
    pub seen: u64,
    pub attempt: u32,
}

/// A DHCP exchange in progress, over sequences.
#[verifier::ext_equal]
pub struct DhcpExchangeView {
    pub xid: u32,
    pub message: Seq<u8>,
    pub want: u8,
    pub seen: u64,
    pub attempt: u32,
}

impl View for DhcpExchange {
    type V = DhcpExchangeView;

    open spec fn view(&self) -> DhcpExchangeView {
        DhcpExchangeView {
            xid: self.xid,
            message: self.message@,
            want: self.want,
            seen: self.seen,
            attempt: self.attempt,
        }
    }
}

/// Starts to obtain our configuration, under a fresh transaction id.
pub fn dhcp_begin(s: &mut Stack) -> (job: DhcpExchange)
    requires
        old(s).ok(),
    ensures
        final(s).ok(),
        final(s)@ == (StackModel {
            serials: Serials {
                dhcp: old(s)@.serials.dhcp.wrapping_add(1),
                ..old(s)@.serials
            },
            ..old(s)@
        }),
        ({
            let xid = 0xAE7C_0000u32.wrapping_add(old(s)@.serials.dhcp);
            job@ == (DhcpExchangeView {
                xid,
                message: dhcp::discover_bytes(xid, old(s)@.mac),
                want: dhcp::OFFER,
                seen: old(s)@.stats.dhcp_delivered,
                attempt: 0,
            })
        }),
{
    let xid: u32 = next_dhcp_xid(s);
    let message: Vec<u8> = dhcp::build_discover(xid, our_mac(s));
    DhcpExchange { xid, message, want: dhcp::OFFER, seen: stack::dhcp_delivered(s), attempt: 0 }
}

/// The broadcast that carries a DHCP message from us, who have no address yet.
pub open spec fn dhcp_frame(mac: Seq<u8>, message: Seq<u8>) -> Seq<u8> {
    ether::frame_bytes(
        ether::BROADCAST@,
        mac,
        ether::ETHERTYPE_IPV4,
        ipv4::packet_bytes(
            bytes::zeros(4),
            LIMITED_BROADCAST@,
            udp::PROTO_UDP,
            udp::datagram_bytes(
                bytes::zeros(4),
                LIMITED_BROADCAST@,
                dhcp::CLIENT_PORT,
                dhcp::SERVER_PORT,
                message,
            ),
        ),
    )
}

/// Builds the broadcast that carries a DHCP message.
fn send_dhcp(s: &Stack, message: &[u8]) -> (frame: Vec<u8>)
    ensures
        frame@ == dhcp_frame(s@.mac, message@),
{
    let none: [u8; 4] = [0, 0, 0, 0];
    assert(none@ =~= bytes::zeros(4));
    let datagram: Vec<u8> = udp::build(
        none,
        LIMITED_BROADCAST,
        dhcp::CLIENT_PORT,
        dhcp::SERVER_PORT,
        message,
    );
    let packet: Vec<u8> = ipv4::build(none, LIMITED_BROADCAST, udp::PROTO_UDP, &datagram);
    ether::build(ether::BROADCAST, our_mac(s), ether::ETHERTYPE_IPV4, &packet)
}

/// The newly delivered reply that the current leg waits for.
pub open spec fn wanted_reply(m: StackModel, job: DhcpExchangeView) -> Option<dhcp::ReplyView> {
    if m.stats.dhcp_delivered != job.seen {
        match dhcp::reply_in(m.last_dhcp, job.xid) {
            Some(r) => if r.msg_type == job.want {
                Some(r)
            } else {
                None
            },
            None => None,
        }
    } else {
        None
    }
}

/// A step of a leg in which no reply is at hand: the message is repeated until the limit.
pub open spec fn broadcasting(m: StackModel, job: DhcpExchangeView) -> (
    DhcpExchangeView,
    StepView<()>,
) {
    if job.attempt >= LONG_LIMIT {
        (job, StepView::Done(None))
    } else {
        (
            DhcpExchangeView { attempt: jobs::next_attempt(job.attempt), ..job },
            StepView::Wait(jobs::due(dhcp_frame(m.mac, job.message), job.attempt, LONG_PERIOD)),
        )
    }
}

/// A step of a DHCP exchange: an offer is requested of the server that made it, and the
/// acknowledged lease is installed.
pub open spec fn configuring(m: StackModel, job: DhcpExchangeView) -> (
    StackModel,
    DhcpExchangeView,
    StepView<()>,
) {
    let looked = DhcpExchangeView { seen: m.stats.dhcp_delivered, ..job };
    match wanted_reply(m, job) {
        Some(r) => if job.want == dhcp::OFFER {
            let (next, step) = broadcasting(
                m,
                DhcpExchangeView {
                    message: dhcp::request_bytes(job.xid, m.mac, r.your_ip, r.server_id),
                    want: dhcp::ACK,
                    attempt: 0,
                    ..looked
                },
            );
            (m, next, step)
        } else {
            (stack::with_lease(m, r), looked, StepView::Done(Some(())))
        },
        None => {
            let (next, step) = broadcasting(m, looked);
            (m, next, step)
        },
    }
}

/// A step of a leg in which no reply is at hand.
fn broadcast_dhcp(s: &Stack, job: &mut DhcpExchange) -> (step: Step<()>)
    ensures
        (final(job)@, jobs::step_view(step)) == broadcasting(s@, old(job)@),
{
    if job.attempt >= LONG_LIMIT {
        return Step::Done(None);
    }
    let frame: Vec<u8> = send_dhcp(s, &job.message);
    let frames: Vec<Vec<u8>> = when_due(&frame, job.attempt, LONG_PERIOD);
    job.attempt = job.attempt + 1;
    Step::Wait(frames)
}

/// Advances a DHCP exchange: discover, offer, request, acknowledgement. It succeeds with the
/// lease installed.
pub fn dhcp_configure(s: &mut Stack, job: &mut DhcpExchange) -> (step: Step<()>)
    requires
        old(s).ok(),
    ensures
        final(s).ok(),
        (final(s)@, final(job)@, jobs::step_view(step)) == configuring(old(s)@, old(job)@),
{
    let delivered: u64 = stack::dhcp_delivered(s);
    let fresh: bool = delivered != job.seen;
    job.seen = delivered;
    if fresh {
        let payload: Vec<u8> = stack::last_dhcp(s);
        if let Some(r) = dhcp::parse_reply(&payload, job.xid) {
            if r.msg_type == job.want {
                if job.want == dhcp::OFFER {
                    job.message = dhcp::build_request(
                        job.xid,
                        our_mac(s),
                        r.your_ip,
                        r.server_id,
                    );
                    job.want = dhcp::ACK;
                    job.attempt = 0;
                } else {
                    install_lease(s, &r);
                    return Step::Done(Some(()));
                }
            }
        }
    }
    broadcast_dhcp(s, job)
}

} // verus!
