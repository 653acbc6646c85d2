//! Exchanges that wait for an answer from the network.
//!
//! A job is advanced one step at a time. A step either ends the job or returns the frames to
//! transmit now; the driver transmits them, polls the card once, and takes the next step after a
//! pause. Every job gives up after a bounded number of steps.

use vstd::prelude::*;

use crate::bytes;
use crate::bytes::{same_ip, to_vec};
use crate::net::arp;
use crate::net::ether;
use crate::net::ether::MacAddr;
use crate::net::icmp;
use crate::net::ipv4;
use crate::net::stack;
use crate::net::stack::{
    build_ipv4_frame, next_ping_seq, our_ip, our_mac, Serials, Stack, StackModel,
};
use crate::net::tcp::segment::PROTO_TCP;
use crate::net::udp;

verus! {

/// The identifier of our pings.
pub const PING_ID: u16 = 0xAE71;

/// The payload of our pings.
pub const PING_PAYLOAD: &'static str = "aether ping 0123456789abcdef";

/// How often address resolution, a ping and a connection attempt are advanced.
pub const SHORT_LIMIT: u32 = 2000;

/// How many steps lie between two transmissions of a short job.
pub const SHORT_PERIOD: u32 = 200;

/// What a job does next.
pub enum Step<T> {
    /// The job is over, with its result or, having given up, without.
    Done(Option<T>),
    /// The job goes on; these frames are to be transmitted now.
    Wait(Vec<Vec<u8>>),
}

/// What a job does next, over sequences.
pub enum StepView<T> {
    Done(Option<T>),
    Wait(Seq<Seq<u8>>),
}

/// A step with a plain result.
pub open spec fn step_view<T>(s: Step<T>) -> StepView<T> {
    match s {
        Step::Done(r) => StepView::Done(r),
        Step::Wait(frames) => StepView::Wait(stack::frames_view(frames@)),
    }
}

/// A step that results in a MAC address.
pub open spec fn mac_step(s: Step<MacAddr>) -> StepView<Seq<u8>> {
    match s {
        Step::Done(Some(mac)) => StepView::Done(Some(mac@)),
        Step::Done(None) => StepView::Done(None),
        Step::Wait(frames) => StepView::Wait(stack::frames_view(frames@)),
    }
}

/// A step that results in an IPv4 address.
pub open spec fn ip_step(s: Step<[u8; 4]>) -> StepView<Seq<u8>> {
    match s {
        Step::Done(Some(ip)) => StepView::Done(Some(ip@)),
        Step::Done(None) => StepView::Done(None),
        Step::Wait(frames) => StepView::Wait(stack::frames_view(frames@)),
    }
}

/// A step that results in a frame.
pub open spec fn frame_step(s: Step<Vec<u8>>) -> StepView<Seq<u8>> {
    match s {
        Step::Done(Some(f)) => StepView::Done(Some(f@)),
        Step::Done(None) => StepView::Done(None),
        Step::Wait(frames) => StepView::Wait(stack::frames_view(frames@)),
    }
}

/// No frame.
pub open spec fn nothing() -> Seq<Seq<u8>> {
    Seq::empty()
}

/// The frame `f` if it is due, which it is every `period` steps.
pub open spec fn due(f: Seq<u8>, attempt: u32, period: u32) -> Seq<Seq<u8>> {
    if attempt % period == 0 {
        seq![f]
    } else {
        nothing()
    }
}

/// The step after step `attempt`.
pub open spec fn next_attempt(attempt: u32) -> u32 {
    (attempt + 1) as u32
}

/// The number of the next ping.
pub open spec fn ping_number(m: StackModel) -> u16 {
    ((m.serials.ping + 1) % 0x1_0000) as u16
}

/// A list of the one frame `f`.
pub fn one(f: Vec<u8>) -> (frames: Vec<Vec<u8>>)
    ensures
        stack::frames_view(frames@) == seq![f@],
{
    let ghost view = f@;
    let mut frames: Vec<Vec<u8>> = Vec::new();
    frames.push(f);
    assert(stack::frames_view(frames@) =~= seq![view]);
    frames
}

/// An empty list of frames.
pub fn none() -> (frames: Vec<Vec<u8>>)
    ensures
        stack::frames_view(frames@) == nothing(),
{
    let frames: Vec<Vec<u8>> = Vec::new();
    assert(stack::frames_view(frames@) =~= nothing());
    frames
}

/// The frame `f` if it is due.
pub fn when_due(f: &Vec<u8>, attempt: u32, period: u32) -> (frames: Vec<Vec<u8>>)
    requires
        period > 0,
    ensures
        stack::frames_view(frames@) == due(f@, attempt, period),
{
    if attempt % period == 0 {
        one(to_vec(f))
    } else {
        none()
    }
}

// Address resolution.

/// The broadcast that asks for the owner of `ip`.
pub open spec fn request_frame(m: StackModel, ip: Seq<u8>) -> Seq<u8> {
    ether::frame_bytes(
        ether::BROADCAST@,
        m.mac,
        ether::ETHERTYPE_ARP,
        arp::packet_bytes(arp::OPER_REQUEST, m.mac, m.ip, bytes::zeros(6), ip),
    )
}

/// Step `attempt` of resolving `ip`: a known address ends it, and the request is repeated until
/// the limit is reached.
pub open spec fn resolving(m: StackModel, ip: Seq<u8>, attempt: u32) -> StepView<Seq<u8>> {
    match arp::cached(m.arp, ip) {
        Some(mac) => StepView::Done(Some(mac)),
        None => if attempt >= SHORT_LIMIT {
            StepView::Done(None)
        } else {
            StepView::Wait(due(request_frame(m, ip), attempt, SHORT_PERIOD))
        },
    }
}

/// Step `attempt` of resolving `ip` to a MAC address.
pub fn arp_resolve(s: &Stack, ip: [u8; 4], attempt: u32) -> (step: Step<MacAddr>)
    ensures
        mac_step(step) == resolving(s@, ip@, attempt),
{
    if let Some(mac) = arp::cache_lookup(s.arp(), ip) {
        return Step::Done(Some(mac));
    }
    if attempt >= SHORT_LIMIT {
        return Step::Done(None);
    }
    let request: Vec<u8> = arp::build_request(our_mac(s), our_ip(s), ip);
    let frame: Vec<u8> = ether::build(
        ether::BROADCAST,
        our_mac(s),
        ether::ETHERTYPE_ARP,
        &request,
    );
    Step::Wait(when_due(&frame, attempt, SHORT_PERIOD))
}

/// Step `attempt` of finding the MAC address that frames for `dst` go to: our own for our own
/// address, and otherwise the one resolved.
pub open spec fn hopping(m: StackModel, dst: Seq<u8>, attempt: u32) -> StepView<Seq<u8>> {
    if dst == m.ip {
        StepView::Done(Some(m.mac))
    } else {
        resolving(m, dst, attempt)
    }
}

/// Step `attempt` of finding the MAC address that frames for `dst_ip` go to.
pub fn tcp_next_hop(s: &Stack, dst_ip: [u8; 4], attempt: u32) -> (step: Step<MacAddr>)
    ensures
        mac_step(step) == hopping(s@, dst_ip@, attempt),
{
    if same_ip(dst_ip, our_ip(s)) {
        return Step::Done(Some(our_mac(s)));
    }
    arp_resolve(s, dst_ip, attempt)
}

/// The frame that carries a datagram from us.
pub open spec fn udp_frame(
    m: StackModel,
    mac: Seq<u8>,
    dst_ip: Seq<u8>,
    dst_port: u16,
    src_port: u16,
    payload: Seq<u8>,
) -> Seq<u8> {
    stack::ipv4_frame(
        m,
        mac,
        dst_ip,
        udp::PROTO_UDP,
        udp::datagram_bytes(m.ip, dst_ip, src_port, dst_port, payload),
    )
}

/// Step `attempt` of sending a datagram: once the destination is resolved, the job results in
/// the frame to transmit.
pub open spec fn sending_udp(
    m: StackModel,
    dst_ip: Seq<u8>,
    dst_port: u16,
    src_port: u16,
    payload: Seq<u8>,
    attempt: u32,
) -> StepView<Seq<u8>> {
    match resolving(m, dst_ip, attempt) {
        StepView::Done(Some(mac)) => StepView::Done(
            Some(udp_frame(m, mac, dst_ip, dst_port, src_port, payload)),
        ),
        other => other,
    }
}

/// Step `attempt` of sending a datagram to `dst_ip`.
pub fn udp_send(
    s: &Stack,
    dst_ip: [u8; 4],
    dst_port: u16,
    src_port: u16,
    payload: &[u8],
    attempt: u32,
) -> (step: Step<Vec<u8>>)
    ensures
        frame_step(step) == sending_udp(
            s@,
            dst_ip@,
            dst_port,
            src_port,
            payload@,
            attempt,
        ),
{
    match arp_resolve(s, dst_ip, attempt) {
        Step::Done(Some(mac)) => {
            let datagram: Vec<u8> = udp::build(our_ip(s), dst_ip, src_port, dst_port, payload);
            Step::Done(Some(build_ipv4_frame(s, mac, dst_ip, udp::PROTO_UDP, &datagram)))
        },
        Step::Done(None) => Step::Done(None),
        Step::Wait(frames) => Step::Wait(frames),
    }
}

/// Step `attempt` of transmitting a TCP segment: once the next hop is known, the job results in
/// the frame to transmit.
pub open spec fn transmitting(m: StackModel, segment: Seq<u8>, dst_ip: Seq<u8>, attempt: u32) -> StepView<
    Seq<u8>,
> {
    match hopping(m, dst_ip, attempt) {
        StepView::Done(Some(mac)) => StepView::Done(
            Some(stack::ipv4_frame(m, mac, dst_ip, PROTO_TCP, segment)),
        ),
        other => other,
    }
}

/// Step `attempt` of transmitting a TCP segment to `dst_ip`. It fails if the next hop cannot be
/// resolved.
pub fn tcp_transmit(s: &Stack, segment: &[u8], dst_ip: [u8; 4], attempt: u32) -> (step: Step<
    Vec<u8>,
>)
    ensures
        frame_step(step) == transmitting(s@, segment@, dst_ip@, attempt),
{
    match tcp_next_hop(s, dst_ip, attempt) {
        Step::Done(Some(mac)) => Step::Done(
            Some(build_ipv4_frame(s, mac, dst_ip, PROTO_TCP, segment)),
        ),
        Step::Done(None) => Step::Done(None),
        Step::Wait(frames) => Step::Wait(frames),
    }
}

// Ping.

/// A ping in progress.
pub enum Ping {
    /// The target's MAC address is being resolved.
    Resolving { ip: [u8; 4], attempt: u32 },
    /// The request has been built and its reply is awaited.
    Waiting { seq: u16, frame: Vec<u8>, replies_before: u64, attempt: u32 },
}

/// A ping in progress, over sequences.
pub enum PingView {
    Resolving { ip: Seq<u8>, attempt: u32 },
    Waiting { seq: u16, frame: Seq<u8>, replies_before: u64, attempt: u32 },
}

impl View for Ping {
    type V = PingView;

    open spec fn view(&self) -> PingView {
        match *self {
            Ping::Resolving { ip, attempt } => PingView::Resolving { ip: ip@, attempt },
            Ping::Waiting { seq, frame, replies_before, attempt } => PingView::Waiting {
                seq,
                frame: frame@,
                replies_before,
                attempt,
            },
        }
    }
}

/// The frame of the ping number `seq`.
pub open spec fn ping_frame(m: StackModel, mac: Seq<u8>, ip: Seq<u8>, seq: u16) -> Seq<u8> {
    stack::ipv4_frame(
        m,
        mac,
        ip,
        ipv4::PROTO_ICMP,
        icmp::echo_bytes(
            icmp::TYPE_ECHO_REQUEST,
            PING_ID,
            seq,
            bytes::str_bytes(PING_PAYLOAD),
        ),
    )
}

/// Whether the reply to ping number `seq` has arrived.
pub open spec fn ping_answered(m: StackModel, seq: u16, replies_before: u64) -> bool {
    m.stats.icmp_replies_received > replies_before && m.last_reply == (PING_ID, seq)
}

/// A step of waiting for the reply to a ping.
pub open spec fn awaiting_reply(
    m: StackModel,
    seq: u16,
    frame: Seq<u8>,
    replies_before: u64,
    attempt: u32,
) -> (PingView, StepView<u16>) {
    if ping_answered(m, seq, replies_before) {
        (PingView::Waiting { seq, frame, replies_before, attempt }, StepView::Done(Some(seq)))
    } else if attempt >= SHORT_LIMIT {
        (PingView::Waiting { seq, frame, replies_before, attempt }, StepView::Done(None))
    } else {
        (
            PingView::Waiting { seq, frame, replies_before, attempt: next_attempt(attempt) },
            StepView::Wait(due(frame, attempt, SHORT_PERIOD)),
        )
    }
}

/// A step of a ping.
pub open spec fn pinging(m: StackModel, job: PingView) -> (StackModel, PingView, StepView<u16>) {
    match job {
        PingView::Resolving { ip, attempt } => {
            match resolving(m, ip, attempt) {
                StepView::Done(Some(mac)) => {
                    let seq = ping_number(m);
                    let numbered = StackModel {
                        serials: Serials {
                            ping: m.serials.ping.wrapping_add(1),
                            ..m.serials
                        },
                        ..m
                    };
                    let (next, step) = awaiting_reply(
                        numbered,
                        seq,
                        ping_frame(m, mac, ip, seq),
                        m.stats.icmp_replies_received,
                        0,
                    );
                    (numbered, next, step)
                },
                StepView::Done(None) => (m, job, StepView::Done(None)),
                StepView::Wait(frames) => (
                    m,
                    PingView::Resolving { ip, attempt: next_attempt(attempt) },
                    StepView::Wait(frames),
                ),
            }
        },
        PingView::Waiting { seq, frame, replies_before, attempt } => {
            let (next, step) = awaiting_reply(m, seq, frame, replies_before, attempt);
            (m, next, step)
        },
    }
}

/// Advances a ping: resolves the target, sends an echo request and waits for the reply with our
/// identifier and the request's number, which is the result.
pub fn ping(s: &mut Stack, job: &mut Ping) -> (step: Step<u16>)
    requires
        old(s).ok(),
    ensures
        final(s).ok(),
        (final(s)@, final(job)@, step_view(step)) == pinging(old(s)@, old(job)@),
{
    match job {
        Ping::Resolving { ip, attempt } => {
            let target: [u8; 4] = *ip;
            let tried: u32 = *attempt;
            match arp_resolve(s, target, tried) {
                Step::Done(Some(mac)) => {
                    let replies_before: u64 = stack::icmp_replies_received(s);
                    let ghost before = s@;
                    let seq: u16 = next_ping_seq(s);
                    let message: Vec<u8> = icmp::build_echo_request(
                        PING_ID,
                        seq,
                        PING_PAYLOAD.as_bytes(),
                    );
                    let frame: Vec<u8> = build_ipv4_frame(
                        s,
                        mac,
                        target,
                        ipv4::PROTO_ICMP,
                        &message,
                    );
                    let frames: Vec<Vec<u8>> = when_due(&frame, 0, SHORT_PERIOD);
                    *job = Ping::Waiting { seq, frame, replies_before, attempt: 1 };
                    Step::Wait(frames)
                },
                Step::Done(None) => Step::Done(None),
                Step::Wait(frames) => {
                    *job = Ping::Resolving { ip: target, attempt: tried + 1 };
                    Step::Wait(frames)
                },
            }
        },
        Ping::Waiting { seq, frame, replies_before, attempt } => {
            let last: (u16, u16) = stack::last_reply(s);
            if stack::icmp_replies_received(s) > *replies_before && last.0 == PING_ID && last.1
                == *seq {
                return Step::Done(Some(*seq));
            }
            if *attempt >= SHORT_LIMIT {
                return Step::Done(None);
            }
            let frames: Vec<Vec<u8>> = when_due(frame, *attempt, SHORT_PERIOD);
            *attempt = *attempt + 1;
            Step::Wait(frames)
        },
    }
}

} // verus!
