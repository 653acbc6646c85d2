//! Self-tests of the stack that need no peer: frames that we send to ourselves over the card's
//! loopback.
//!
//! These are jobs as described in [`crate::net::jobs`], except that the frame is repeated in
//! every step and the card is polled twice, so that an answer of ours can come back too.

use vstd::prelude::*;

use crate::bytes;
use crate::bytes::{same_bytes, to_vec};
use crate::net::ether;
use crate::net::icmp;
use crate::net::ipv4;
use crate::net::jobs;
use crate::net::jobs::{Step, StepView, PING_ID};
use crate::net::stack;
use crate::net::stack::{build_ipv4_frame, our_ip, our_mac, Stack, StackModel, UDP_ECHO_PORT};
use crate::net::udp;

verus! {

/// How many times a self-test sends its frame.
pub const SELFTEST_LIMIT: u32 = 1000;

/// What the framing self-test sends.
pub const FRAMING_PAYLOAD: &'static str = "aether net 18a ethernet framing test";

/// What the ping self-test sends.
pub const PING_TEST_PAYLOAD: &'static str = "aether icmp loopback selftest";

/// The number of the self-test's ping.
pub const PING_TEST_SEQ: u16 = 0xFFFF;

/// What the UDP self-test sends.
pub const UDP_TEST_PAYLOAD: &'static str = "aether udp echo loopback selftest";

/// The port that the UDP self-test sends from.
pub const UDP_TEST_PORT: u16 = 40000;

/// Which self-test is run, with what its counters stood at when it began.
pub enum Trial {
    Framing { arp_seen: u64 },
    Ping { handled: u64, replies: u64 },
    UdpEcho { echoes: u64, delivered: u64 },
}

/// A self-test in progress.
pub struct LoopbackTest {
    pub trial: Trial,
    pub frame: Vec<u8>,
    pub attempt: u32,
}

/// A self-test in progress, over sequences.
#[verifier::ext_equal]
pub struct LoopbackTestView {
    pub trial: Trial,
    pub frame: Seq<u8>,
    pub attempt: u32,
}

impl View for LoopbackTest {
    type V = LoopbackTestView;

    open spec fn view(&self) -> LoopbackTestView {
        LoopbackTestView { trial: self.trial, frame: self.frame@, attempt: self.attempt }
    }
}

/// Whether a self-test has passed: the frame, and where one is owed the answer to it, came back.
pub open spec fn passed(m: StackModel, trial: Trial) -> bool {
    match trial {
        Trial::Framing { arp_seen } => m.stats.arp_seen > arp_seen && m.last_src == m.mac,
        Trial::Ping { handled, replies } => m.stats.icmp_requests_handled > handled
            && m.stats.icmp_replies_received > replies,
        Trial::UdpEcho { echoes, delivered } => m.stats.udp_echoes_sent > echoes
            && m.stats.udp_delivered > delivered && m.last_udp == bytes::str_bytes(
            UDP_TEST_PAYLOAD,
        ),
    }
}

/// A step of a self-test.
pub open spec fn testing(m: StackModel, job: LoopbackTestView) -> (LoopbackTestView, StepView<()>) {
    if job.attempt > 0 && passed(m, job.trial) {
        (job, StepView::Done(Some(())))
    } else if job.attempt >= SELFTEST_LIMIT {
        (job, StepView::Done(None))
    } else {
        (
            LoopbackTestView { attempt: jobs::next_attempt(job.attempt), ..job },
            StepView::Wait(seq![job.frame]),
        )
    }
}

/// Whether a self-test has passed.
fn has_passed(s: &Stack, trial: &Trial) -> (yes: bool)
    ensures
        yes == passed(s@, *trial),
{
    match trial {
        Trial::Framing { arp_seen } => stack::arp_seen(s) > *arp_seen && same_bytes(
            &stack::last_src(s),
            &our_mac(s),
        ),
        Trial::Ping { handled, replies } => stack::icmp_requests_handled(s) > *handled
            && stack::icmp_replies_received(s) > *replies,
        Trial::UdpEcho { echoes, delivered } => stack::udp_echoes_sent(s) > *echoes
            && stack::udp_delivered(s) > *delivered && same_bytes(
            &stack::last_udp(s),
            UDP_TEST_PAYLOAD.as_bytes(),
        ),
    }
}

/// Advances a self-test.
pub fn run_selftest(s: &Stack, job: &mut LoopbackTest) -> (step: Step<()>)
    ensures
        (final(job)@, jobs::step_view(step)) == testing(s@, old(job)@),
{
    if job.attempt > 0 && has_passed(s, &job.trial) {
        return Step::Done(Some(()));
    }
    if job.attempt >= SELFTEST_LIMIT {
        return Step::Done(None);
    }
    job.attempt = job.attempt + 1;
    Step::Wait(jobs::one(to_vec(&job.frame)))
}

/// Starts the framing self-test: a frame to ourselves must come back and be classified.
pub fn loopback_selftest(s: &Stack) -> (job: LoopbackTest)
    ensures
        job@ == (LoopbackTestView {
            trial: Trial::Framing { arp_seen: s@.stats.arp_seen },
            frame: ether::frame_bytes(
                s@.mac,
                s@.mac,
                ether::ETHERTYPE_ARP,
                bytes::str_bytes(FRAMING_PAYLOAD),
            ),
            attempt: 0,
        }),
{
    let mac: [u8; 6] = our_mac(s);
    LoopbackTest {
        trial: Trial::Framing { arp_seen: stack::arp_seen(s) },
        frame: ether::build(mac, mac, ether::ETHERTYPE_ARP, FRAMING_PAYLOAD.as_bytes()),
        attempt: 0,
    }
}

/// Starts the ping self-test: we ping ourselves, and both our answer and its receipt must be
/// counted.
pub fn ping_loopback_selftest(s: &Stack) -> (job: LoopbackTest)
    ensures
        job@ == (LoopbackTestView {
            trial: Trial::Ping {
                handled: s@.stats.icmp_requests_handled,
                replies: s@.stats.icmp_replies_received,
            },
            frame: stack::ipv4_frame(
                s@,
                s@.mac,
                s@.ip,
                ipv4::PROTO_ICMP,
                icmp::echo_bytes(
                    icmp::TYPE_ECHO_REQUEST,
                    PING_ID,
                    PING_TEST_SEQ,
                    bytes::str_bytes(PING_TEST_PAYLOAD),
                ),
            ),
            attempt: 0,
        }),
{
    let message: Vec<u8> = icmp::build_echo_request(
        PING_ID,
        PING_TEST_SEQ,
        PING_TEST_PAYLOAD.as_bytes(),
    );
    LoopbackTest {
        trial: Trial::Ping {
            handled: stack::icmp_requests_handled(s),
            replies: stack::icmp_replies_received(s),
        },
        frame: build_ipv4_frame(s, our_mac(s), our_ip(s), ipv4::PROTO_ICMP, &message),
        attempt: 0,
    }
}

/// Starts the UDP self-test: our echo server answers a datagram of ours, and the echo must be
/// delivered with its payload intact.
pub fn udp_echo_loopback_selftest(s: &Stack) -> (job: LoopbackTest)
    ensures
        job@ == (LoopbackTestView {
            trial: Trial::UdpEcho {
                echoes: s@.stats.udp_echoes_sent,
                delivered: s@.stats.udp_delivered,
            },
            frame: stack::ipv4_frame(
                s@,
                s@.mac,
                s@.ip,
                udp::PROTO_UDP,
                udp::datagram_bytes(
                    s@.ip,
                    s@.ip,
                    UDP_TEST_PORT,
                    UDP_ECHO_PORT,
                    bytes::str_bytes(UDP_TEST_PAYLOAD),
                ),
            ),
            attempt: 0,
        }),
{
    let datagram: Vec<u8> = udp::build(
        our_ip(s),
        our_ip(s),
        UDP_TEST_PORT,
        UDP_ECHO_PORT,
        UDP_TEST_PAYLOAD.as_bytes(),
    );
    LoopbackTest {
        trial: Trial::UdpEcho {
            echoes: stack::udp_echoes_sent(s),
            delivered: stack::udp_delivered(s),
        },
        frame: build_ipv4_frame(s, our_mac(s), our_ip(s), udp::PROTO_UDP, &datagram),
        attempt: 0,
    }
}

} // verus!
