//! Opening TCP connections, and the self-tests that connect to ourselves.
//!
//! These are jobs as described in [`crate::net::jobs`].

use vstd::prelude::*;

use crate::bytes;
use crate::bytes::same_bytes;
use crate::net::jobs;
use crate::net::jobs::{tcp_next_hop, when_due, Step, StepView, SHORT_LIMIT, SHORT_PERIOD};
use crate::net::stack;
use crate::net::stack::{
    build_ipv4_frame, next_ephemeral_port, our_ip, our_mac, tcp_listen, tcp_open, tcp_reset,
    tcp_send, Serials, Stack, StackModel,
};
use crate::net::tcp;
use crate::net::tcp::model;
use crate::net::tcp::model::{State, TcpModel};

verus! {

/// A connection being opened.
pub enum Connect {
    /// The next hop's MAC address is being resolved.
    Resolving { ip: [u8; 4], port: u16, attempt: u32 },
    /// The SYN has been built and the handshake is awaited.
    Waiting { local_port: u16, port: u16, frame: Vec<u8>, attempt: u32 },
}

/// A connection being opened, over sequences.
pub enum ConnectView {
    Resolving { ip: Seq<u8>, port: u16, attempt: u32 },
    Waiting { local_port: u16, port: u16, frame: Seq<u8>, attempt: u32 },
}

impl View for Connect {
    type V = ConnectView;

    open spec fn view(&self) -> ConnectView {
        match *self {
            Connect::Resolving { ip, port, attempt } => ConnectView::Resolving {
                ip: ip@,
                port,
                attempt,
            },
            Connect::Waiting { local_port, port, frame, attempt } => ConnectView::Waiting {
                local_port,
                port,
                frame: frame@,
                attempt,
            },
        }
    }
}

/// The local port of the next outgoing connection.
pub open spec fn local_port(m: StackModel) -> u16 {
    (49152 + m.serials.ephemeral % 16384) as u16
}

/// The stack after an outgoing connection has been recorded.
pub open spec fn opened(m: StackModel, ip: Seq<u8>, port: u16) -> StackModel {
    StackModel {
        serials: Serials { ephemeral: m.serials.ephemeral.wrapping_add(1), ..m.serials },
        tcp: TcpModel {
            connections: m.tcp.connections.push(
                model::syn_sent(local_port(m), port, ip, m.tcp.next_isn),
            ),
            next_isn: m.tcp.next_isn.wrapping_add(model::ISN_STRIDE),
            ..m.tcp
        },
        ..m
    }
}

/// The frame that carries the SYN of the next outgoing connection.
pub open spec fn syn_frame(m: StackModel, mac: Seq<u8>, ip: Seq<u8>, port: u16) -> Seq<u8> {
    let t = model::syn_sent(local_port(m), port, ip, m.tcp.next_isn);
    stack::ipv4_frame(
        m,
        mac,
        ip,
        tcp::PROTO_TCP,
        tcp::segment::encode(
            m.ip,
            ip,
            model::own_segment(t, t.iss, 0, tcp::SYN, Seq::empty()),
        ),
    )
}

/// Whether the connection with these ports is established.
pub open spec fn is_established(m: StackModel, local_port: u16, port: u16) -> bool {
    tcp::table::connection(m.tcp, local_port, port) matches Some(t) && t.state
        == State::Established
}

/// A step of waiting for the handshake.
pub open spec fn shaking_hands(
    m: StackModel,
    local_port: u16,
    port: u16,
    frame: Seq<u8>,
    attempt: u32,
) -> (ConnectView, StepView<u16>) {
    if is_established(m, local_port, port) {
        (ConnectView::Waiting { local_port, port, frame, attempt }, StepView::Done(Some(local_port)))
    } else if attempt >= SHORT_LIMIT {
        (ConnectView::Waiting { local_port, port, frame, attempt }, StepView::Done(None))
    } else {
        (
            ConnectView::Waiting { local_port, port, frame, attempt: jobs::next_attempt(attempt) },
            StepView::Wait(jobs::due(frame, attempt, SHORT_PERIOD)),
        )
    }
}

/// A step of opening a connection. The SYN goes out as soon as the next hop is known.
pub open spec fn connecting(m: StackModel, job: ConnectView) -> (
    StackModel,
    ConnectView,
    StepView<u16>,
) {
    match job {
        ConnectView::Resolving { ip, port, attempt } => {
            match jobs::hopping(m, ip, attempt) {
                StepView::Done(Some(mac)) => {
                    let frame = syn_frame(m, mac, ip, port);
                    (
                        opened(m, ip, port),
                        ConnectView::Waiting { local_port: local_port(m), port, frame, attempt: 1 },
                        StepView::Wait(seq![frame]),
                    )
                },
                StepView::Done(None) => (m, job, StepView::Done(None)),
                StepView::Wait(frames) => (
                    m,
                    ConnectView::Resolving { ip, port, attempt: jobs::next_attempt(attempt) },
                    StepView::Wait(frames),
                ),
            }
        },
        ConnectView::Waiting { local_port, port, frame, attempt } => {
            let (next, step) = shaking_hands(m, local_port, port, frame, attempt);
            (m, next, step)
        },
    }
}

/// Advances the opening of a connection. It succeeds with the local port once the connection is
/// established.
pub fn tcp_connect(s: &mut Stack, job: &mut Connect) -> (step: Step<u16>)
    requires
        old(s).ok(),
    ensures
        final(s).ok(),
        (final(s)@, final(job)@, jobs::step_view(step)) == connecting(old(s)@, old(job)@),
{
    match job {
        Connect::Resolving { ip, port, attempt } => {
            let target: [u8; 4] = *ip;
            let remote: u16 = *port;
            let tried: u32 = *attempt;
            match tcp_next_hop(s, target, tried) {
                Step::Done(Some(mac)) => {
                    let ghost before = s@;
                    let local: u16 = next_ephemeral_port(s);
                    let syn: Vec<u8> = tcp_open(s, target, local, remote);
                    assert(s@ =~= opened(before, target@, remote));
                    let frame: Vec<u8> = build_ipv4_frame(s, mac, target, tcp::PROTO_TCP, &syn);
                    let frames: Vec<Vec<u8>> = when_due(&frame, 0, SHORT_PERIOD);
                    *job = Connect::Waiting { local_port: local, port: remote, frame, attempt: 1 };
                    Step::Wait(frames)
                },
                Step::Done(None) => Step::Done(None),
                Step::Wait(frames) => {
                    *job = Connect::Resolving { ip: target, port: remote, attempt: tried + 1 };
                    Step::Wait(frames)
                },
            }
        },
        Connect::Waiting { local_port, port, frame, attempt } => {
            if let Some(State::Established) = tcp::connection_state(s.tcp(), *local_port, *port) {
                return Step::Done(Some(*local_port));
            }
            if *attempt >= SHORT_LIMIT {
                return Step::Done(None);
            }
            let frames: Vec<Vec<u8>> = when_due(frame, *attempt, SHORT_PERIOD);
            *attempt = *attempt + 1;
            Step::Wait(frames)
        },
    }
}

/// A connection is opened to the address and port asked for, and to no other: the one entry added
/// to the table and the SYN that goes out are for them, and success comes only once a connection
/// to that port is established.
pub proof fn connection_is_to_the_destination(m: StackModel, job: ConnectView)
    ensures
        ({
            let (after, next, step) = connecting(m, job);
            match (job, next) {
                (
                    ConnectView::Resolving { ip, port, .. },
                    ConnectView::Resolving { ip: ip2, port: port2, .. },
                ) => {
                    &&& after == m && ip2 == ip && port2 == port
                    &&& step matches StepView::Done(opened) ==> opened is None
                },
                (
                    ConnectView::Resolving { ip, port, .. },
                    ConnectView::Waiting { local_port: local, port: port2, frame, .. },
                ) => {
                    let t = after.tcp.connections.last();
                    &&& after.tcp.connections == m.tcp.connections.push(t)
                    &&& t.remote_ip == ip && t.remote_port == port && t.local_port == local
                    &&& t.state == State::SynSent
                    &&& port2 == port
                    &&& step is Wait && step->Wait_0 == seq![frame]
                },
                (
                    ConnectView::Waiting { local_port: local, port, .. },
                    ConnectView::Waiting { local_port: local2, port: port2, .. },
                ) => {
                    &&& after == m && local2 == local && port2 == port
                    &&& step matches StepView::Done(Some(opened)) ==> opened == local
                        && is_established(m, local, port)
                },
                _ => false,
            }
        }),
{
}

// Self-tests over the card's loopback.

/// The port of the handshake self-test.
pub const HANDSHAKE_TEST_PORT: u16 = 7777;

/// The port of the data self-test.
pub const DATA_TEST_PORT: u16 = 7778;

/// What the data self-test sends.
pub const DATA_TEST_PAYLOAD: &'static str = "hello from aether tcp 21c";

/// How many steps both ends get to become established.
pub const SETTLE_LIMIT: u32 = 200;

/// How many steps the data gets to arrive and be acknowledged.
pub const DATA_LIMIT: u32 = 400;

/// The stack with no connection but a listener on `port`.
pub open spec fn only_listening(m: StackModel, port: u16) -> StackModel {
    StackModel {
        tcp: TcpModel { connections: seq![model::listener(port)], ..m.tcp },
        ..m
    }
}

/// Drops every connection, listens on `port` and starts to connect to it.
fn connect_to_self(s: &mut Stack, port: u16) -> (job: Connect)
    ensures
        final(s).ok(),
        final(s)@ == only_listening(old(s)@, port),
        job@ == (ConnectView::Resolving { ip: old(s)@.ip, port, attempt: 0 }),
{
    let ghost before = s@;
    tcp_reset(s);
    tcp_listen(s, port);
    assert(s@.tcp.connections =~= seq![model::listener(port)]);
    assert(s@ =~= only_listening(before, port));
    Connect::Resolving { ip: our_ip(s), port, attempt: 0 }
}

/// How many connections are established.
pub open spec fn established(m: StackModel) -> nat {
    tcp::table::established_among(m.tcp.connections, m.tcp.connections.len() as int)
}

/// The handshake self-test in progress.
pub enum HandshakeTest {
    Connecting(Connect),
    Settling { connected: bool, attempt: u32 },
}

/// The handshake self-test in progress, over sequences.
pub enum HandshakeTestView {
    Connecting(ConnectView),
    Settling { connected: bool, attempt: u32 },
}

impl View for HandshakeTest {
    type V = HandshakeTestView;

    open spec fn view(&self) -> HandshakeTestView {
        match *self {
            HandshakeTest::Connecting(c) => HandshakeTestView::Connecting(c@),
            HandshakeTest::Settling { connected, attempt } => HandshakeTestView::Settling {
                connected,
                attempt,
            },
        }
    }
}

/// A step of waiting until both ends are established. The test passes if the connection was
/// opened and both are.
pub open spec fn settling(m: StackModel, connected: bool, attempt: u32) -> (
    HandshakeTestView,
    StepView<()>,
) {
    let now = HandshakeTestView::Settling { connected, attempt };
    if established(m) >= 2 {
        (now, StepView::Done(if connected {
            Some(())
        } else {
            None
        }))
    } else if attempt >= SETTLE_LIMIT {
        (now, StepView::Done(None))
    } else {
        (
            HandshakeTestView::Settling { connected, attempt: jobs::next_attempt(attempt) },
            StepView::Wait(jobs::nothing()),
        )
    }
}

/// A step of the handshake self-test.
pub open spec fn testing_handshake(m: StackModel, job: HandshakeTestView) -> (
    StackModel,
    HandshakeTestView,
    StepView<()>,
) {
    match job {
        HandshakeTestView::Connecting(c) => {
            let (next, c2, step) = connecting(m, c);
            match step {
                StepView::Done(port) => {
                    let (job2, step2) = settling(next, port is Some, 0);
                    (next, job2, step2)
                },
                StepView::Wait(frames) => (
                    next,
                    HandshakeTestView::Connecting(c2),
                    StepView::Wait(frames),
                ),
            }
        },
        HandshakeTestView::Settling { connected, attempt } => {
            let (job2, step2) = settling(m, connected, attempt);
            (m, job2, step2)
        },
    }
}

/// Starts the handshake self-test, on a stack with no other connection.
pub fn begin_tcp_handshake_selftest(s: &mut Stack) -> (job: HandshakeTest)
    ensures
        final(s).ok(),
        final(s)@ == only_listening(old(s)@, HANDSHAKE_TEST_PORT),
        job@ == HandshakeTestView::Connecting(
            ConnectView::Resolving { ip: old(s)@.ip, port: HANDSHAKE_TEST_PORT, attempt: 0 },
        ),
{
    HandshakeTest::Connecting(connect_to_self(s, HANDSHAKE_TEST_PORT))
}

/// A step of waiting until both ends are established.
fn settle(s: &Stack, connected: bool, attempt: u32) -> (out: (HandshakeTest, Step<()>))
    ensures
        (out.0@, jobs::step_view(out.1)) == settling(s@, connected, attempt),
{
    if tcp::established_count(s.tcp()) >= 2 {
        let passed: Option<()> = if connected {
            Some(())
        } else {
            None
        };
        return (HandshakeTest::Settling { connected, attempt }, Step::Done(passed));
    }
    if attempt >= SETTLE_LIMIT {
        return (HandshakeTest::Settling { connected, attempt }, Step::Done(None));
    }
    (HandshakeTest::Settling { connected, attempt: attempt + 1 }, Step::Wait(jobs::none()))
}

/// Advances the handshake self-test: we connect to a listener of our own over the loopback, and
/// both ends must become established.
pub fn tcp_handshake_loopback_selftest(s: &mut Stack, job: &mut HandshakeTest) -> (step: Step<()>)
    requires
        old(s).ok(),
    ensures
        final(s).ok(),
        (final(s)@, final(job)@, jobs::step_view(step)) == testing_handshake(old(s)@, old(job)@),
{
    match job {
        HandshakeTest::Connecting(c) => {
            match tcp_connect(s, c) {
                Step::Done(port) => {
                    let (next, step) = settle(s, port.is_some(), 0);
                    *job = next;
                    step
                },
                Step::Wait(frames) => Step::Wait(frames),
            }
        },
        HandshakeTest::Settling { connected, attempt } => {
            let (next, step) = settle(s, *connected, *attempt);
            *job = next;
            step
        },
    }
}

/// The data self-test in progress.
pub enum DataTest {
    Connecting(Connect),
    Settling { port: u16, attempt: u32 },
    Waiting { port: u16, attempt: u32 },
}

/// The data self-test in progress, over sequences.
pub enum DataTestView {
    Connecting(ConnectView),
    Settling { port: u16, attempt: u32 },
    Waiting { port: u16, attempt: u32 },
}

impl View for DataTest {
    type V = DataTestView;

    open spec fn view(&self) -> DataTestView {
        match *self {
            DataTest::Connecting(c) => DataTestView::Connecting(c@),
            DataTest::Settling { port, attempt } => DataTestView::Settling { port, attempt },
            DataTest::Waiting { port, attempt } => DataTestView::Waiting { port, attempt },
        }
    }
}

/// The frames that carry segments of ours back to ourselves.
pub open spec fn own_frames(m: StackModel, out: Seq<(Seq<u8>, Seq<u8>)>) -> Seq<Seq<u8>> {
    Seq::new(
        out.len(),
        |i: int| stack::ipv4_frame(m, m.mac, out[i].1, tcp::PROTO_TCP, out[i].0),
    )
}

/// What sending `data` does: the stack afterwards and the segments with their addresses. Nothing
/// happens without an established connection with these ports.
pub open spec fn data_sent(m: StackModel, local_port: u16, port: u16, data: Seq<u8>, now: u64) -> (
    StackModel,
    Seq<(Seq<u8>, Seq<u8>)>,
) {
    match model::find(m.tcp.connections, model::established_on(local_port, port)) {
        Some(i) => {
            let t = m.tcp.connections[i];
            let queued = m.tcp.connections.update(
                i,
                model::TcbModel { snd_buf: t.snd_buf + data, ..t },
            );
            let out = model::flush_output(queued, m.ip, now, queued.len() as int);
            (
                StackModel {
                    tcp: TcpModel {
                        connections: model::flush_table(queued, m.ip, now),
                        counters: tcp::table::sent_counted(m.tcp.counters, out.len()),
                        ..m.tcp
                    },
                    ..m
                },
                out,
            )
        },
        None => (m, Seq::empty()),
    }
}

/// Whether the listener's end has received exactly `data` and the other end has seen all of it
/// acknowledged.
pub open spec fn data_arrived(m: StackModel, local_port: u16, data: Seq<u8>) -> bool {
    &&& tcp::table::connection(m.tcp, DATA_TEST_PORT, local_port) matches Some(t) && t.rx == data
    &&& tcp::table::connection(m.tcp, local_port, DATA_TEST_PORT) matches Some(t) && t.snd_una
        == t.snd_nxt && t.snd_buf.len() == 0
}

/// A step of waiting until both ends are established, after which the data is sent.
pub open spec fn settling_for_data(m: StackModel, port: u16, attempt: u32, now: u64) -> (
    StackModel,
    DataTestView,
    StepView<()>,
) {
    if established(m) >= 2 || attempt >= SETTLE_LIMIT {
        let (next, out) = data_sent(
            m,
            port,
            DATA_TEST_PORT,
            bytes::str_bytes(DATA_TEST_PAYLOAD),
            now,
        );
        (next, DataTestView::Waiting { port, attempt: 1 }, StepView::Wait(own_frames(next, out)))
    } else {
        (
            m,
            DataTestView::Settling { port, attempt: jobs::next_attempt(attempt) },
            StepView::Wait(jobs::nothing()),
        )
    }
}

/// A step of the data self-test.
pub open spec fn testing_data(m: StackModel, job: DataTestView, now: u64) -> (
    StackModel,
    DataTestView,
    StepView<()>,
) {
    match job {
        DataTestView::Connecting(c) => {
            let (next, c2, step) = connecting(m, c);
            match step {
                StepView::Done(Some(port)) => settling_for_data(next, port, 0, now),
                StepView::Done(None) => (next, DataTestView::Connecting(c2), StepView::Done(None)),
                StepView::Wait(frames) => (
                    next,
                    DataTestView::Connecting(c2),
                    StepView::Wait(frames),
                ),
            }
        },
        DataTestView::Settling { port, attempt } => settling_for_data(m, port, attempt, now),
        DataTestView::Waiting { port, attempt } => if data_arrived(
            m,
            port,
            bytes::str_bytes(DATA_TEST_PAYLOAD),
        ) {
            (m, job, StepView::Done(Some(())))
        } else if attempt >= DATA_LIMIT {
            (m, job, StepView::Done(None))
        } else {
            (
                m,
                DataTestView::Waiting { port, attempt: jobs::next_attempt(attempt) },
                StepView::Wait(jobs::nothing()),
            )
        },
    }
}

/// Starts the data self-test, on a stack with no other connection.
pub fn begin_tcp_data_selftest(s: &mut Stack) -> (job: DataTest)
    ensures
        final(s).ok(),
        final(s)@ == only_listening(old(s)@, DATA_TEST_PORT),
        job@ == DataTestView::Connecting(
            ConnectView::Resolving { ip: old(s)@.ip, port: DATA_TEST_PORT, attempt: 0 },
        ),
{
    DataTest::Connecting(connect_to_self(s, DATA_TEST_PORT))
}

/// Builds the frames that carry segments of ours back to ourselves.
fn frames_to_self(s: &Stack, out: &Vec<(Vec<u8>, [u8; 4])>) -> (frames: Vec<Vec<u8>>)
    ensures
        stack::frames_view(frames@) == own_frames(s@, tcp::table::outgoing_views(out@)),
{
    let mut frames: Vec<Vec<u8>> = Vec::new();
    let ghost want = own_frames(s@, tcp::table::outgoing_views(out@));
    let mut i: usize = 0;
    while i < out.len()
        invariant
            i <= out@.len(),
            want == own_frames(s@, tcp::table::outgoing_views(out@)),
            stack::frames_view(frames@) =~= want.take(i as int),
        decreases out@.len() - i,
    {
        assert(tcp::table::outgoing_views(out@)[i as int] == (
            out@[i as int].0@,
            out@[i as int].1@,
        ));
        let frame: Vec<u8> = build_ipv4_frame(
            s,
            our_mac(s),
            out[i].1,
            tcp::PROTO_TCP,
            &out[i].0,
        );
        let ghost before = stack::frames_view(frames@);
        let ghost view = frame@;
        frames.push(frame);
        assert(stack::frames_view(frames@) =~= before.push(view));
        i = i + 1;
    }
    assert(want.take(i as int) =~= want);
    frames
}

/// A step of waiting until both ends are established.
fn settle_for_data(s: &mut Stack, port: u16, attempt: u32, now: u64) -> (out: (DataTest, Step<()>))
    requires
        old(s).ok(),
        model::clock_ok(now),
    ensures
        final(s).ok(),
        (final(s)@, out.0@, jobs::step_view(out.1)) == settling_for_data(
            old(s)@,
            port,
            attempt,
            now,
        ),
{
    if tcp::established_count(s.tcp()) >= 2 || attempt >= SETTLE_LIMIT {
        let sent: Option<Vec<(Vec<u8>, [u8; 4])>> = tcp_send(
            s,
            port,
            DATA_TEST_PORT,
            DATA_TEST_PAYLOAD.as_bytes(),
            now,
        );
        let out: Vec<(Vec<u8>, [u8; 4])> = match sent {
            Some(out) => out,
            None => Vec::new(),
        };
        assert(tcp::table::outgoing_views(out@) =~= data_sent(
            old(s)@,
            port,
            DATA_TEST_PORT,
            bytes::str_bytes(DATA_TEST_PAYLOAD),
            now,
        ).1);
        assert(tcp::table::outgoing_views(out@).len() == out@.len());
        let frames: Vec<Vec<u8>> = frames_to_self(s, &out);
        return (DataTest::Waiting { port, attempt: 1 }, Step::Wait(frames));
    }
    (DataTest::Settling { port, attempt: attempt + 1 }, Step::Wait(jobs::none()))
}

/// Whether the listener's end has received exactly `data`, all of it acknowledged.
fn has_arrived(s: &Stack, port: u16, data: &[u8]) -> (arrived: bool)
    ensures
        arrived == data_arrived(s@, port, data@),
{
    let received: bool = match tcp::received_data(s.tcp(), DATA_TEST_PORT, port) {
        Some(d) => same_bytes(&d, data),
        None => false,
    };
    let acked: bool = match tcp::all_data_acked(s.tcp(), port, DATA_TEST_PORT) {
        Some(a) => a,
        None => false,
    };
    received && acked
}

/// Advances the data self-test: over the loopback we connect to a listener of our own and send
/// it data, which must arrive in order and be acknowledged.
pub fn tcp_data_loopback_selftest(s: &mut Stack, job: &mut DataTest, now: u64) -> (step: Step<()>)
    requires
        old(s).ok(),
        model::clock_ok(now),
    ensures
        final(s).ok(),
        (final(s)@, final(job)@, jobs::step_view(step)) == testing_data(old(s)@, old(job)@, now),
{
    match job {
        DataTest::Connecting(c) => {
            match tcp_connect(s, c) {
                Step::Done(Some(port)) => {
                    let (next, step) = settle_for_data(s, port, 0, now);
                    *job = next;
                    step
                },
                Step::Done(None) => Step::Done(None),
                Step::Wait(frames) => Step::Wait(frames),
            }
        },
        DataTest::Settling { port, attempt } => {
            let (next, step) = settle_for_data(s, *port, *attempt, now);
            *job = next;
            step
        },
        DataTest::Waiting { port, attempt } => {
            if has_arrived(s, *port, DATA_TEST_PAYLOAD.as_bytes()) {
                return Step::Done(Some(()));
            }
            if *attempt >= DATA_LIMIT {
                return Step::Done(None);
            }
            *attempt = *attempt + 1;
            Step::Wait(jobs::none())
        },
    }
}

} // verus!
