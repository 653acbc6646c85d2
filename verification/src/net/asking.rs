//! How the jobs that wait for others go about it: what they send, how often, and when they end.

use vstd::prelude::*;

use crate::bytes;
use crate::net::arp;
use crate::net::connect;
use crate::net::connect::ConnectView;
use crate::net::dns;
use crate::net::icmp;
use crate::net::jobs;
use crate::net::jobs::{PingView, StepView};
use crate::net::laws::addressed;
use crate::net::lookup;
use crate::net::lookup::DnsQueryView;
use crate::net::stack;
use crate::net::stack::StackModel;
use crate::net::tcp;
use crate::net::tcp::model;
use crate::net::tcp::model::{State, TcbModel};
use crate::net::wire;

verus! {

/// A known address is resolved at once. For an unknown one a request goes out every 200 steps,
/// and after 2000 steps it is given up.
pub proof fn address_is_asked_for(m: StackModel, ip: Seq<u8>, attempt: u32)
    ensures
        ({
            let step = jobs::resolving(m, ip, attempt);
            &&& arp::cached(m.arp, ip) matches Some(mac) ==> step == StepView::Done(Some(mac))
            &&& arp::cached(m.arp, ip) is None && attempt >= 2000 ==> step == StepView::<
                Seq<u8>,
            >::Done(None)
            &&& arp::cached(m.arp, ip) is None && attempt < 2000 && attempt % 200 == 0 ==> step
                == StepView::<Seq<u8>>::Wait(seq![jobs::request_frame(m, ip)])
            &&& arp::cached(m.arp, ip) is None && attempt < 2000 && attempt % 200 != 0 ==> step
                == StepView::<Seq<u8>>::Wait(Seq::empty())
        }),
{
}

/// A frame for our own address goes to our own card, and nobody is asked; any other goes to
/// where the address is.
pub proof fn own_address_needs_no_asking(m: StackModel, ip: Seq<u8>, attempt: u32)
    ensures
        jobs::hopping(m, m.ip, attempt) == StepView::Done(Some(m.mac)),
        ip != m.ip ==> jobs::hopping(m, ip, attempt) == jobs::resolving(m, ip, attempt),
{
}

/// Whether a step ends with a frame of ours to `mac` that carries this datagram.
pub open spec fn carries_datagram(
    m: StackModel,
    step: StepView<Seq<u8>>,
    mac: Seq<u8>,
    dst: Seq<u8>,
    from: int,
    to: int,
    data: Seq<u8>,
) -> bool {
    &&& step is Done
    &&& step->Done_0 is Some
    &&& exists|e: Seq<u8>| #[trigger]
        wire::is_own_packet(m, step->Done_0.unwrap(), mac, 17, dst, e) && wire::is_datagram(
            e,
            from,
            to,
            data,
        )
}

proof fn lemma_carries(
    m: StackModel,
    step: StepView<Seq<u8>>,
    f: Seq<u8>,
    mac: Seq<u8>,
    dst: Seq<u8>,
    from: u16,
    to: u16,
    data: Seq<u8>,
)
    requires
        step == StepView::Done(Some(f)),
        f == jobs::udp_frame(m, mac, dst, to, from, data),
        addressed(m),
        mac.len() == 6,
        dst.len() == 4,
        28 + data.len() <= 0xFFFF,
    ensures
        carries_datagram(m, step, mac, dst, from as int, to as int, data),
{
    wire::own_datagrams_are_laid_out(m, mac, dst, to, from, data);
    let e = choose|e: Seq<u8>| #[trigger]
        wire::is_own_packet(m, f, mac, 17, dst, e) && wire::is_datagram(
            e,
            from as int,
            to as int,
            data,
        );
    assert(wire::is_own_packet(m, f, mac, 17, dst, e));
    assert(wire::is_datagram(e, from as int, to as int, data));
    assert(wire::is_own_packet(m, step->Done_0.unwrap(), mac, 17, dst, e));
}

/// A datagram, or a segment, is ready once its destination is known: a frame to there that
/// carries it. Until then the address is asked for.
pub proof fn datagram_goes_where_it_should(
    m: StackModel,
    dst: Seq<u8>,
    to: u16,
    from: u16,
    data: Seq<u8>,
    segment: Seq<u8>,
    attempt: u32,
    mac: Seq<u8>,
)
    requires
        addressed(m),
        mac.len() == 6,
        dst.len() == 4,
        28 + data.len() <= 0xFFFF,
        20 + segment.len() <= 0xFFFF,
    ensures
        arp::cached(m.arp, dst) == Some(mac) ==> carries_datagram(
            m,
            jobs::sending_udp(m, dst, to, from, data, attempt),
            mac,
            dst,
            from as int,
            to as int,
            data,
        ),
        arp::cached(m.arp, dst) == Some(mac) && dst != m.ip ==> {
            &&& jobs::transmitting(m, segment, dst, attempt) matches StepView::Done(Some(f))
            &&& wire::is_own_packet(m, f, mac, 6, dst, segment)
        },
        jobs::transmitting(m, segment, m.ip, attempt) matches StepView::Done(Some(f))
            && wire::is_own_packet(m, f, m.mac, 6, m.ip, segment),
        arp::cached(m.arp, dst) is None ==> jobs::sending_udp(m, dst, to, from, data, attempt)
            == jobs::resolving(m, dst, attempt),
        arp::cached(m.arp, dst) is None && dst != m.ip ==> jobs::transmitting(
            m,
            segment,
            dst,
            attempt,
        ) == jobs::resolving(m, dst, attempt),
{
    wire::own_datagrams_are_laid_out(m, mac, dst, to, from, data);
    wire::own_packets_are_laid_out(m, mac, 6, dst, segment);
    wire::own_packets_are_laid_out(m, m.mac, 6, m.ip, segment);
    if arp::cached(m.arp, dst) == Some(mac) {
        let f = jobs::udp_frame(m, mac, dst, to, from, data);
        let step = jobs::sending_udp(m, dst, to, from, data, attempt);
        assert(step == StepView::Done(Some(f)));
        assert(step->Done_0.unwrap() == f);
        lemma_carries(m, step, f, mac, dst, from, to, data);
    }
}

/// A ping whose target is known sends its first request at once, under the next number: an echo
/// request with our identifier and the text that we ping with.
pub proof fn ping_sends_an_echo_request(
    m: StackModel,
    ip: Seq<u8>,
    attempt: u32,
    mac: Seq<u8>,
    text: Seq<u8>,
)
    requires
        addressed(m),
        ip.len() == 4,
        mac.len() == 6,
        arp::cached(m.arp, ip) == Some(mac),
        text == bytes::str_bytes(jobs::PING_PAYLOAD),
        text.len() <= 1000,
    ensures
        ({
            let number = (m.serials.ping + 1) % 0x1_0000;
            let (after, next, step) = jobs::pinging(m, PingView::Resolving { ip, attempt });
            &&& after.serials.ping == m.serials.ping.wrapping_add(1)
            &&& after.stats == m.stats && after.arp == m.arp && after.ip == m.ip
            &&& next matches PingView::Waiting { seq, frame, replies_before, attempt }
            &&& seq == number && attempt == 1 && replies_before == m.stats.icmp_replies_received
            &&& step == StepView::<u16>::Wait(seq![frame])
            &&& exists|request: Seq<u8>| #[trigger]
                wire::is_own_packet(m, frame, mac, 1, ip, request) && request[0] == 8
                    && wire::number2(request, 4) == 0xAE71 && wire::number2(request, 6) == number
                    && request.skip(8) == text && wire::is_intact(request)
        }),
{
    let number = jobs::ping_number(m);
    let request = icmp::echo_bytes(8, 0xAE71, number, text);
    icmp::echo_round_trip(8, 0xAE71, number, text);
    wire::own_packets_are_laid_out(m, mac, 1, ip, request);
    wire::lemma_intact(request);
    assert(jobs::ping_frame(m, mac, ip, number) == stack::ipv4_frame(m, mac, ip, 1, request));
    assert(0u32 % 200u32 == 0);
    let frame = jobs::ping_frame(m, mac, ip, number);
    assert(wire::is_own_packet(m, frame, mac, 1, ip, request));
    assert(wire::number2(request, 4) == 0xAE71 && wire::number2(request, 6) == number);
}

/// A ping ends with its number as soon as a further reply has come that bears our identifier and
/// the number. Until then its request is sent again every 200 steps, and after 2000 it fails.
pub proof fn ping_waits_for_its_reply(
    m: StackModel,
    seq: u16,
    frame: Seq<u8>,
    before: u64,
    attempt: u32,
)
    ensures
        ({
            let job = PingView::Waiting { seq, frame, replies_before: before, attempt };
            let (after, next, step) = jobs::pinging(m, job);
            let answered = m.stats.icmp_replies_received > before && m.last_reply.0 == 0xAE71
                && m.last_reply.1 == seq;
            &&& after == m
            &&& answered ==> step == StepView::<u16>::Done(Some(seq))
            &&& !answered && attempt >= 2000 ==> step == StepView::<u16>::Done(None)
            &&& !answered && attempt < 2000 ==> {
                &&& next matches PingView::Waiting {
                    seq: s2,
                    frame: f2,
                    replies_before: b2,
                    attempt: a2,
                }
                &&& s2 == seq && f2 == frame && b2 == before && a2 == attempt + 1
            }
            &&& !answered && attempt < 2000 && attempt % 200 == 0 ==> step == StepView::<u16>::Wait(
                seq![frame],
            )
            &&& !answered && attempt < 2000 && attempt % 200 != 0 ==> step == StepView::<u16>::Wait(
                Seq::empty(),
            )
        }),
{
}

/// A lookup succeeds with the address that a new datagram gives for its id. A datagram that was
/// there before, or gives none, does not end it.
pub proof fn lookup_takes_the_answer(m: StackModel, job: DnsQueryView)
    requires
        job.resolving is None,
        m.stats.udp_delivered != job.seen,
        dns::response_address(m.last_udp, job.id) is Some,
    ensures
        lookup::looking_up(m, job).1 == StepView::Done(dns::response_address(m.last_udp, job.id)),
{
}

/// Until the answer comes, the query goes to the DNS server every 300 steps: to port 53 of
/// 10.0.2.3, from port 50000. Between these steps nothing is sent, and after 3000 steps the
/// lookup fails.
pub proof fn lookup_asks_again(
    m: StackModel,
    job: DnsQueryView,
    mac: Seq<u8>,
    server: Seq<u8>,
)
    requires
        addressed(m),
        server == seq![10u8, 0u8, 2u8, 3u8],
        mac.len() == 6,
        28 + job.query.len() <= 0xFFFF,
        job.resolving is None,
        m.stats.udp_delivered == job.seen || dns::response_address(m.last_udp, job.id) is None,
        arp::cached(m.arp, server) == Some(mac),
    ensures
        ({
            let (next, step) = lookup::looking_up(m, job);
            &&& next.id == job.id && next.query == job.query && next.resolving is None
            &&& next.seen == m.stats.udp_delivered
            &&& job.attempt >= 3000 ==> step == StepView::<Seq<u8>>::Done(None)
            &&& job.attempt < 3000 ==> next.attempt == job.attempt + 1
            &&& job.attempt < 3000 && job.attempt % 300 != 0 ==> step == StepView::<Seq<u8>>::Wait(
                Seq::empty(),
            )
            &&& job.attempt < 3000 && job.attempt % 300 == 0 ==> {
                &&& step is Wait && step->Wait_0.len() == 1
                &&& exists|e: Seq<u8>| #[trigger]
                    wire::is_own_packet(m, step->Wait_0[0], mac, 17, server, e)
                        && wire::is_datagram(e, 50000, 53, job.query)
            }
        }),
{
    assert(stack::DNS_SERVER@ =~= server);
    wire::own_datagrams_are_laid_out(m, mac, server, 53, 50000, job.query);
    let f = jobs::udp_frame(m, mac, server, 53, 50000, job.query);
    if job.attempt < 3000 && job.attempt % 300 == 0 {
        let (next, step) = lookup::looking_up(m, job);
        assert(step == StepView::<Seq<u8>>::Wait(seq![f]));
        assert(step->Wait_0[0] == f);
    }
}

/// While the server's MAC address is not known it is asked for, without using up the steps of
/// the lookup; if nobody answers the lookup fails.
pub proof fn lookup_finds_the_server_first(m: StackModel, job: DnsQueryView, tried: u32)
    requires
        job.resolving == Some(tried),
        arp::cached(m.arp, seq![10u8, 0u8, 2u8, 3u8]) is None,
    ensures
        ({
            let (next, step) = lookup::looking_up(m, job);
            &&& next.attempt == job.attempt && next.query == job.query && next.id == job.id
            &&& tried < 2000 ==> next.resolving == Some((tried + 1) as u32) && step
                == jobs::resolving(m, seq![10u8, 0u8, 2u8, 3u8], tried)
            &&& tried >= 2000 ==> step == StepView::<Seq<u8>>::Done(None)
        }),
{
    assert(stack::DNS_SERVER@ =~= seq![10u8, 0u8, 2u8, 3u8]);
}

/// Opening a connection records it and sends a SYN as soon as the way is known: from a local port
/// of its own above 49151, with our next initial number.
pub proof fn connecting_records_and_sends(
    m: StackModel,
    ip: Seq<u8>,
    port: u16,
    attempt: u32,
    mac: Seq<u8>,
)
    requires
        ip == m.ip && mac == m.mac || ip != m.ip && arp::cached(m.arp, ip) == Some(mac),
    ensures
        ({
            let local = 49152 + m.serials.ephemeral as int % 16384;
            let (after, next, step) = connect::connecting(
                m,
                ConnectView::Resolving { ip, port, attempt },
            );
            let t = after.tcp.connections.last();
            &&& after.tcp.connections.len() == m.tcp.connections.len() + 1
            &&& after.tcp.connections.drop_last() == m.tcp.connections
            &&& t.state == State::SynSent
            &&& t.local_port == local && t.remote_port == port && t.remote_ip == ip
            &&& t.iss == m.tcp.next_isn
            &&& after.tcp.next_isn == m.tcp.next_isn.wrapping_add(0x1_0000)
            &&& after.serials.ephemeral == m.serials.ephemeral.wrapping_add(1)
            &&& next matches ConnectView::Waiting { local_port, port: port2, frame, attempt: 1 }
            &&& local_port == local && port2 == port
            &&& step == StepView::<u16>::Wait(seq![frame])
            &&& frame == stack::ipv4_frame(
                m,
                mac,
                ip,
                6,
                tcp::segment::encode(
                    m.ip,
                    ip,
                    model::own_segment(t, t.iss, 0, 2, Seq::empty()),
                ),
            )
        }),
{
    let after = connect::opened(m, ip, port);
    assert(after.tcp.connections.drop_last() =~= m.tcp.connections);
}

/// Whether the first connection with these ports is established.
pub open spec fn has_connected(cs: Seq<TcbModel>, local: u16, port: u16) -> bool {
    exists|i: int|
        #![trigger cs[i]]
        {
            &&& 0 <= i < cs.len()
            &&& cs[i].local_port == local && cs[i].remote_port == port
            &&& cs[i].state == State::Established
            &&& forall|j: int|
                0 <= j < i ==> !((#[trigger] cs[j]).local_port == local && cs[j].remote_port == port)
        }
}

/// A connection is open as soon as its handshake is done. Until then the SYN is sent again every
/// 200 steps, and after 2000 the attempt fails.
pub proof fn connecting_waits_for_the_handshake(
    m: StackModel,
    local: u16,
    port: u16,
    frame: Seq<u8>,
    attempt: u32,
)
    ensures
        ({
            let job = ConnectView::Waiting { local_port: local, port, frame, attempt };
            let (after, next, step) = connect::connecting(m, job);
            let done = has_connected(m.tcp.connections, local, port);
            &&& after == m
            &&& done ==> step == StepView::<u16>::Done(Some(local))
            &&& !done && attempt >= 2000 ==> step == StepView::<u16>::Done(None)
            &&& !done && attempt < 2000 ==> next == (ConnectView::Waiting {
                local_port: local,
                port,
                frame,
                attempt: (attempt + 1) as u32,
            })
            &&& !done && attempt < 2000 && attempt % 200 == 0 ==> step == StepView::<u16>::Wait(
                seq![frame],
            )
            &&& !done && attempt < 2000 && attempt % 200 != 0 ==> step == StepView::<u16>::Wait(
                Seq::empty(),
            )
        }),
{
    let cs = m.tcp.connections;
    let f = model::has_ports(local, port);
    if has_connected(cs, local, port) {
        let k = choose|k: int|
            #![trigger cs[k]]
            {
                &&& 0 <= k < cs.len()
                &&& cs[k].local_port == local && cs[k].remote_port == port
                &&& cs[k].state == State::Established
                &&& forall|j: int|
                    0 <= j < k ==> !((#[trigger] cs[j]).local_port == local && cs[j].remote_port
                        == port)
            };
        tcp::states::first_match_is_found(cs, f, k);
    } else if connect::is_established(m, local, port) {
        let k = model::find(cs, f).unwrap();
        assert(model::is_first(cs, f, k));
        assert forall|j: int| 0 <= j < k implies !((#[trigger] cs[j]).local_port == local
            && cs[j].remote_port == port) by {
            assert(!f(cs[j]));
        }
        assert(f(cs[k]));
    }
}

/// Frames that were waiting are handled one after the other: what the first do, then the last,
/// and their answers go out in that order.
pub proof fn waiting_frames_are_handled_in_order(
    m: StackModel,
    frames: Seq<Seq<u8>>,
    f: Seq<u8>,
    now: u64,
)
    ensures
        ({
            let all = frames.push(f);
            let n = frames.len() as int;
            let (mid, out) = stack::received_all(m, frames, now, n);
            let (after, answer) = stack::received(mid, f, now);
            let (end, sent) = stack::received_all(m, all, now, n + 1);
            &&& end == after
            &&& answer is None ==> sent == out
            &&& answer is Some ==> sent == out + seq![answer.unwrap()]
            &&& stack::received_all(m, Seq::empty(), now, 0) == (m, Seq::<Seq<u8>>::empty())
        }),
{
    let all = frames.push(f);
    let n = frames.len() as int;
    lemma_same_frames(m, frames, all, now, n);
    assert(all[n] == f);
    let (mid, out) = stack::received_all(m, frames, now, n);
    let answer = stack::received(mid, f, now).1;
    if answer is Some {
        assert(out.push(answer.unwrap()) =~= out + seq![answer.unwrap()]);
    }
}

proof fn lemma_same_frames(m: StackModel, a: Seq<Seq<u8>>, b: Seq<Seq<u8>>, now: u64, n: int)
    requires
        n <= a.len(),
        n <= b.len(),
        forall|i: int| 0 <= i < n ==> a[i] == b[i],
    ensures
        stack::received_all(m, a, now, n) == stack::received_all(m, b, now, n),
    decreases n,
{
    if n > 0 {
        lemma_same_frames(m, a, b, now, n - 1);
    }
}

/// Servicing the timers does three things: the oldest segment of a connection that is overdue
/// goes out again, an idle connection sends the first of what is queued, and an acknowledgement
/// that is due goes out. Each goes to its connection's peer.
pub proof fn service_resends_sends_and_acknowledges(
    m: model::TcpModel,
    ip: Seq<u8>,
    now: u64,
    i: int,
    n: int,
)
    requires
        0 <= i < m.connections.len(),
    ensures
        ({
            let t = m.connections[i];
            let sent = stack::serviced(m, ip, now).1;
            &&& t.state != State::TimeWait && t.retransmit.len() > 0 && t.retransmit[0].deadline
                <= now && t.retransmit[0].tries < 5 ==> sent.contains(
                (t.retransmit[0].segment, t.remote_ip),
            )
            &&& t.state == State::Established && t.retransmit.len() == 0 && t.snd_una == t.snd_nxt
                && 0 < n <= t.snd_wnd && n <= t.cwnd && n <= t.snd_buf.len() && n <= 1024 && (n
                == t.snd_wnd || n == t.cwnd || n == t.snd_buf.len() || n == 1024)
                ==> sent.contains(
                (
                    tcp::segment::encode(
                        ip,
                        t.remote_ip,
                        model::own_segment(
                            t,
                            t.snd_nxt,
                            t.rcv_nxt,
                            0x18,
                            t.snd_buf.subrange(0, n),
                        ),
                    ),
                    t.remote_ip,
                ),
            )
            &&& t.state == State::Established && t.retransmit.len() == 0 && t.snd_buf.len() == 0
                && 0 < t.delayed_ack_deadline <= now && t.rx.len() <= 8192 ==> sent.contains(
                (
                    tcp::receiving::acknowledgement(
                        t,
                        t.rcv_nxt as int,
                        t.rx.len(),
                        ip,
                        t.remote_ip,
                    ),
                    t.remote_ip,
                ),
            )
        }),
{
    let t = m.connections[i];
    let count = m.connections.len() as int;
    let ticked = model::tick_table(m.connections, now);
    let flushed = model::flush_table(ticked, ip, now);
    let a = model::tick_output(m.connections, now, count);
    let b = model::flush_output(ticked, ip, now, count);
    let c = model::overdue_acks(flushed, ip, now, count);
    let sent = stack::serviced(m, ip, now).1;
    assert(sent == a + b + c);
    if t.state != State::TimeWait && t.retransmit.len() > 0 && t.retransmit[0].deadline <= now
        && t.retransmit[0].tries < 5 {
        let x = (t.retransmit[0].segment, t.remote_ip);
        assert(model::tick_one(t, now).1 == Some(x.0));
        tcp::sending::clock_reaches_every_connection(m.connections, now, x);
        lemma_among(a, b, c, x);
    }
    if t.state == State::Established && t.retransmit.len() == 0 {
        assert(model::tick_one(t, now) == (t, None::<Seq<u8>>));
        assert(ticked[i] == t);
        if t.snd_una == t.snd_nxt && 0 < n <= t.snd_wnd && n <= t.cwnd && n <= t.snd_buf.len() && n
            <= 1024 && (n == t.snd_wnd || n == t.cwnd || n == t.snd_buf.len() || n == 1024) {
            assert(model::in_flight(t) == 0);
            assert(model::next_chunk(t) == Some(n as nat));
            let out = model::flushed(t, ip, now).1;
            let x = (model::data_bytes(t, ip, n as nat), t.remote_ip);
            assert(out[0] == x.0);
            tcp::sending::flush_reaches_every_peer(ticked, ip, now, x);
            assert(b.contains(x));
            assert(t.snd_buf.take(n) =~= t.snd_buf.subrange(0, n));
            lemma_among(a, b, c, x);
        }
        if t.snd_buf.len() == 0 && 0 < t.delayed_ack_deadline <= now && t.rx.len() <= 8192 {
            assert(model::next_chunk(t) is None);
            assert(flushed[i] == t);
            let x = (model::ack_bytes(t, ip, t.remote_ip), t.remote_ip);
            lemma_ack_is_among(flushed, ip, now, i, count);
            lemma_among(a, b, c, x);
            assert(x.0 == tcp::receiving::acknowledgement(
                t,
                t.rcv_nxt as int,
                t.rx.len(),
                ip,
                t.remote_ip,
            ));
        }
    }
}

proof fn lemma_among(
    a: Seq<(Seq<u8>, Seq<u8>)>,
    b: Seq<(Seq<u8>, Seq<u8>)>,
    c: Seq<(Seq<u8>, Seq<u8>)>,
    x: (Seq<u8>, Seq<u8>),
)
    requires
        a.contains(x) || b.contains(x) || c.contains(x),
    ensures
        (a + b + c).contains(x),
{
    let all = a + b + c;
    if a.contains(x) {
        let k = choose|k: int| 0 <= k < a.len() && a[k] == x;
        assert(all[k] == x);
    } else if b.contains(x) {
        let k = choose|k: int| 0 <= k < b.len() && b[k] == x;
        assert(all[a.len() + k] == x);
    } else {
        let k = choose|k: int| 0 <= k < c.len() && c[k] == x;
        assert(all[a.len() + b.len() + k] == x);
    }
}

proof fn lemma_ack_is_among(table: Seq<TcbModel>, ip: Seq<u8>, now: u64, i: int, n: int)
    requires
        0 <= i < n <= table.len(),
        0 < table[i].delayed_ack_deadline <= now,
    ensures
        model::overdue_acks(table, ip, now, n).contains(
            (model::ack_bytes(table[i], ip, table[i].remote_ip), table[i].remote_ip),
        ),
    decreases n,
{
    let x = (model::ack_bytes(table[i], ip, table[i].remote_ip), table[i].remote_ip);
    let all = model::overdue_acks(table, ip, now, n);
    let before = model::overdue_acks(table, ip, now, n - 1);
    if i == n - 1 {
        assert(all == before.push(x));
        assert(all[before.len() as int] == x);
    } else {
        lemma_ack_is_among(table, ip, now, i, n - 1);
        let k = choose|k: int| 0 <= k < before.len() && before[k] == x;
        assert(all[k] == x);
    }
}

} // verus!
