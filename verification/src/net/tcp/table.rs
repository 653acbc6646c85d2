//! The table of TCP connections and the operations on it.

use vstd::prelude::*;

use crate::bytes;
use crate::net::tcp::laws;
use crate::net::tcp::model;
use crate::net::tcp::model::{Counters, State, TcbModel, TcpModel, ISN_STRIDE};
use crate::net::tcp::segment;
use crate::net::tcp::segment::{Segment, ACK, SYN};
use crate::net::tcp::tcb;
use crate::net::tcp::tcb::Tcb;

verus! {

/// All TCP connections and listeners, the generator of initial sequence numbers, and the totals.
pub struct Tcp {
    connections: Vec<Tcb>,
    next_isn: u32,
    counters: Counters,
}

/// The models of table entries.
pub open spec fn tcb_views(table: Seq<Tcb>) -> Seq<TcbModel> {
    Seq::new(table.len(), |i: int| table[i]@)
}

/// Segments to send with the addresses they go to.
pub open spec fn outgoing_views(out: Seq<(Vec<u8>, [u8; 4])>) -> Seq<(Seq<u8>, Seq<u8>)> {
    Seq::new(out.len(), |i: int| (out[i].0@, out[i].1@))
}

impl View for Tcp {
    type V = TcpModel;

    closed spec fn view(&self) -> TcpModel {
        TcpModel {
            connections: tcb_views(self.connections@),
            next_isn: self.next_isn,
            counters: self.counters,
        }
    }
}

impl Tcp {
    /// What holds of the table between any two operations.
    pub open spec fn ok(&self) -> bool {
        model::tcp_ok(self@)
    }

    /// An empty table.
    pub fn new() -> (tcp: Tcp)
        ensures
            tcp@.connections == Seq::<TcbModel>::empty(),
            tcp@.next_isn == ISN_STRIDE,
            tcp@.counters == (Counters {
                out_of_order_buffered: 0,
                data_segments_sent: 0,
                fast_retransmits: 0,
                acks_sent: 0,
            }),
            tcp.ok(),
    {
        let tcp = Tcp {
            connections: Vec::new(),
            next_isn: ISN_STRIDE,
            counters: Counters {
                out_of_order_buffered: 0,
                data_segments_sent: 0,
                fast_retransmits: 0,
                acks_sent: 0,
            },
        };
        assert(tcp@.connections =~= Seq::<TcbModel>::empty());
        tcp
    }

    /// Takes the next initial sequence number.
    fn next_isn(&mut self) -> (isn: u32)
        ensures
            isn == old(self)@.next_isn,
            final(self)@ == (TcpModel {
                next_isn: old(self)@.next_isn.wrapping_add(ISN_STRIDE),
                ..old(self)@
            }),
    {
        let isn: u32 = self.next_isn;
        self.next_isn = isn.wrapping_add(ISN_STRIDE);
        isn
    }
}

/// Which table entry an operation is about.
enum Lookup {
    /// The connection with these ports.
    Ports(u16, u16),
    /// The established connection with these ports.
    Established(u16, u16),
    /// The connection that a segment from this address, source and destination port belongs to.
    Owner([u8; 4], u16, u16),
    /// The listener on this port.
    Listener(u16),
}

/// The predicate that a lookup searches for.
spec fn sought(l: Lookup) -> spec_fn(TcbModel) -> bool {
    match l {
        Lookup::Ports(local, remote) => model::has_ports(local, remote),
        Lookup::Established(local, remote) => model::established_on(local, remote),
        Lookup::Owner(ip, src, dst) => model::owns_segment(ip@, src, dst),
        Lookup::Listener(port) => model::listens_on(port),
    }
}

/// A first match is what [`model::find`] finds.
proof fn lemma_find(table: Seq<TcbModel>, p: spec_fn(TcbModel) -> bool, i: int)
    requires
        model::is_first(table, p, i),
    ensures
        model::find(table, p) == Some(i),
{
    let c = choose|c: int| model::is_first(table, p, c);
    assert(model::is_first(table, p, c));
    if c < i {
        assert(!p(table[c]));
    } else if i < c {
        assert(!p(table[i]));
    }
}

/// The position of the entry sought.
fn find(table: &Vec<Tcb>, l: &Lookup) -> (found: Option<usize>)
    ensures
        match found {
            Some(i) => i < table@.len() && model::find(tcb_views(table@), sought(*l)) == Some(
                i as int,
            ) && sought(*l)(table@[i as int]@),
            None => model::find(tcb_views(table@), sought(*l)) is None,
        },
{
    let ghost views = tcb_views(table@);
    let ghost p = sought(*l);
    let mut i: usize = 0;
    while i < table.len()
        invariant
            i <= table@.len(),
            views == tcb_views(table@),
            p == sought(*l),
            forall|j: int| 0 <= j < i ==> !p(#[trigger] views[j]),
        decreases table@.len() - i,
    {
        let t: &Tcb = &table[i];
        assert(views[i as int] == t@);
        let hit: bool = match l {
            Lookup::Ports(local, remote) => t.local_port == *local && t.remote_port == *remote,
            Lookup::Established(local, remote) => t.state == State::Established && t.local_port
                == *local && t.remote_port == *remote,
            Lookup::Owner(ip, src, dst) => t.state != State::Listen && t.local_port == *dst
                && t.remote_port == *src && bytes::same_ip(t.remote_ip, *ip),
            Lookup::Listener(port) => t.state == State::Listen && t.local_port == *port,
        };
        if hit {
            proof {
                assert(model::is_first(views, p, i as int));
                lemma_find(views, p, i as int);
            }
            return Some(i);
        }
        i = i + 1;
    }
    None
}

/// The table stays in order when an entry changes, as long as it does not become a listener.
proof fn lemma_replaced(m: TcpModel, i: int, t: TcbModel)
    requires
        model::tcp_ok(m),
        0 <= i < m.connections.len(),
        model::entry_ok(t),
        t.state == State::Listen ==> m.connections[i].state == State::Listen && t.local_port
            == m.connections[i].local_port,
    ensures
        model::tcp_ok(TcpModel { connections: m.connections.update(i, t), ..m }),
{
}

/// Draining touches nothing but the receive buffer, the queue and the next expected position.
proof fn lemma_drain_keeps(t: TcbModel)
    ensures
        model::drained(t).0.state == t.state,
    decreases t.ooo.len(),
{
    if exists|i: int| model::is_first_continuing(t, i) {
        let i = choose|i: int| model::is_first_continuing(t, i);
        assert(model::is_first_continuing(t, i));
        lemma_drain_keeps(model::spliced(t, i));
    }
}

/// A segment keeps the receive buffer within its size and makes no listener.
proof fn lemma_step_keeps(
    t: TcbModel,
    c: Counters,
    local_ip: Seq<u8>,
    remote_ip: Seq<u8>,
    s: segment::SegmentView,
    now: u64,
)
    requires
        t.rx.len() <= model::RCV_WINDOW_MAX,
        t.state != State::Listen,
    ensures
        model::step(t, c, local_ip, remote_ip, s, now).tcb.rx.len() <= model::RCV_WINDOW_MAX,
        model::step(t, c, local_ip, remote_ip, s, now).tcb.state != State::Listen,
{
    let (t1, fast) = model::after_ack(t, s, now);
    assert(t1.rx == t.rx && t1.state == t.state);
    if t.state == State::Established {
        let c1 = model::ack_processed(c, fast);
        laws::receive_buffer_is_bounded(t1, c1, s.seq, s.payload);
        let fresh = s.payload.skip(t1.rcv_nxt.wrapping_sub(s.seq) as int);
        let end = model::advance(s.seq, s.payload.len());
        lemma_drain_keeps(TcbModel { rx: t1.rx + fresh, rcv_nxt: end, ..t1 });
    }
}

/// Out-of-order segments held since the start.
pub fn out_of_order_buffered(tcp: &Tcp) -> (n: u64)
    ensures
        n == tcp@.counters.out_of_order_buffered,
{
    tcp.counters.out_of_order_buffered
}

/// Data segments sent since the start.
pub fn data_segments_sent(tcp: &Tcp) -> (n: u64)
    ensures
        n == tcp@.counters.data_segments_sent,
{
    tcp.counters.data_segments_sent
}

/// Fast retransmits since the start.
pub fn fast_retransmits(tcp: &Tcp) -> (n: u64)
    ensures
        n == tcp@.counters.fast_retransmits,
{
    tcp.counters.fast_retransmits
}

/// Acknowledgements built since the start.
pub fn acks_sent(tcp: &Tcp) -> (n: u64)
    ensures
        n == tcp@.counters.acks_sent,
{
    tcp.counters.acks_sent
}

/// Registers a listener on `local_port`. A second one on the same port is ignored.
pub fn open_passive(tcp: &mut Tcp, local_port: u16)
    requires
        old(tcp).ok(),
    ensures
        final(tcp).ok(),
        final(tcp)@ == model::listening(old(tcp)@, local_port),
{
    if find(&tcp.connections, &Lookup::Listener(local_port)).is_some() {
        return;
    }
    let zero: [u8; 4] = [0, 0, 0, 0];
    assert(zero@ =~= seq![0u8, 0u8, 0u8, 0u8]);
    let ghost before = tcp@;
    tcp.connections.push(Tcb::fresh(State::Listen, local_port, 0, zero));
    assert(tcp@.connections =~= before.connections.push(model::listener(local_port)));
    proof {
        laws::lemma_none_matches(before.connections, model::listens_on(local_port));
    }
}

/// Starts an active open: records the connection and returns the SYN to send.
pub fn open_active(
    tcp: &mut Tcp,
    local_ip: [u8; 4],
    remote_ip: [u8; 4],
    local_port: u16,
    remote_port: u16,
) -> (syn: Vec<u8>)
    requires
        old(tcp).ok(),
    ensures
        final(tcp).ok(),
        ({
            let t = model::syn_sent(local_port, remote_port, remote_ip@, old(tcp)@.next_isn);
            &&& final(tcp)@ == (TcpModel {
                connections: old(tcp)@.connections.push(t),
                next_isn: old(tcp)@.next_isn.wrapping_add(ISN_STRIDE),
                ..old(tcp)@
            })
            &&& syn@ == segment::encode(
                local_ip@,
                remote_ip@,
                model::own_segment(t, t.iss, 0, SYN, Seq::empty()),
            )
        }),
{
    let ghost before = tcp@;
    let iss: u32 = tcp.next_isn();
    let mut t = Tcb::fresh(State::SynSent, local_port, remote_port, remote_ip);
    t.snd_una = iss;
    t.snd_nxt = iss.wrapping_add(1);
    t.iss = iss;
    let ghost view = t@;
    let none: Vec<u8> = Vec::new();
    assert(none@ =~= Seq::<u8>::empty());
    let syn: Vec<u8> = t.own_segment(local_ip, remote_ip, iss, 0, SYN, &none);
    tcp.connections.push(t);
    assert(tcp@.connections =~= before.connections.push(view));
    syn
}

/// Processes one received segment and returns the segment to answer with, if any. A segment of a
/// known connection advances it; a SYN to a listener opens one; anything else is dropped.
pub fn on_segment(
    tcp: &mut Tcp,
    local_ip: [u8; 4],
    remote_ip: [u8; 4],
    seg: &Segment,
    now: u64,
) -> (reply: Option<Vec<u8>>)
    requires
        old(tcp).ok(),
        model::clock_ok(now),
    ensures
        final(tcp).ok(),
        (final(tcp)@, tcb::reply_view(reply)) == model::on_segment(
            old(tcp)@,
            local_ip@,
            remote_ip@,
            seg@,
            now,
        ),
{
    let ghost before = tcp@;
    if let Some(i) = find(&tcp.connections, &Lookup::Owner(remote_ip, seg.src_port, seg.dst_port)) {
        assert(before.connections[i as int] == tcp.connections@[i as int]@);
        proof {
            lemma_step_keeps(
                before.connections[i as int],
                before.counters,
                local_ip@,
                remote_ip@,
                seg@,
                now,
            );
        }
        let reply: Option<Vec<u8>> = tcb::step(
            &mut tcp.connections[i],
            &mut tcp.counters,
            local_ip,
            remote_ip,
            seg,
            now,
        );
        assert(tcp@.connections =~= before.connections.update(
            i as int,
            tcp.connections@[i as int]@,
        ));
        proof {
            lemma_replaced(before, i as int, tcp.connections@[i as int]@);
        }
        return reply;
    }
    if let Some(i) = find(&tcp.connections, &Lookup::Listener(seg.dst_port)) {
        assert(before.connections[i as int] == tcp.connections@[i as int]@);
        if seg.flags & SYN != 0 && seg.flags & ACK == 0 {
            let iss: u32 = tcp.next_isn();
            tcp.connections[i].remote_ip = remote_ip;
            tcp.connections[i].remote_port = seg.src_port;
            tcp.connections[i].irs = seg.seq;
            tcp.connections[i].rcv_nxt = seg.seq.wrapping_add(1);
            tcp.connections[i].iss = iss;
            tcp.connections[i].snd_una = iss;
            tcp.connections[i].snd_nxt = iss.wrapping_add(1);
            tcp.connections[i].snd_wnd = seg.window as u32;
            tcp.connections[i].state = State::SynReceived;
            let ghost t = model::syn_received(
                before.connections[i as int],
                remote_ip@,
                seg@,
                before.next_isn,
            );
            assert(tcp.connections@[i as int]@ =~= t);
            assert(tcp@.connections =~= before.connections.update(i as int, t));
            proof {
                lemma_replaced(before, i as int, t);
            }
            return Some(tcb::build_syn_ack(&tcp.connections[i], local_ip, remote_ip));
        }
    }
    None
}

/// The first connection with these ports.
pub open spec fn connection(m: TcpModel, local_port: u16, remote_port: u16) -> Option<TcbModel> {
    match model::find(m.connections, model::has_ports(local_port, remote_port)) {
        Some(i) => Some(m.connections[i]),
        None => None,
    }
}

/// Queues data on the established connection with these ports; `false` if there is none.
pub fn queue_send(tcp: &mut Tcp, local_port: u16, remote_port: u16, data: &[u8]) -> (queued: bool)
    requires
        old(tcp).ok(),
    ensures
        final(tcp).ok(),
        match model::find(
            old(tcp)@.connections,
            model::established_on(local_port, remote_port),
        ) {
            Some(i) => {
                let t = old(tcp)@.connections[i];
                &&& queued
                &&& final(tcp)@ == (TcpModel {
                    connections: old(tcp)@.connections.update(
                        i,
                        TcbModel { snd_buf: t.snd_buf + data@, ..t },
                    ),
                    ..old(tcp)@
                })
            },
            None => !queued && final(tcp)@ == old(tcp)@,
        },
{
    let ghost before = tcp@;
    match find(&tcp.connections, &Lookup::Established(local_port, remote_port)) {
        Some(i) => {
            assert(before.connections[i as int] == tcp.connections@[i as int]@);
            bytes::append(&mut tcp.connections[i].snd_buf, data);
            assert(tcp@.connections =~= before.connections.update(
                i as int,
                tcp.connections@[i as int]@,
            ));
            true
        },
        None => false,
    }
}

/// Switches the coalescing of small segments off or on for the connection with these ports;
/// `false` if there is none.
pub fn set_nodelay(tcp: &mut Tcp, local_port: u16, remote_port: u16, enabled: bool) -> (set: bool)
    requires
        old(tcp).ok(),
    ensures
        final(tcp).ok(),
        match model::find(old(tcp)@.connections, model::has_ports(local_port, remote_port)) {
            Some(i) => {
                let t = old(tcp)@.connections[i];
                &&& set
                &&& final(tcp)@ == (TcpModel {
                    connections: old(tcp)@.connections.update(
                        i,
                        TcbModel { nodelay: enabled, ..t },
                    ),
                    ..old(tcp)@
                })
            },
            None => !set && final(tcp)@ == old(tcp)@,
        },
{
    let ghost before = tcp@;
    match find(&tcp.connections, &Lookup::Ports(local_port, remote_port)) {
        Some(i) => {
            assert(before.connections[i as int] == tcp.connections@[i as int]@);
            tcp.connections[i].nodelay = enabled;
            assert(tcp@.connections =~= before.connections.update(
                i as int,
                tcp.connections@[i as int]@,
            ));
            true
        },
        None => false,
    }
}

/// The 64-bit counter `x` after `n` more events.
#[verifier::opaque]
pub open spec fn counted(x: u64, n: nat) -> u64 {
    ((x + n) % 0x1_0000_0000_0000_0000) as u64
}

/// Counting none changes nothing, one is a wrapping increment, and counts add up.
pub proof fn counts_add_up(x: u64, n: nat, k: nat)
    ensures
        counted(x, 0) == x,
        counted(x, 1) == x.wrapping_add(1),
        counted(counted(x, n), k) == counted(x, n + k),
{
    reveal(counted);
}

/// The counters after `n` more data segments.
pub open spec fn sent_counted(c: Counters, n: nat) -> Counters {
    Counters { data_segments_sent: counted(c.data_segments_sent, n), ..c }
}

/// One segment more is sent, and the rest follows.
proof fn lemma_flushed(t: TcbModel, local_ip: Seq<u8>, n: nat, now: u64)
    requires
        model::next_chunk(t) == Some(n),
    ensures
        model::flushed(t, local_ip, now).0 == model::flushed(
            model::after_chunk(t, local_ip, n, now),
            local_ip,
            now,
        ).0,
        model::flushed(t, local_ip, now).1 == seq![model::data_bytes(t, local_ip, n)]
            + model::flushed(model::after_chunk(t, local_ip, n, now), local_ip, now).1,
{
}

/// Moving the first of the remaining segments to those sent changes neither their order nor the
/// addresses.
proof fn lemma_sent_one(sent: Seq<Seq<u8>>, view: Seq<u8>, rest: Seq<Seq<u8>>, ip: Seq<u8>)
    ensures
        sent.push(view) + rest == sent + (seq![view] + rest),
        forall|out: Seq<(Seq<u8>, Seq<u8>)>|
            (#[trigger] (out + model::addressed(sent, ip))).push((view, ip)) == out
                + model::addressed(sent.push(view), ip),
{
    assert(sent.push(view) + rest =~= sent + (seq![view] + rest));
    assert forall|out: Seq<(Seq<u8>, Seq<u8>)>|
        (#[trigger] (out + model::addressed(sent, ip))).push((view, ip)) == out + model::addressed(
            sent.push(view),
            ip,
        ) by {
        assert((out + model::addressed(sent, ip)).push((view, ip)) =~= out + model::addressed(
            sent.push(view),
            ip,
        ));
    }
}

/// Sends everything that one connection may send now, appending the segments to `out`.
#[verifier::rlimit(40)]
fn flush_connection(
    t: &mut Tcb,
    counters: &mut Counters,
    local_ip: [u8; 4],
    now: u64,
    out: &mut Vec<(Vec<u8>, [u8; 4])>,
)
    requires
        model::tcb_ok(old(t)@),
        model::clock_ok(now),
    ensures
        model::tcb_ok(final(t)@),
        final(t)@ == model::flushed(old(t)@, local_ip@, now).0,
        final(t)@.rx == old(t)@.rx,
        final(t)@.state == old(t)@.state,
        outgoing_views(final(out)@) == outgoing_views(old(out)@) + model::addressed(
            model::flushed(old(t)@, local_ip@, now).1,
            old(t)@.remote_ip,
        ),
        *final(counters) == sent_counted(
            *old(counters),
            model::flushed(old(t)@, local_ip@, now).1.len(),
        ),
{
    proof {
        counts_add_up(counters.data_segments_sent, 0, 0);
    }
    let ghost all = model::flushed(t@, local_ip@, now).1;
    let ghost mut sent: Seq<Seq<u8>> = Seq::empty();
    assert(outgoing_views(out@) =~= outgoing_views(old(out)@) + model::addressed(
        sent,
        old(t)@.remote_ip,
    ));
    assert(sent + model::flushed(t@, local_ip@, now).1 =~= all);
    loop
        invariant
            model::tcb_ok(t@),
            model::clock_ok(now),
            t@.remote_ip == old(t)@.remote_ip,
            t@.rx == old(t)@.rx,
            t@.state == old(t)@.state,
            model::flushed(t@, local_ip@, now).0 == model::flushed(old(t)@, local_ip@, now).0,
            sent + model::flushed(t@, local_ip@, now).1 == all,
            all == model::flushed(old(t)@, local_ip@, now).1,
            outgoing_views(out@) == outgoing_views(old(out)@) + model::addressed(
                sent,
                old(t)@.remote_ip,
            ),
            *counters == sent_counted(*old(counters), sent.len()),
        ensures
            model::tcb_ok(t@),
            t@ == model::flushed(old(t)@, local_ip@, now).0,
            t@.rx == old(t)@.rx,
            t@.state == old(t)@.state,
            sent == all,
            outgoing_views(out@) == outgoing_views(old(out)@) + model::addressed(
                sent,
                old(t)@.remote_ip,
            ),
            *counters == sent_counted(*old(counters), sent.len()),
        decreases t@.snd_buf.len(),
    {
        match tcb::next_chunk(t) {
            Some(n) => {
                let ghost before = t@;
                let ghost tail = model::flushed(before, local_ip@, now).1;
                let ghost out0 = outgoing_views(out@);
                proof {
                    counts_add_up(old(counters).data_segments_sent, sent.len(), 1);
                    counts_add_up(counters.data_segments_sent, 0, 0);
                    lemma_flushed(before, local_ip@, n as nat, now);
                }
                let bytes: Vec<u8> = tcb::emit_segment(t, counters, local_ip, n, now);
                let ghost view = bytes@;
                let ip: [u8; 4] = t.remote_ip;
                out.push((bytes, ip));
                proof {
                    lemma_sent_one(sent, view, model::flushed(t@, local_ip@, now).1, ip@);
                    assert(outgoing_views(out@) =~= out0.push((view, ip@)));
                    sent = sent.push(view);
                }
            },
            None => {
                assert(sent =~= all);
                break;
            },
        }
    }
}

/// Sends as much queued data on every established connection as the windows allow. Returns the
/// segments to transmit with the addresses they go to.
pub fn flush(tcp: &mut Tcp, local_ip: [u8; 4], now: u64) -> (out: Vec<(Vec<u8>, [u8; 4])>)
    requires
        old(tcp).ok(),
        model::clock_ok(now),
    ensures
        final(tcp).ok(),
        final(tcp)@ == (TcpModel {
            connections: model::flush_table(old(tcp)@.connections, local_ip@, now),
            counters: sent_counted(old(tcp)@.counters, out@.len()),
            ..old(tcp)@
        }),
        outgoing_views(out@) == model::flush_output(
            old(tcp)@.connections,
            local_ip@,
            now,
            old(tcp)@.connections.len() as int,
        ),
{
    let ghost before = tcp@;
    let ghost table = before.connections;
    let mut out: Vec<(Vec<u8>, [u8; 4])> = Vec::new();
    let mut i: usize = 0;
    assert(outgoing_views(out@) =~= model::flush_output(table, local_ip@, now, 0));
    proof {
        counts_add_up(before.counters.data_segments_sent, 0, 0);
    }
    while i < tcp.connections.len()
        invariant
            model::clock_ok(now),
            tcp.ok(),
            i <= tcp.connections@.len(),
            table.len() == tcp.connections@.len(),
            table == before.connections,
            tcp@.next_isn == before.next_isn,
            tcp@.counters == sent_counted(before.counters, out@.len()),
            outgoing_views(out@) == model::flush_output(table, local_ip@, now, i as int),
            forall|j: int|
                0 <= j < i ==> #[trigger] tcp@.connections[j] == model::flush_one(
                    table[j],
                    local_ip@,
                    now,
                ).0,
            forall|j: int| i <= j < table.len() ==> #[trigger] tcp@.connections[j] == table[j],
        decreases tcp.connections@.len() - i,
    {
        let ghost start = tcp@;
        assert(tcp@.connections[i as int] == tcp.connections@[i as int]@);
        assert(model::tcb_ok(tcp@.connections[i as int]));
        let ghost count = out@.len();
        if tcp.connections[i].state == State::Established {
            flush_connection(
                &mut tcp.connections[i],
                &mut tcp.counters,
                local_ip,
                now,
                &mut out,
            );
            assert(outgoing_views(out@).len() == out@.len());
            proof {
                counts_add_up(
                    before.counters.data_segments_sent,
                    count,
                    (out@.len() - count) as nat,
                );
            }
        } else {
            assert(model::addressed(Seq::empty(), table[i as int].remote_ip) =~= Seq::empty());
            assert(model::flush_output(table, local_ip@, now, i + 1) =~= outgoing_views(out@));
        }
        assert(tcp@.connections =~= start.connections.update(
            i as int,
            tcp.connections@[i as int]@,
        ));
        proof {
            lemma_replaced(start, i as int, tcp.connections@[i as int]@);
        }
        i = i + 1;
    }
    assert(tcp@.connections =~= model::flush_table(table, local_ip@, now));
    out
}

/// Closes our side of the connection with these ports: returns the FIN to transmit with the
/// address it goes to, or `None` if there is no such connection or it cannot be closed now.
pub fn close(tcp: &mut Tcp, local_ip: [u8; 4], local_port: u16, remote_port: u16, now: u64) -> (fin:
    Option<(Vec<u8>, [u8; 4])>)
    requires
        old(tcp).ok(),
        model::clock_ok(now),
    ensures
        final(tcp).ok(),
        match model::find(old(tcp)@.connections, model::has_ports(local_port, remote_port)) {
            Some(i) => {
                let t = old(tcp)@.connections[i];
                match model::closing_state(t.state) {
                    Some(next) => {
                        &&& fin matches Some(f) && f.0@ == model::fin_bytes(t, local_ip@)
                            && f.1@ == t.remote_ip
                        &&& final(tcp)@ == (TcpModel {
                            connections: old(tcp)@.connections.update(
                                i,
                                model::after_close(t, local_ip@, next, now),
                            ),
                            ..old(tcp)@
                        })
                    },
                    None => fin is None && final(tcp)@ == old(tcp)@,
                }
            },
            None => fin is None && final(tcp)@ == old(tcp)@,
        },
{
    let ghost before = tcp@;
    match find(&tcp.connections, &Lookup::Ports(local_port, remote_port)) {
        Some(i) => {
            assert(before.connections[i as int] == tcp.connections@[i as int]@);
            let ip: [u8; 4] = tcp.connections[i].remote_ip;
            let fin: Option<Vec<u8>> = tcb::close_tcb(&mut tcp.connections[i], local_ip, now);
            assert(tcp@.connections =~= before.connections.update(
                i as int,
                tcp.connections@[i as int]@,
            ));
            match fin {
                Some(bytes) => Some((bytes, ip)),
                None => {
                    assert(tcp@.connections =~= before.connections);
                    None
                },
            }
        },
        None => None,
    }
}

/// A copy of the data received in order and not yet read on the connection with these ports;
/// `None` if there is no such connection.
pub fn received_data(tcp: &Tcp, local_port: u16, remote_port: u16) -> (data: Option<Vec<u8>>)
    ensures
        tcb::reply_view(data) == match connection(tcp@, local_port, remote_port) {
            Some(t) => Some(t.rx),
            None => None,
        },
{
    match find(&tcp.connections, &Lookup::Ports(local_port, remote_port)) {
        Some(i) => {
            assert(tcp@.connections[i as int] == tcp.connections@[i as int]@);
            Some(bytes::to_vec(&tcp.connections[i].rx))
        },
        None => None,
    }
}

/// Takes up to `max` received bytes from the connection with these ports, which reopens its
/// window; `None` if there is no such connection.
pub fn read(tcp: &mut Tcp, local_port: u16, remote_port: u16, max: usize) -> (data: Option<Vec<u8>>)
    requires
        old(tcp).ok(),
    ensures
        final(tcp).ok(),
        match model::find(old(tcp)@.connections, model::has_ports(local_port, remote_port)) {
            Some(i) => {
                let t = old(tcp)@.connections[i];
                let n = model::smaller(max as int, t.rx.len() as int);
                &&& data matches Some(d) && d@ == t.rx.take(n)
                &&& final(tcp)@ == (TcpModel {
                    connections: old(tcp)@.connections.update(
                        i,
                        TcbModel { rx: t.rx.skip(n), ..t },
                    ),
                    ..old(tcp)@
                })
            },
            None => data is None && final(tcp)@ == old(tcp)@,
        },
{
    let ghost before = tcp@;
    match find(&tcp.connections, &Lookup::Ports(local_port, remote_port)) {
        Some(i) => {
            assert(before.connections[i as int] == tcp.connections@[i as int]@);
            let held: usize = tcp.connections[i].rx.len();
            let n: usize = if max <= held {
                max
            } else {
                held
            };
            let data: Vec<u8> = tcb::take_front(&mut tcp.connections[i].rx, n);
            assert(tcp@.connections =~= before.connections.update(
                i as int,
                tcp.connections@[i as int]@,
            ));
            Some(data)
        },
        None => None,
    }
}

/// The window that the connection with these ports advertises; `None` if there is no such
/// connection.
pub fn receive_window(tcp: &Tcp, local_port: u16, remote_port: u16) -> (r: Option<u16>)
    ensures
        r == match connection(tcp@, local_port, remote_port) {
            Some(t) => Some(model::window_for(t.rx.len())),
            None => None,
        },
{
    match find(&tcp.connections, &Lookup::Ports(local_port, remote_port)) {
        Some(i) => {
            assert(tcp@.connections[i as int] == tcp.connections@[i as int]@);
            let c: &Tcb = &tcp.connections[i];
            Some(tcb::window_for(c.rx.len()))
        },
        None => None,
    }
}

/// Whether everything queued on the connection with these ports has been sent and acknowledged;
/// `None` if there is no such connection.
pub fn all_data_acked(tcp: &Tcp, local_port: u16, remote_port: u16) -> (r: Option<bool>)
    ensures
        r == match connection(tcp@, local_port, remote_port) {
            Some(t) => Some(t.snd_una == t.snd_nxt && t.snd_buf.len() == 0),
            None => None,
        },
{
    match find(&tcp.connections, &Lookup::Ports(local_port, remote_port)) {
        Some(i) => {
            assert(tcp@.connections[i as int] == tcp.connections@[i as int]@);
            let c: &Tcb = &tcp.connections[i];
            Some(c.snd_una == c.snd_nxt && c.snd_buf.len() == 0)
        },
        None => None,
    }
}

/// How much is sent and not yet acknowledged on the connection with these ports; `None` if there
/// is no such connection.
pub fn bytes_in_flight(tcp: &Tcp, local_port: u16, remote_port: u16) -> (r: Option<u32>)
    ensures
        r == match connection(tcp@, local_port, remote_port) {
            Some(t) => Some(model::in_flight(t)),
            None => None,
        },
{
    match find(&tcp.connections, &Lookup::Ports(local_port, remote_port)) {
        Some(i) => {
            assert(tcp@.connections[i as int] == tcp.connections@[i as int]@);
            let c: &Tcb = &tcp.connections[i];
            Some(c.snd_nxt.wrapping_sub(c.snd_una))
        },
        None => None,
    }
}

/// How many bytes are queued and not yet sent on the connection with these ports; `None` if there
/// is no such connection.
pub fn send_buffered(tcp: &Tcp, local_port: u16, remote_port: u16) -> (r: Option<usize>)
    ensures
        r == match connection(tcp@, local_port, remote_port) {
            Some(t) => Some(t.snd_buf.len() as usize),
            None => None,
        },
{
    match find(&tcp.connections, &Lookup::Ports(local_port, remote_port)) {
        Some(i) => {
            assert(tcp@.connections[i as int] == tcp.connections@[i as int]@);
            let c: &Tcb = &tcp.connections[i];
            Some(c.snd_buf.len())
        },
        None => None,
    }
}

/// The congestion window of the connection with these ports; `None` if there is no such connection.
pub fn congestion_window(tcp: &Tcp, local_port: u16, remote_port: u16) -> (r: Option<u32>)
    ensures
        r == match connection(tcp@, local_port, remote_port) {
            Some(t) => Some(t.cwnd),
            None => None,
        },
{
    match find(&tcp.connections, &Lookup::Ports(local_port, remote_port)) {
        Some(i) => {
            assert(tcp@.connections[i as int] == tcp.connections@[i as int]@);
            let c: &Tcb = &tcp.connections[i];
            Some(c.cwnd)
        },
        None => None,
    }
}

/// The slow-start threshold of the connection with these ports; `None` if there is no such
/// connection.
pub fn slow_start_threshold(tcp: &Tcp, local_port: u16, remote_port: u16) -> (r: Option<u32>)
    ensures
        r == match connection(tcp@, local_port, remote_port) {
            Some(t) => Some(t.ssthresh),
            None => None,
        },
{
    match find(&tcp.connections, &Lookup::Ports(local_port, remote_port)) {
        Some(i) => {
            assert(tcp@.connections[i as int] == tcp.connections@[i as int]@);
            let c: &Tcb = &tcp.connections[i];
            Some(c.ssthresh)
        },
        None => None,
    }
}

/// The retransmission timeout of the connection with these ports, in ticks; `None` if there is no
/// such connection.
pub fn current_rto(tcp: &Tcp, local_port: u16, remote_port: u16) -> (r: Option<u32>)
    ensures
        r == match connection(tcp@, local_port, remote_port) {
            Some(t) => Some(t.rto),
            None => None,
        },
{
    match find(&tcp.connections, &Lookup::Ports(local_port, remote_port)) {
        Some(i) => {
            assert(tcp@.connections[i as int] == tcp.connections@[i as int]@);
            let c: &Tcb = &tcp.connections[i];
            Some(c.rto)
        },
        None => None,
    }
}

/// Whether a round trip has been measured on the connection with these ports; `None` if there is
/// no such connection.
pub fn rtt_sampled(tcp: &Tcp, local_port: u16, remote_port: u16) -> (r: Option<bool>)
    ensures
        r == match connection(tcp@, local_port, remote_port) {
            Some(t) => Some(t.rtt_valid),
            None => None,
        },
{
    match find(&tcp.connections, &Lookup::Ports(local_port, remote_port)) {
        Some(i) => {
            assert(tcp@.connections[i as int] == tcp.connections@[i as int]@);
            let c: &Tcb = &tcp.connections[i];
            Some(c.rtt_valid)
        },
        None => None,
    }
}

/// The state of the connection with these ports; `None` if there is no such connection.
pub fn connection_state(tcp: &Tcp, local_port: u16, remote_port: u16) -> (r: Option<State>)
    ensures
        r == match connection(tcp@, local_port, remote_port) {
            Some(t) => Some(t.state),
            None => None,
        },
{
    match find(&tcp.connections, &Lookup::Ports(local_port, remote_port)) {
        Some(i) => {
            assert(tcp@.connections[i as int] == tcp.connections@[i as int]@);
            let c: &Tcb = &tcp.connections[i];
            Some(c.state)
        },
        None => None,
    }
}

/// Whether these ports are among `claimed`.
fn is_claimed(claimed: &Vec<(u16, u16)>, ports: (u16, u16)) -> (yes: bool)
    ensures
        yes == claimed@.contains(ports),
{
    let mut i: usize = 0;
    while i < claimed.len()
        invariant
            i <= claimed@.len(),
            forall|j: int| 0 <= j < i ==> claimed@[j] != ports,
        decreases claimed@.len() - i,
    {
        if claimed[i].0 == ports.0 && claimed[i].1 == ports.1 {
            assert(claimed@[i as int] == ports);
            return true;
        }
        i = i + 1;
    }
    false
}

/// The ports of the first established connection on this local port that is not among
/// `claimed`.
pub fn unclaimed(tcp: &Tcp, port: u16, claimed: &Vec<(u16, u16)>) -> (ports: Option<(u16, u16)>)
    ensures
        ports == match model::find(tcp@.connections, model::acceptable(port, claimed@)) {
            Some(i) => Some((tcp@.connections[i].local_port, tcp@.connections[i].remote_port)),
            None => None,
        },
{
    let ghost p = model::acceptable(port, claimed@);
    let mut i: usize = 0;
    while i < tcp.connections.len()
        invariant
            i <= tcp.connections@.len(),
            p == model::acceptable(port, claimed@),
            forall|j: int| 0 <= j < i ==> !p(#[trigger] tcp@.connections[j]),
        decreases tcp.connections@.len() - i,
    {
        let t: &Tcb = &tcp.connections[i];
        assert(tcp@.connections[i as int] == t@);
        let ports: (u16, u16) = (t.local_port, t.remote_port);
        if t.state == State::Established && t.local_port == port && !is_claimed(claimed, ports) {
            proof {
                assert(model::is_first(tcp@.connections, p, i as int));
                lemma_find(tcp@.connections, p, i as int);
            }
            return Some(ports);
        }
        i = i + 1;
    }
    None
}

/// How many of the first `n` connections are established.
pub open spec fn established_among(table: Seq<TcbModel>, n: int) -> nat
    decreases n,
{
    if n <= 0 {
        0
    } else {
        established_among(table, n - 1) + if table[n - 1].state == State::Established {
            1nat
        } else {
            0nat
        }
    }
}

/// How many connections are established.
pub fn established_count(tcp: &Tcp) -> (n: usize)
    ensures
        n == established_among(tcp@.connections, tcp@.connections.len() as int),
{
    let mut n: usize = 0;
    let mut i: usize = 0;
    while i < tcp.connections.len()
        invariant
            i <= tcp.connections@.len(),
            n <= i,
            n == established_among(tcp@.connections, i as int),
        decreases tcp.connections@.len() - i,
    {
        assert(tcp@.connections[i as int] == tcp.connections@[i as int]@);
        if tcp.connections[i].state == State::Established {
            n = n + 1;
        }
        i = i + 1;
    }
    n
}

/// Services the timers: resends overdue segments, gives up connections that do not answer, and
/// ends lingering. Returns the segments to resend with the addresses they go to.
pub fn on_tick(tcp: &mut Tcp, now: u64) -> (out: Vec<(Vec<u8>, [u8; 4])>)
    requires
        old(tcp).ok(),
        model::clock_ok(now),
    ensures
        final(tcp).ok(),
        final(tcp)@ == (TcpModel {
            connections: model::tick_table(old(tcp)@.connections, now),
            ..old(tcp)@
        }),
        outgoing_views(out@) == model::tick_output(
            old(tcp)@.connections,
            now,
            old(tcp)@.connections.len() as int,
        ),
{
    let ghost before = tcp@;
    let ghost table = before.connections;
    let mut out: Vec<(Vec<u8>, [u8; 4])> = Vec::new();
    let mut i: usize = 0;
    assert(outgoing_views(out@) =~= model::tick_output(table, now, 0));
    while i < tcp.connections.len()
        invariant
            model::clock_ok(now),
            tcp.ok(),
            i <= tcp.connections@.len(),
            table.len() == tcp.connections@.len(),
            table == before.connections,
            tcp@.next_isn == before.next_isn,
            tcp@.counters == before.counters,
            outgoing_views(out@) == model::tick_output(table, now, i as int),
            forall|j: int|
                0 <= j < i ==> #[trigger] tcp@.connections[j] == model::tick_one(table[j], now).0,
            forall|j: int| i <= j < table.len() ==> #[trigger] tcp@.connections[j] == table[j],
        decreases tcp.connections@.len() - i,
    {
        let ghost start = tcp@;
        let ghost sent = outgoing_views(out@);
        assert(tcp@.connections[i as int] == tcp.connections@[i as int]@);
        assert(model::tcb_ok(tcp@.connections[i as int]));
        let ip: [u8; 4] = tcp.connections[i].remote_ip;
        match tcb::tick(&mut tcp.connections[i], now) {
            Some(bytes) => {
                out.push((bytes, ip));
            },
            None => {},
        }
        assert(outgoing_views(out@) =~= sent + model::addressed(
            model::as_seq(model::tick_one(table[i as int], now).1),
            table[i as int].remote_ip,
        ));
        assert(tcp@.connections =~= start.connections.update(
            i as int,
            tcp.connections@[i as int]@,
        ));
        proof {
            lemma_replaced(start, i as int, tcp.connections@[i as int]@);
        }
        i = i + 1;
    }
    assert(tcp@.connections =~= model::tick_table(table, now));
    out
}

/// The counters after `n` more acknowledgements.
pub open spec fn acks_counted(c: Counters, n: nat) -> Counters {
    Counters { acks_sent: counted(c.acks_sent, n), ..c }
}

/// Sends the delayed acknowledgements that are overdue. Returns them with the addresses they go
/// to.
pub fn flush_delayed_acks(tcp: &mut Tcp, local_ip: [u8; 4], now: u64) -> (out: Vec<
    (Vec<u8>, [u8; 4]),
>)
    requires
        old(tcp).ok(),
    ensures
        final(tcp).ok(),
        final(tcp)@ == (TcpModel {
            connections: model::acked_table(old(tcp)@.connections, now),
            counters: acks_counted(old(tcp)@.counters, out@.len()),
            ..old(tcp)@
        }),
        outgoing_views(out@) == model::overdue_acks(
            old(tcp)@.connections,
            local_ip@,
            now,
            old(tcp)@.connections.len() as int,
        ),
{
    let ghost before = tcp@;
    let ghost table = before.connections;
    let mut out: Vec<(Vec<u8>, [u8; 4])> = Vec::new();
    let mut i: usize = 0;
    assert(outgoing_views(out@) =~= model::overdue_acks(table, local_ip@, now, 0));
    proof {
        counts_add_up(before.counters.acks_sent, 0, 0);
    }
    while i < tcp.connections.len()
        invariant
            tcp.ok(),
            i <= tcp.connections@.len(),
            table.len() == tcp.connections@.len(),
            table == before.connections,
            tcp@.next_isn == before.next_isn,
            tcp@.counters == acks_counted(before.counters, out@.len()),
            outgoing_views(out@) == model::overdue_acks(table, local_ip@, now, i as int),
            forall|j: int|
                0 <= j < i ==> #[trigger] tcp@.connections[j] == model::acked_table(table, now)[j],
            forall|j: int| i <= j < table.len() ==> #[trigger] tcp@.connections[j] == table[j],
        decreases tcp.connections@.len() - i,
    {
        let ghost start = tcp@;
        let ghost sent = outgoing_views(out@);
        assert(tcp@.connections[i as int] == tcp.connections@[i as int]@);
        assert(model::tcb_ok(tcp@.connections[i as int]));
        let due: u64 = tcp.connections[i].delayed_ack_deadline;
        if due != 0 && now >= due {
            tcb::clear_delayed_ack(&mut tcp.connections[i]);
            let ip: [u8; 4] = tcp.connections[i].remote_ip;
            proof {
                counts_add_up(before.counters.acks_sent, out@.len(), 1);
                counts_add_up(tcp@.counters.acks_sent, 0, 0);
            }
            let bytes: Vec<u8> = tcb::build_ack(
                &tcp.connections[i],
                &mut tcp.counters,
                local_ip,
                ip,
            );
            let ghost view = bytes@;
            out.push((bytes, ip));
            assert(view == model::ack_bytes(table[i as int], local_ip@, ip@));
            assert(outgoing_views(out@) =~= sent.push((view, ip@)));
        }
        assert(tcp@.connections =~= start.connections.update(
            i as int,
            tcp.connections@[i as int]@,
        ));
        proof {
            lemma_replaced(start, i as int, tcp.connections@[i as int]@);
        }
        i = i + 1;
    }
    assert(tcp@.connections =~= model::acked_table(table, now));
    out
}

/// Drops all connections and listeners.
pub fn reset_connections(tcp: &mut Tcp)
    ensures
        final(tcp).ok(),
        final(tcp)@ == (TcpModel { connections: Seq::empty(), ..old(tcp)@ }),
{
    tcp.connections.clear();
    assert(tcp@.connections =~= Seq::empty());
}

/// Runs the round-trip estimator on known samples: a first sample of 40 ticks, the same again,
/// and samples beyond both bounds. Returns whether every answer is the known one.
pub fn rtt_estimator_selftest() -> (passed: bool)
    ensures
        passed == model::estimator_is_exact(),
        passed,
{
    let (srtt, rttvar, rto): (u32, u32, u32) = tcb::rtt_step(0, 0, false, 40);
    let first_ok: bool = srtt == 320 && rttvar == 80 && rto == 120;
    let (_, _, rto2): (u32, u32, u32) = tcb::rtt_step(srtt, rttvar, true, 40);
    let converge_ok: bool = rto2 == 100 && rto2 < rto;
    let (_, _, low): (u32, u32, u32) = tcb::rtt_step(0, 0, false, 0);
    let (_, _, high): (u32, u32, u32) = tcb::rtt_step(0, 0, false, 100_000);
    let clamp_ok: bool = low == model::RTO_MIN_TICKS && high == model::RTO_MAX_TICKS;
    first_ok && converge_ok && clamp_ok
}

} // verus!
