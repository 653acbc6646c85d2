//! The life of a connection: which segment takes it from which state to which, what it answers,
//! and which connection of the table a segment is for.

use vstd::prelude::*;

use crate::net::tcp::model;
use crate::net::tcp::model::{Counters, State, TcbModel, TcpModel, UnackedModel};
use crate::net::tcp::receiving;
use crate::net::tcp::receiving::{acknowledgement, past};
use crate::net::tcp::segment;
use crate::net::tcp::segment::SegmentView;

verus! {

/// A connection that is being opened has sent its SYN, whose number is its own next sequence
/// number, and offers the whole receive buffer.
pub proof fn opening_sends_a_syn(
    local_ip: Seq<u8>,
    remote_ip: Seq<u8>,
    local_port: u16,
    remote_port: u16,
    iss: u32,
)
    ensures
        ({
            let t = model::syn_sent(local_port, remote_port, remote_ip, iss);
            &&& t.state == State::SynSent
            &&& t.local_port == local_port
            &&& t.remote_port == remote_port
            &&& t.remote_ip == remote_ip
            &&& t.snd_una == iss
            &&& t.snd_nxt == past(iss, 1)
            &&& t.cwnd == 1024
            &&& t.ssthresh == u32::MAX
            &&& t.rto == 15
            &&& !t.rtt_valid
            &&& !t.nodelay
            &&& t.rx.len() == 0
            &&& t.snd_buf.len() == 0
            &&& t.ooo.len() == 0
            &&& t.retransmit.len() == 0
            &&& segment::encode(
                local_ip,
                remote_ip,
                model::own_segment(t, t.iss, 0, segment::SYN, Seq::empty()),
            ) == segment::encode(
                local_ip,
                remote_ip,
                SegmentView {
                    src_port: local_port,
                    dst_port: remote_port,
                    seq: iss,
                    ack: 0,
                    flags: 0x02,
                    window: 8192,
                    payload: Seq::empty(),
                },
            )
        }),
{
}

/// The answer to our SYN is one that is a SYN itself and acknowledges exactly ours: it
/// establishes the connection, with the peer's numbers and window, and is acknowledged at once.
/// Anything else leaves the connection waiting.
pub proof fn syn_is_answered_by_syn_and_ack(
    t: TcbModel,
    c: Counters,
    local_ip: Seq<u8>,
    remote_ip: Seq<u8>,
    s: SegmentView,
    now: u64,
)
    requires
        t.state == State::SynSent,
        t.rx.len() == 0,
    ensures
        ({
            let o = model::step(t, c, local_ip, remote_ip, s, now);
            if s.flags & 0x02 != 0 && s.flags & 0x10 != 0 && s.ack == t.snd_nxt {
                &&& o.tcb.state == State::Established
                &&& o.tcb.rcv_nxt == past(s.seq, 1)
                &&& o.tcb.irs == s.seq
                &&& o.tcb.snd_una == t.snd_nxt
                &&& o.tcb.snd_nxt == t.snd_nxt
                &&& o.tcb.snd_wnd == s.window
                &&& o.tcb.rx == t.rx
                &&& o.reply == Some(acknowledgement(t, past(s.seq, 1), 0, local_ip, remote_ip))
            } else {
                o == model::silent(t, c)
            }
        }),
{
}

/// A connection that answered a SYN is established by the acknowledgement of its own, learns the
/// peer's window, and says nothing; the same SYN again is answered again; anything else changes
/// nothing.
pub proof fn answered_syn_awaits_its_acknowledgement(
    t: TcbModel,
    c: Counters,
    local_ip: Seq<u8>,
    remote_ip: Seq<u8>,
    s: SegmentView,
    now: u64,
)
    requires
        t.state == State::SynReceived,
        t.rx.len() <= 8192,
    ensures
        ({
            let o = model::step(t, c, local_ip, remote_ip, s, now);
            &&& s.flags & 0x10 != 0 && s.ack == t.snd_nxt ==> o == model::silent(
                TcbModel {
                    state: State::Established,
                    snd_una: s.ack,
                    snd_wnd: s.window as u32,
                    ..t
                },
                c,
            )
            &&& s.flags & 0x02 != 0 && s.flags & 0x10 == 0 && s.seq == t.irs ==> o.tcb == t
                && o.counters == c && o.reply == Some(
                segment::encode(
                    local_ip,
                    remote_ip,
                    SegmentView {
                        src_port: t.local_port,
                        dst_port: t.remote_port,
                        seq: t.iss,
                        ack: t.rcv_nxt,
                        flags: 0x12,
                        window: (8192 - t.rx.len()) as u16,
                        payload: Seq::empty(),
                    },
                ),
            )
            &&& s.flags & 0x10 == 0 && (s.flags & 0x02 == 0 || s.seq != t.irs) ==> o
                == model::silent(t, c)
            &&& s.flags & 0x10 != 0 && s.ack != t.snd_nxt ==> o == model::silent(t, c)
        }),
{
}

/// A closed connection is deaf.
pub proof fn closed_connection_is_deaf(
    t: TcbModel,
    c: Counters,
    local_ip: Seq<u8>,
    remote_ip: Seq<u8>,
    s: SegmentView,
    now: u64,
)
    requires
        t.state == State::Closed,
    ensures
        model::step(t, c, local_ip, remote_ip, s, now) == model::silent(t, c),
{
}

/// Closing our side sends a FIN behind all that was sent, which is queued like any segment and
/// takes a sequence number of its own. An established connection then awaits its
/// acknowledgement and the peer's close, one that the peer has closed only the former. In no
/// other state is there anything to close.
pub proof fn closing_sends_a_fin(t: TcbModel, local_ip: Seq<u8>, now: u64)
    requires
        t.rx.len() <= 8192,
        now + t.rto <= u64::MAX,
    ensures
        model::closing_state(t.state) == match t.state {
            State::Established => Some(State::FinWait1),
            State::CloseWait => Some(State::LastAck),
            _ => None,
        },
        model::fin_bytes(t, local_ip) == segment::encode(
            local_ip,
            t.remote_ip,
            SegmentView {
                src_port: t.local_port,
                dst_port: t.remote_port,
                seq: t.snd_nxt,
                ack: t.rcv_nxt,
                flags: 0x11,
                window: (8192 - t.rx.len()) as u16,
                payload: Seq::empty(),
            },
        ),
        forall|next: State|
            #![trigger model::after_close(t, local_ip, next, now)]
            {
                let after = model::after_close(t, local_ip, next, now);
                &&& after.state == next
                &&& after.snd_nxt == past(t.snd_nxt, 1)
                &&& after.snd_una == t.snd_una
                &&& after.rcv_nxt == t.rcv_nxt
                &&& after.rx == t.rx
                &&& after.retransmit == t.retransmit.push(
                    UnackedModel {
                        end_seq: past(t.snd_nxt, 1) as u32,
                        deadline: (now + t.rto) as u64,
                        tries: 0,
                        sent_at: now,
                        segment: model::fin_bytes(t, local_ip),
                    },
                )
            },
{
}

/// A segment on a connection that is being closed, once its acknowledgement has been processed.
proof fn lemma_reaches_closing(
    t: TcbModel,
    c: Counters,
    local_ip: Seq<u8>,
    remote_ip: Seq<u8>,
    s: SegmentView,
    now: u64,
) -> (r: (TcbModel, Counters))
    requires
        t.state == State::FinWait1 || t.state == State::FinWait2 || t.state == State::CloseWait
            || t.state == State::Closing || t.state == State::LastAck,
    ensures
        receiving::same_receiver(r.0, t),
        s.flags & 0x10 != 0 && s.ack == t.snd_nxt ==> r.0.snd_una == t.snd_nxt,
        s.flags & 0x10 == 0 || s.ack != t.snd_nxt ==> t.snd_una != t.snd_nxt ==> r.0.snd_una
            != t.snd_nxt,
        t.snd_una == t.snd_nxt ==> r.0.snd_una == t.snd_nxt,
        model::step(t, c, local_ip, remote_ip, s, now) == model::on_closing(
            r.0,
            r.1,
            local_ip,
            remote_ip,
            s,
            now,
        ),
{
    let (t1, fast) = model::after_ack(t, s, now);
    (t1, model::ack_processed(c, fast))
}

proof fn lemma_fin_wait(
    t: TcbModel,
    c: Counters,
    local_ip: Seq<u8>,
    remote_ip: Seq<u8>,
    s: SegmentView,
    now: u64,
)
    requires
        t.state == State::FinWait1,
        t.rx.len() <= 8192,
        now + 30 <= u64::MAX,
    ensures
        ({
            let o = model::on_closing(t, c, local_ip, remote_ip, s, now);
            let acked = t.snd_una == t.snd_nxt;
            let closed = s.flags & 0x01 != 0 && s.seq == t.rcv_nxt;
            let both = acknowledgement(
                t,
                past(t.rcv_nxt, 1),
                t.rx.len(),
                local_ip,
                remote_ip,
            );
            &&& o.tcb.rx == t.rx
            &&& o.tcb.snd_una == t.snd_una
            &&& o.tcb.snd_nxt == t.snd_nxt
            &&& closed ==> o.tcb.rcv_nxt == past(t.rcv_nxt, 1)
            &&& !closed ==> o.tcb.rcv_nxt == t.rcv_nxt
            &&& acked && closed ==> o.tcb.state == State::TimeWait && o.tcb.time_wait_deadline
                == now + 30 && o.reply == Some(both)
            &&& acked && !closed ==> o.tcb.state == State::FinWait2 && o.reply is None
            &&& !acked && closed ==> o.tcb.state == State::Closing && o.reply == Some(both)
            &&& !acked && !closed ==> o.tcb.state == State::FinWait1 && o.reply is None
        }),
{
}

/// Our FIN is sent and not acknowledged. Its acknowledgement alone brings us to await the peer's
/// close; the peer's close alone is acknowledged, and we still await that of ours; both together
/// are acknowledged and we linger for 30 ticks. Without either we stay.
pub proof fn first_close_goes_its_way(
    t: TcbModel,
    c: Counters,
    local_ip: Seq<u8>,
    remote_ip: Seq<u8>,
    s: SegmentView,
    now: u64,
)
    requires
        t.state == State::FinWait1,
        t.snd_una != t.snd_nxt,
        t.rx.len() <= 8192,
        now + 30 <= u64::MAX,
    ensures
        ({
            let o = model::step(t, c, local_ip, remote_ip, s, now);
            let acked = s.flags & 0x10 != 0 && s.ack == t.snd_nxt;
            let closed = s.flags & 0x01 != 0 && s.seq == t.rcv_nxt;
            let both = acknowledgement(
                t,
                past(t.rcv_nxt, 1),
                t.rx.len(),
                local_ip,
                remote_ip,
            );
            &&& o.tcb.rx == t.rx
            &&& closed ==> o.tcb.rcv_nxt == past(t.rcv_nxt, 1)
            &&& !closed ==> o.tcb.rcv_nxt == t.rcv_nxt
            &&& acked && closed ==> o.tcb.state == State::TimeWait && o.tcb.time_wait_deadline
                == now + 30 && o.reply == Some(both)
            &&& acked && !closed ==> o.tcb.state == State::FinWait2 && o.reply is None
            &&& !acked && closed ==> o.tcb.state == State::Closing && o.reply == Some(both)
            &&& !acked && !closed ==> o.tcb.state == State::FinWait1 && o.reply is None
        }),
{
    let (t1, c1) = lemma_reaches_closing(t, c, local_ip, remote_ip, s, now);
    lemma_fin_wait(t1, c1, local_ip, remote_ip, s, now);
}

proof fn lemma_fin_awaited(
    t: TcbModel,
    c: Counters,
    local_ip: Seq<u8>,
    remote_ip: Seq<u8>,
    s: SegmentView,
    now: u64,
)
    requires
        t.state == State::FinWait2,
        t.rx.len() <= 8192,
        now + 30 <= u64::MAX,
    ensures
        ({
            let o = model::on_closing(t, c, local_ip, remote_ip, s, now);
            if s.flags & 0x01 != 0 && s.seq == t.rcv_nxt {
                &&& o.tcb.state == State::TimeWait
                &&& o.tcb.time_wait_deadline == now + 30
                &&& o.tcb.rcv_nxt == past(t.rcv_nxt, 1)
                &&& o.reply == Some(
                    acknowledgement(
                        t,
                        past(t.rcv_nxt, 1),
                        t.rx.len(),
                        local_ip,
                        remote_ip,
                    ),
                )
            } else {
                &&& o.tcb.state == State::FinWait2
                &&& o.tcb.rcv_nxt == t.rcv_nxt
                &&& o.reply is None
            }
        }),
{
}

/// Our FIN is acknowledged: we await the peer's close, which is acknowledged, and after which we
/// linger for 30 ticks; nothing else changes the state.
pub proof fn half_closed_awaits_the_peer(
    t: TcbModel,
    c: Counters,
    local_ip: Seq<u8>,
    remote_ip: Seq<u8>,
    s: SegmentView,
    now: u64,
)
    requires
        t.state == State::FinWait2,
        t.rx.len() <= 8192,
        now + 30 <= u64::MAX,
    ensures
        ({
            let o = model::step(t, c, local_ip, remote_ip, s, now);
            if s.flags & 0x01 != 0 && s.seq == t.rcv_nxt {
                &&& o.tcb.state == State::TimeWait
                &&& o.tcb.time_wait_deadline == now + 30
                &&& o.tcb.rcv_nxt == past(t.rcv_nxt, 1)
                &&& o.reply == Some(
                    acknowledgement(
                        t,
                        past(t.rcv_nxt, 1),
                        t.rx.len(),
                        local_ip,
                        remote_ip,
                    ),
                )
            } else {
                &&& o.tcb.state == State::FinWait2
                &&& o.tcb.rcv_nxt == t.rcv_nxt
                &&& o.reply is None
            }
        }),
{
    let (t1, c1) = lemma_reaches_closing(t, c, local_ip, remote_ip, s, now);
    lemma_fin_awaited(t1, c1, local_ip, remote_ip, s, now);
}

/// Both sides have closed at once: the acknowledgement of our FIN lets us linger for 30 ticks.
/// The peer closed first: the acknowledgement of our FIN ends the connection. Before that the
/// state does not change, and in neither is anything sent.
pub proof fn last_acknowledgement_ends_it(
    t: TcbModel,
    c: Counters,
    local_ip: Seq<u8>,
    remote_ip: Seq<u8>,
    s: SegmentView,
    now: u64,
)
    requires
        t.state == State::Closing || t.state == State::LastAck,
        t.snd_una != t.snd_nxt,
        now + 30 <= u64::MAX,
    ensures
        ({
            let o = model::step(t, c, local_ip, remote_ip, s, now);
            let acked = s.flags & 0x10 != 0 && s.ack == t.snd_nxt;
            &&& o.reply is None
            &&& !acked ==> o.tcb.state == t.state
            &&& acked && t.state == State::LastAck ==> o.tcb.state == State::Closed
            &&& acked && t.state == State::Closing ==> o.tcb.state == State::TimeWait
                && o.tcb.time_wait_deadline == now + 30
        }),
{
    let (t1, c1) = lemma_reaches_closing(t, c, local_ip, remote_ip, s, now);
}

/// The peer's close again, after it was taken, is acknowledged again: the first acknowledgement
/// was lost.
pub proof fn repeated_close_is_acknowledged_again(
    t: TcbModel,
    c: Counters,
    local_ip: Seq<u8>,
    remote_ip: Seq<u8>,
    s: SegmentView,
    now: u64,
)
    requires
        t.state == State::CloseWait || t.state == State::TimeWait,
        t.rx.len() <= 8192,
    ensures
        ({
            let o = model::step(t, c, local_ip, remote_ip, s, now);
            &&& o.tcb.state == t.state
            &&& o.tcb.rcv_nxt == t.rcv_nxt
            &&& o.tcb.rx == t.rx
            &&& o.tcb.time_wait_deadline == t.time_wait_deadline
            &&& o.reply == if s.flags & 0x01 != 0 {
                Some(
                    acknowledgement(t, t.rcv_nxt as int, t.rx.len(), local_ip, remote_ip),
                )
            } else {
                None
            }
        }),
{
    if t.state == State::CloseWait {
        let (t1, c1) = lemma_reaches_closing(t, c, local_ip, remote_ip, s, now);
    }
}

/// Whether a connection is the one between these two ports with that peer.
pub open spec fn is_between(t: TcbModel, remote_ip: Seq<u8>, remote_port: u16, local_port: u16) -> bool {
    &&& t.state != State::Listen
    &&& t.local_port == local_port
    &&& t.remote_port == remote_port
    &&& t.remote_ip == remote_ip
}

/// The first entry of a table that satisfies a predicate is the one that is found.
pub proof fn first_match_is_found(table: Seq<TcbModel>, p: spec_fn(TcbModel) -> bool, i: int)
    requires
        0 <= i < table.len(),
        p(table[i]),
        forall|j: int| 0 <= j < i ==> !p(#[trigger] table[j]),
    ensures
        model::find(table, p) == Some(i),
{
    assert(model::is_first(table, p, i));
    let c = choose|c: int| model::is_first(table, p, c);
    assert(model::is_first(table, p, c));
    if c < i {
        assert(!p(table[c]));
    } else if i < c {
        assert(!p(table[i]));
    }
}

proof fn lemma_none_found(table: Seq<TcbModel>, p: spec_fn(TcbModel) -> bool)
    requires
        forall|j: int| 0 <= j < table.len() ==> !p(#[trigger] table[j]),
    ensures
        model::find(table, p) is None,
{
}

/// A segment is for the connection with its two ports and its sender, and changes no other: that
/// connection takes its step, and what it answers is the answer.
pub proof fn segment_is_for_its_connection(
    m: TcpModel,
    local_ip: Seq<u8>,
    remote_ip: Seq<u8>,
    s: SegmentView,
    now: u64,
    i: int,
)
    requires
        0 <= i < m.connections.len(),
        is_between(m.connections[i], remote_ip, s.src_port, s.dst_port),
        forall|j: int|
            0 <= j < i ==> !is_between(
                #[trigger] m.connections[j],
                remote_ip,
                s.src_port,
                s.dst_port,
            ),
    ensures
        ({
            let (after, reply) = model::on_segment(m, local_ip, remote_ip, s, now);
            let o = model::step(m.connections[i], m.counters, local_ip, remote_ip, s, now);
            &&& after.connections.len() == m.connections.len()
            &&& after.connections[i] == o.tcb
            &&& forall|j: int|
                0 <= j < m.connections.len() && j != i ==> #[trigger] after.connections[j]
                    == m.connections[j]
            &&& after.counters == o.counters
            &&& after.next_isn == m.next_isn
            &&& reply == o.reply
        }),
{
    let p = model::owns_segment(remote_ip, s.src_port, s.dst_port);
    assert forall|j: int| 0 <= j < i implies !p(#[trigger] m.connections[j]) by {
        assert(!is_between(m.connections[j], remote_ip, s.src_port, s.dst_port));
    }
    first_match_is_found(m.connections, p, i);
}

proof fn lemma_listener_becomes(
    listener: TcbModel,
    local_ip: Seq<u8>,
    remote_ip: Seq<u8>,
    s: SegmentView,
    iss: u32,
)
    requires
        is_listener(listener, s.dst_port),
        listener.rx.len() == 0,
    ensures
        ({
            let t = model::syn_received(listener, remote_ip, s, iss);
            &&& t.state == State::SynReceived
            &&& t.local_port == s.dst_port
            &&& t.remote_port == s.src_port
            &&& t.remote_ip == remote_ip
            &&& t.irs == s.seq
            &&& t.rcv_nxt == past(s.seq, 1)
            &&& t.iss == iss
            &&& t.snd_una == iss
            &&& t.snd_nxt == past(iss, 1)
            &&& t.snd_wnd == s.window
            &&& model::syn_ack_bytes(t, local_ip, remote_ip) == segment::encode(
                local_ip,
                remote_ip,
                SegmentView {
                    src_port: s.dst_port,
                    dst_port: s.src_port,
                    seq: iss,
                    ack: past(s.seq, 1) as u32,
                    flags: 0x12,
                    window: 8192,
                    payload: Seq::empty(),
                },
            )
        }),
{
}

proof fn lemma_goes_to_listener(
    m: TcpModel,
    local_ip: Seq<u8>,
    remote_ip: Seq<u8>,
    s: SegmentView,
    now: u64,
    i: int,
)
    requires
        model::find(
            m.connections,
            model::owns_segment(remote_ip, s.src_port, s.dst_port),
        ) is None,
        model::find(m.connections, model::listens_on(s.dst_port)) == Some(i),
        s.flags & 0x02 != 0,
        s.flags & 0x10 == 0,
    ensures
        ({
            let t = model::syn_received(m.connections[i], remote_ip, s, m.next_isn);
            model::on_segment(m, local_ip, remote_ip, s, now) == (
                TcpModel {
                    connections: m.connections.update(i, t),
                    next_isn: m.next_isn.wrapping_add(0x1_0000),
                    ..m
                },
                Some(model::syn_ack_bytes(t, local_ip, remote_ip)),
            )
        }),
{
}

/// A SYN that is for no connection goes to the listener on its port, which becomes the
/// connection: with the SYN's sender, ports, number and window, and a number of its own, which
/// the answer tells together with the acknowledgement of the SYN. No other entry changes.
#[verifier::spinoff_prover]
#[verifier::rlimit(60)]
pub proof fn syn_makes_a_connection(
    m: TcpModel,
    local_ip: Seq<u8>,
    remote_ip: Seq<u8>,
    s: SegmentView,
    now: u64,
    i: int,
)
    requires
        forall|j: int|
            0 <= j < m.connections.len() ==> !is_between(
                #[trigger] m.connections[j],
                remote_ip,
                s.src_port,
                s.dst_port,
            ),
        0 <= i < m.connections.len(),
        forall|j: int| 0 <= j < i ==> !is_listener(#[trigger] m.connections[j], s.dst_port),
        is_listener(m.connections[i], s.dst_port),
        m.connections[i].rx.len() == 0,
        s.flags & 0x02 != 0,
        s.flags & 0x10 == 0,
    ensures
        ({
            let (after, reply) = model::on_segment(m, local_ip, remote_ip, s, now);
            let t = after.connections[i];
            &&& after.connections == m.connections.update(i, t)
            &&& t.state == State::SynReceived
            &&& t.local_port == s.dst_port
            &&& t.remote_port == s.src_port
            &&& t.remote_ip == remote_ip
            &&& t.irs == s.seq
            &&& t.rcv_nxt == past(s.seq, 1)
            &&& t.iss == m.next_isn
            &&& t.snd_una == m.next_isn
            &&& t.snd_nxt == past(m.next_isn, 1)
            &&& t.snd_wnd == s.window
            &&& after.next_isn == past(m.next_isn, 0x1_0000)
            &&& after.counters == m.counters
            &&& reply == Some(
                segment::encode(
                    local_ip,
                    remote_ip,
                    SegmentView {
                        src_port: s.dst_port,
                        dst_port: s.src_port,
                        seq: m.next_isn,
                        ack: past(s.seq, 1) as u32,
                        flags: 0x12,
                        window: 8192,
                        payload: Seq::empty(),
                    },
                ),
            )
        }),
{
    lemma_unknown(m, remote_ip, s);
    let q = model::listens_on(s.dst_port);
    assert forall|j: int| 0 <= j < i implies !q(#[trigger] m.connections[j]) by {
        assert(!is_listener(m.connections[j], s.dst_port));
    }
    first_match_is_found(m.connections, q, i);
    lemma_goes_to_listener(m, local_ip, remote_ip, s, now, i);
    lemma_listener_becomes(m.connections[i], local_ip, remote_ip, s, m.next_isn);
}

/// What is for no connection is dropped without a trace, unless it is a SYN to a listener.
pub proof fn unknown_segment_is_dropped(
    m: TcpModel,
    local_ip: Seq<u8>,
    remote_ip: Seq<u8>,
    s: SegmentView,
    now: u64,
)
    requires
        forall|j: int|
            0 <= j < m.connections.len() ==> !is_between(
                #[trigger] m.connections[j],
                remote_ip,
                s.src_port,
                s.dst_port,
            ),
        s.flags & 0x02 == 0 || s.flags & 0x10 != 0 || forall|j: int|
            0 <= j < m.connections.len() ==> !is_listener(#[trigger] m.connections[j], s.dst_port),
    ensures
        model::on_segment(m, local_ip, remote_ip, s, now) == (m, None::<Seq<u8>>),
{
    lemma_unknown(m, remote_ip, s);
    if s.flags & 0x02 != 0 && s.flags & 0x10 == 0 {
        let q = model::listens_on(s.dst_port);
        assert forall|j: int| 0 <= j < m.connections.len() implies !q(
            #[trigger] m.connections[j],
        ) by {
            assert(!is_listener(m.connections[j], s.dst_port));
        }
        lemma_none_found(m.connections, q);
    }
}

/// Whether an entry is a listener on a port.
pub open spec fn is_listener(t: TcbModel, port: u16) -> bool {
    t.state == State::Listen && t.local_port == port
}

proof fn lemma_unknown(m: TcpModel, remote_ip: Seq<u8>, s: SegmentView)
    requires
        forall|j: int|
            0 <= j < m.connections.len() ==> !is_between(
                #[trigger] m.connections[j],
                remote_ip,
                s.src_port,
                s.dst_port,
            ),
    ensures
        model::find(
            m.connections,
            model::owns_segment(remote_ip, s.src_port, s.dst_port),
        ) is None,
{
    let p = model::owns_segment(remote_ip, s.src_port, s.dst_port);
    assert forall|j: int| 0 <= j < m.connections.len() implies !p(#[trigger] m.connections[j]) by {
        assert(!is_between(m.connections[j], remote_ip, s.src_port, s.dst_port));
    }
    lemma_none_found(m.connections, p);
}

/// Both ends close at once: each takes the other's FIN while its own is under way, acknowledges
/// it, and lingers once its own is acknowledged.
pub proof fn simultaneous_close(
    a: TcbModel,
    c: Counters,
    a_ip: Seq<u8>,
    b_ip: Seq<u8>,
    fin: SegmentView,
    ack: SegmentView,
    now: u64,
    later: u64,
)
    requires
        a.state == State::FinWait1,
        a.snd_una != a.snd_nxt,
        a.rx.len() <= 8192,
        fin.flags == 0x11,
        fin.seq == a.rcv_nxt,
        fin.ack == a.snd_una,
        fin.payload.len() == 0,
        ack.flags == 0x10,
        ack.ack == a.snd_nxt,
        ack.payload.len() == 0,
        now + 30 <= u64::MAX,
        later + 30 <= u64::MAX,
    ensures
        ({
            let one = model::step(a, c, a_ip, b_ip, fin, now);
            let two = model::step(one.tcb, one.counters, a_ip, b_ip, ack, later);
            &&& one.tcb.state == State::Closing
            &&& one.reply == Some(
                acknowledgement(a, past(a.rcv_nxt, 1), a.rx.len(), a_ip, b_ip),
            )
            &&& two.tcb.state == State::TimeWait
            &&& two.tcb.time_wait_deadline == later + 30
            &&& two.reply is None
        }),
{
    assert(0x11u8 & 0x01u8 != 0 && 0x11u8 & 0x10u8 != 0 && 0x10u8 & 0x10u8 != 0) by (bit_vector);
    first_close_goes_its_way(a, c, a_ip, b_ip, fin, now);
    let one = model::step(a, c, a_ip, b_ip, fin, now);
    let (a1, c1) = lemma_reaches_closing(a, c, a_ip, b_ip, fin, now);
    assert(one.tcb.snd_una == a1.snd_una);
    last_acknowledgement_ends_it(one.tcb, one.counters, a_ip, b_ip, ack, later);
}

} // verus!
