//! What holds of the timers and of the pace at which data is sent and acknowledged.

use vstd::prelude::*;

use crate::net::ether;
use crate::net::stack;
use crate::net::stack::StackModel;
use crate::net::tcp::laws;
use crate::net::tcp::model;
use crate::net::tcp::model::{
    Counters, State, TcbModel, UnackedModel, DELAYED_ACK_TICKS, MAX_RETRIES, MSS,
    RTO_MAX_TICKS, RTO_MIN_TICKS,
};
use crate::net::tcp::segment::{SegmentView, FIN, PROTO_TCP};

verus! {

/// An overdue segment is sent again, unchanged, and stays queued with a later deadline; the
/// congestion window falls back to one segment and the threshold to half the flight.
pub proof fn overdue_segment_is_resent(t: TcbModel, now: u64)
    requires
        t.retransmit.len() > 0,
        now >= t.retransmit[0].deadline,
        t.retransmit[0].tries < MAX_RETRIES,
        t.state != State::TimeWait,
        model::clock_ok(now),
        t.rto > 0,
        t.rto <= RTO_MAX_TICKS,
    ensures
        ({
            let (after, resent) = model::tick_one(t, now);
            let u = t.retransmit[0];
            let v = after.retransmit[0];
            &&& resent == Some(u.segment)
            &&& v.segment == u.segment && v.end_seq == u.end_seq && v.tries == u.tries + 1
            &&& v.deadline > now
            &&& after.retransmit.len() == t.retransmit.len()
            &&& after.cwnd == MSS
            &&& after.ssthresh == model::halved_flight(model::in_flight(t))
            &&& after.state == t.state
            &&& after.snd_buf == t.snd_buf
        }),
{
    let tries = (t.retransmit[0].tries + 1) as u32;
    lemma_backed_off(t.rto, tries);
}

/// A backed-off timeout is positive, and not more than 64 times the timeout.
proof fn lemma_backed_off(rto: u32, tries: u32)
    requires
        0 < rto <= RTO_MAX_TICKS,
    ensures
        0 < model::backed_off(rto, tries) <= 64 * RTO_MAX_TICKS,
{
    let n = model::smaller(tries as int, 6);
    reveal_with_fuel(model::doubled, 7);
    assert(0 < model::doubled(n) <= 64);
    assert(0 < rto * model::doubled(n) <= 64 * rto) by (nonlinear_arith)
        requires
            0 < rto,
            0 < model::doubled(n) <= 64,
    ;
}

/// The timeout doubles from one resend to the next, until the sixth.
pub proof fn timeout_doubles(rto: u32, tries: u32)
    requires
        tries < 6,
    ensures
        model::backed_off(rto, (tries + 1) as u32) == 2 * model::backed_off(rto, tries),
{
    let d = model::doubled(tries as int);
    assert(model::doubled(tries + 1) == 2 * d);
    assert(rto * (2 * d) == 2 * (rto * d)) by (nonlinear_arith);
}

/// A segment stays queued until it is acknowledged, and no longer.
pub proof fn segment_is_kept_until_acknowledged(t: TcbModel, ack: u32, now: u64, u: UnackedModel)
    requires
        t.retransmit.contains(u),
    ensures
        model::after_new_ack(t, ack, now).retransmit.contains(u) <==> !model::seq_leq(
            u.end_seq,
            ack,
        ),
{
    broadcast use vstd::seq_lib::group_filter_ensures;

    let p = model::still_unacked(ack);
    let kept = t.retransmit.filter(p);
    assert(model::after_new_ack(t, ack, now).retransmit == kept);
    if kept.contains(u) {
        let k = choose|k: int| 0 <= k < kept.len() && kept[k] == u;
        assert(p(kept[k]));
    }
    if p(u) {
        let k = choose|k: int| 0 <= k < t.retransmit.len() && t.retransmit[k] == u;
        assert(p(t.retransmit[k]));
    }
}

/// A measured round trip gives a timeout within the bounds.
pub proof fn timeout_is_bounded(t: TcbModel, measured: u32)
    ensures
        RTO_MIN_TICKS <= model::after_rtt(t, measured).rto <= RTO_MAX_TICKS,
{
}

/// A sender with nothing in flight does not wait: what it has is sent as soon as the windows
/// are open.
pub proof fn idle_sender_sends_at_once(t: TcbModel)
    requires
        model::in_flight(t) == 0,
        t.snd_buf.len() > 0,
        t.snd_wnd > 0,
        t.cwnd > 0,
    ensures
        model::next_chunk(t) is Some,
{
}

/// Small writes are gathered: less than a segment waits while data is in flight, unless delays
/// are off.
pub proof fn small_writes_are_gathered(t: TcbModel)
    requires
        model::in_flight(t) > 0,
        0 < t.snd_buf.len() < MSS,
        model::in_flight(t) + t.snd_buf.len() <= t.snd_wnd,
        model::in_flight(t) + t.snd_buf.len() <= t.cwnd,
    ensures
        model::next_chunk(t) == if t.nodelay {
            Some(t.snd_buf.len())
        } else {
            None
        },
{
}

/// A closed window is probed with one byte, and with no more while the probe is in flight.
pub proof fn closed_window_is_probed(t: TcbModel)
    requires
        t.snd_buf.len() > 0,
        t.snd_wnd == 0,
    ensures
        model::next_chunk(t) == if model::in_flight(t) == 0 {
            Some(1nat)
        } else {
            None
        },
{
}

/// In slow start, an acknowledgement opens the window by what it newly acknowledges, and by no
/// more than a segment.
pub proof fn slow_start_adds_a_segment(t: TcbModel, acked: u32)
    requires
        t.cwnd < t.ssthresh,
        t.cwnd <= u32::MAX - MSS,
    ensures
        model::grown_cwnd(t, acked) == t.cwnd + model::smaller(acked as int, MSS as int),
{
}

/// The congestion window after `n` acknowledgements of a full segment each.
pub open spec fn grown_by(t: TcbModel, n: nat) -> u32
    decreases n,
{
    if n == 0 {
        t.cwnd
    } else {
        let before = grown_by(t, (n - 1) as nat);
        model::grown_cwnd(TcbModel { cwnd: before, ..t }, MSS as u32)
    }
}

/// Slow start doubles the window every round trip: once each segment of a full window has been
/// acknowledged, the window is twice what it was.
pub proof fn slow_start_doubles(t: TcbModel, n: nat)
    requires
        t.cwnd == n * MSS,
        2 * t.cwnd <= t.ssthresh,
    ensures
        grown_by(t, n) == 2 * t.cwnd,
{
    lemma_grown_by(t, n);
}

/// Below the threshold, each acknowledgement of a full segment adds a segment.
proof fn lemma_grown_by(t: TcbModel, n: nat)
    requires
        t.cwnd + n * MSS <= t.ssthresh,
    ensures
        grown_by(t, n) == t.cwnd + n * MSS,
    decreases n,
{
    if n > 0 {
        lemma_grown_by(t, (n - 1) as nat);
    }
}

/// In congestion avoidance, an acknowledgement opens the window by a segment at most.
pub proof fn avoidance_is_slower(t: TcbModel, acked: u32)
    requires
        t.cwnd >= t.ssthresh,
        t.cwnd >= MSS,
    ensures
        model::grown_cwnd(t, acked) >= t.cwnd,
        model::grown_cwnd(t, acked) <= t.cwnd + MSS,
{
    assert((MSS * MSS) / t.cwnd as int <= MSS) by (nonlinear_arith)
        requires
            t.cwnd >= MSS,
            MSS == 1024,
    ;
}

/// Every second segment that arrives in order is acknowledged at once; the first waits, but not
/// longer than allowed.
pub proof fn every_second_segment_is_acknowledged(
    t: TcbModel,
    c: Counters,
    local_ip: Seq<u8>,
    remote_ip: Seq<u8>,
    s: SegmentView,
    now: u64,
)
    requires
        s.payload.len() > 0,
        !s.has(FIN),
        model::after_data(t, c, s.seq, s.payload).2 is InOrderDelayable,
        model::clock_ok(now),
        t.unacked_segs == 0 ==> t.delayed_ack_deadline == 0,
    ensures
        ({
            let o = model::after_established_data(t, c, local_ip, remote_ip, s, now);
            if t.unacked_segs >= 1 {
                o.reply is Some && o.tcb.unacked_segs == 0 && o.tcb.delayed_ack_deadline == 0
            } else {
                &&& o.reply is None
                &&& o.tcb.unacked_segs == 1
                &&& o.tcb.delayed_ack_deadline == now + DELAYED_ACK_TICKS
                &&& model::ack_overdue(o.tcb, (now + DELAYED_ACK_TICKS) as u64)
            }
        }),
{
    lemma_data_keeps_the_debt(t, c, s.seq, s.payload);
}

/// Taking data in leaves alone what acknowledgements are owed.
proof fn lemma_data_keeps_the_debt(t: TcbModel, c: Counters, seq: u32, payload: Seq<u8>)
    ensures
        model::after_data(t, c, seq, payload).0.unacked_segs == t.unacked_segs,
        model::after_data(t, c, seq, payload).0.delayed_ack_deadline == t.delayed_ack_deadline,
{
    if model::seq_leq(seq, t.rcv_nxt) {
        let fresh = payload.skip(t.rcv_nxt.wrapping_sub(seq) as int);
        let end = model::advance(seq, payload.len());
        lemma_drain_keeps_the_debt(TcbModel { rx: t.rx + fresh, rcv_nxt: end, ..t });
    }
}

/// Releasing held data leaves alone what acknowledgements are owed.
proof fn lemma_drain_keeps_the_debt(t: TcbModel)
    ensures
        model::drained(t).0.unacked_segs == t.unacked_segs,
        model::drained(t).0.delayed_ack_deadline == t.delayed_ack_deadline,
    decreases t.ooo.len(),
{
    if exists|i: int| model::is_first_continuing(t, i) {
        let i = choose|i: int| model::is_first_continuing(t, i);
        assert(model::is_first_continuing(t, i));
        lemma_drain_keeps_the_debt(model::spliced(t, i));
    }
}

/// A segment that arrives out of order is acknowledged at once, so that the sender learns of the
/// gap.
pub proof fn gap_is_reported_at_once(
    t: TcbModel,
    c: Counters,
    local_ip: Seq<u8>,
    remote_ip: Seq<u8>,
    s: SegmentView,
    now: u64,
)
    requires
        s.payload.len() > 0,
        !model::seq_leq(s.seq, t.rcv_nxt),
        !model::seq_leq(model::advance(s.seq, s.payload.len()), t.rcv_nxt),
    ensures
        model::after_established_data(t, c, local_ip, remote_ip, s, now).reply is Some,
{
}

/// The largest payload of an Ethernet frame.
pub open spec fn mtu() -> int {
    1500
}

/// A data segment fits one Ethernet frame.
pub proof fn data_segment_fits_a_frame(m: StackModel, mac: Seq<u8>, t: TcbModel, n: nat)
    requires
        m.mac.len() == 6,
        m.ip.len() == 4,
        mac.len() == 6,
        t.remote_ip.len() == 4,
        model::next_chunk(t) == Some(n),
    ensures
        stack::ipv4_frame(m, mac, t.remote_ip, PROTO_TCP, model::data_bytes(t, m.ip, n)).len()
            <= ether::HEADER_LEN + mtu(),
{
    laws::chunk_fits_windows(t, m.ip, n, 0);
    assert(model::data_bytes(t, m.ip, n).len() == 20 + n);
}

} // verus!
