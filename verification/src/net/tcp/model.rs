//! What a TCP connection does, as functions on mathematical values.
//!
//! A connection is a [`TcbModel`]. Each `after_..` function gives the connection that follows an
//! event; an [`Outcome`] adds the counters and the segment sent in answer.

use vstd::prelude::*;

use crate::net::tcp::segment;
use crate::net::tcp::segment::SegmentView;
use crate::net::tcp::segment::{ACK, FIN, SYN};

verus! {

/// The largest receive buffer, and so the largest window advertised.
pub const RCV_WINDOW_MAX: usize = 8192;

/// The most stream data in one segment.
pub const MSS: usize = 1024;

/// The congestion window a connection starts with: one segment.
pub const INIT_CWND: u32 = 1024;

/// The slow-start threshold a connection starts with: no threshold.
pub const INIT_SSTHRESH: u32 = 0xFFFF_FFFF;

/// How many duplicate acknowledgements trigger a fast retransmit.
pub const DUP_ACK_THRESHOLD: u32 = 3;

/// The retransmission timeout before any round trip has been measured, in ticks.
pub const RTO_INITIAL_TICKS: u32 = 15;

/// The smallest retransmission timeout.
pub const RTO_MIN_TICKS: u32 = 15;

/// The largest retransmission timeout.
pub const RTO_MAX_TICKS: u32 = 6000;

/// How often one segment is resent before the connection is given up.
pub const MAX_RETRIES: u32 = 5;

/// How long an acknowledgement may be delayed.
pub const DELAYED_ACK_TICKS: u64 = 5;

/// How long the active closer lingers in TIME_WAIT.
pub const TIME_WAIT_TICKS: u64 = 30;

/// How many segments are held while a gap before them is open.
pub const MAX_OOO_SEGMENTS: usize = 16;

/// The first initial sequence number, and the distance between one and the next.
pub const ISN_STRIDE: u32 = 0x0001_0000;

/// The connection lifecycle states (RFC 793).
#[derive(Clone, Copy, PartialEq, Eq, Debug, Structural)]
pub enum State {
    Closed,
    Listen,
    SynSent,
    SynReceived,
    Established,
    /// Our FIN is sent and not yet acknowledged.
    FinWait1,
    /// Our FIN is acknowledged; the peer has not finished.
    FinWait2,
    /// The peer has finished; we have not.
    CloseWait,
    /// Both sides have finished and our FIN is not yet acknowledged.
    Closing,
    /// The peer finished first and our FIN is not yet acknowledged.
    LastAck,
    /// Both directions are closed; lingering for a lost final acknowledgement.
    TimeWait,
}

/// An outbound segment that is not yet acknowledged.
#[verifier::ext_equal]
pub struct UnackedModel {
    /// The sequence number just past the segment.
    pub end_seq: u32,
    /// The tick at which to resend it.
    pub deadline: u64,
    /// How often it has been resent.
    pub tries: u32,
    /// The tick at which it was first sent.
    pub sent_at: u64,
    pub segment: Seq<u8>,
}

/// A received segment held until the gap before it closes.
#[verifier::ext_equal]
pub struct OutOfOrderModel {
    pub seq: u32,
    pub data: Seq<u8>,
}

/// Everything tracked for one connection.
#[verifier::ext_equal]
pub struct TcbModel {
    pub state: State,
    pub local_port: u16,
    pub remote_port: u16,
    pub remote_ip: Seq<u8>,
    /// The oldest unacknowledged sequence number.
    pub snd_una: u32,
    /// The next sequence number to send.
    pub snd_nxt: u32,
    /// Our initial sequence number.
    pub iss: u32,
    /// The window the peer advertised last.
    pub snd_wnd: u32,
    /// Data queued and not yet sent.
    pub snd_buf: Seq<u8>,
    /// The congestion window.
    pub cwnd: u32,
    /// The slow-start threshold.
    pub ssthresh: u32,
    /// Consecutive duplicate acknowledgements.
    pub dup_acks: u32,
    pub in_fast_recovery: bool,
    /// The smoothed round-trip time, scaled by 8.
    pub srtt: u32,
    /// The round-trip time variation, scaled by 4.
    pub rttvar: u32,
    /// The retransmission timeout in ticks.
    pub rto: u32,
    /// Whether a round trip has been measured.
    pub rtt_valid: bool,
    /// In-order data segments not yet acknowledged.
    pub unacked_segs: u32,
    /// The tick by which a delayed acknowledgement is due; zero if none is.
    pub delayed_ack_deadline: u64,
    /// Whether small segments are sent at once.
    pub nodelay: bool,
    /// The next sequence number expected from the peer.
    pub rcv_nxt: u32,
    /// The peer's initial sequence number.
    pub irs: u32,
    /// In-order data not yet read.
    pub rx: Seq<u8>,
    /// Data held behind a gap.
    pub ooo: Seq<OutOfOrderModel>,
    /// Segments sent and not yet acknowledged, oldest first.
    pub retransmit: Seq<UnackedModel>,
    /// The tick at which TIME_WAIT ends.
    pub time_wait_deadline: u64,
}

/// Totals over all connections.
#[derive(Clone, Copy)]
pub struct Counters {
    pub out_of_order_buffered: u64,
    pub data_segments_sent: u64,
    pub fast_retransmits: u64,
    pub acks_sent: u64,
}

/// The connection table, the generator of initial sequence numbers and the totals.
#[verifier::ext_equal]
pub struct TcpModel {
    pub connections: Seq<TcbModel>,
    pub next_isn: u32,
    pub counters: Counters,
}

/// What an event leads to: the connection, the totals and the segment to send, if any.
#[verifier::ext_equal]
pub struct Outcome {
    pub tcb: TcbModel,
    pub counters: Counters,
    pub reply: Option<Seq<u8>>,
}

/// What holds of every connection: the estimates stay within their bounds, no more than one
/// acknowledgement is owed, and nothing has been resent too often.
pub open spec fn tcb_ok(t: TcbModel) -> bool {
    &&& RTO_MIN_TICKS <= t.rto <= RTO_MAX_TICKS
    &&& MSS <= t.cwnd
    &&& 2 * MSS <= t.ssthresh
    &&& t.unacked_segs <= 1
    &&& t.remote_ip.len() == 4
    &&& forall|i: int| 0 <= i < t.retransmit.len() ==> (#[trigger] t.retransmit[i]).tries <= MAX_RETRIES
}

/// What holds of every table entry: no more is received than the receive buffer holds, and
/// nothing by a listener.
pub open spec fn entry_ok(t: TcbModel) -> bool {
    &&& tcb_ok(t)
    &&& t.rx.len() <= RCV_WINDOW_MAX
    &&& t.state == State::Listen ==> t.rx.len() == 0
}

/// No two listeners share a port.
pub open spec fn listeners_differ(table: Seq<TcbModel>) -> bool {
    forall|i: int, j: int|
        0 <= i < j < table.len() && (#[trigger] table[i]).state == State::Listen && (
        #[trigger] table[j]).state == State::Listen ==> table[i].local_port != table[j].local_port
}

/// What holds of the connection table.
pub open spec fn tcp_ok(m: TcpModel) -> bool {
    &&& forall|i: int| 0 <= i < m.connections.len() ==> entry_ok(#[trigger] m.connections[i])
    &&& listeners_differ(m.connections)
}

/// The clock is so far from its end that no deadline computed from it wraps: the longest is the
/// largest timeout backed off six times.
pub open spec fn clock_ok(now: u64) -> bool {
    now + RTO_MAX_TICKS * 64 <= u64::MAX
}

/// `a` is at or before `b` on the circle of sequence numbers: `b` lies in the half ahead of `a`.
pub open spec fn seq_leq(a: u32, b: u32) -> bool {
    b.wrapping_sub(a) < 0x8000_0000
}

/// `a` is strictly before `b` on the circle of sequence numbers.
pub open spec fn seq_lt(a: u32, b: u32) -> bool {
    a != b && seq_leq(a, b)
}

/// The sequence number `n` positions past `a`.
pub open spec fn advance(a: u32, n: nat) -> u32 {
    a.wrapping_add((n % 0x1_0000_0000) as u32)
}

/// The window to advertise with `used` unread bytes: the free space in the receive buffer.
pub open spec fn window_for(used: nat) -> u16 {
    if used >= RCV_WINDOW_MAX {
        0
    } else {
        (RCV_WINDOW_MAX - used) as u16
    }
}

/// The larger of two numbers.
pub open spec fn larger(a: int, b: int) -> int {
    if a >= b {
        a
    } else {
        b
    }
}

/// The smaller of two numbers.
pub open spec fn smaller(a: int, b: int) -> int {
    if a <= b {
        a
    } else {
        b
    }
}

/// Sent and not yet acknowledged.
pub open spec fn in_flight(t: TcbModel) -> u32 {
    t.snd_nxt.wrapping_sub(t.snd_una)
}

/// A segment of this connection with its current sequence numbers and window.
pub open spec fn own_segment(t: TcbModel, seq: u32, ack: u32, flags: u8, payload: Seq<u8>) -> SegmentView {
    SegmentView {
        src_port: t.local_port,
        dst_port: t.remote_port,
        seq,
        ack,
        flags,
        window: window_for(t.rx.len()),
        payload,
    }
}

/// The bare acknowledgement of everything received in order.
pub open spec fn ack_bytes(t: TcbModel, local_ip: Seq<u8>, remote_ip: Seq<u8>) -> Seq<u8> {
    segment::encode(
        local_ip,
        remote_ip,
        own_segment(t, t.snd_nxt, t.rcv_nxt, ACK, Seq::empty()),
    )
}

/// The counters after one more acknowledgement.
pub open spec fn ack_counted(c: Counters) -> Counters {
    Counters { acks_sent: c.acks_sent.wrapping_add(1), ..c }
}

/// A connection on which nothing has happened yet.
pub open spec fn fresh_tcb(state: State, local_port: u16, remote_port: u16, remote_ip: Seq<u8>) -> TcbModel {
    TcbModel {
        state,
        local_port,
        remote_port,
        remote_ip,
        snd_una: 0,
        snd_nxt: 0,
        iss: 0,
        snd_wnd: 0,
        snd_buf: Seq::empty(),
        cwnd: INIT_CWND,
        ssthresh: INIT_SSTHRESH,
        dup_acks: 0,
        in_fast_recovery: false,
        srtt: 0,
        rttvar: 0,
        rto: RTO_INITIAL_TICKS,
        rtt_valid: false,
        unacked_segs: 0,
        delayed_ack_deadline: 0,
        nodelay: false,
        rcv_nxt: 0,
        irs: 0,
        rx: Seq::empty(),
        ooo: Seq::empty(),
        retransmit: Seq::empty(),
        time_wait_deadline: 0,
    }
}

/// A listener on `local_port`.
pub open spec fn listener(local_port: u16) -> TcbModel {
    fresh_tcb(State::Listen, local_port, 0, seq![0u8, 0u8, 0u8, 0u8])
}

/// A connection that has sent its SYN with sequence number `iss`.
pub open spec fn syn_sent(local_port: u16, remote_port: u16, remote_ip: Seq<u8>, iss: u32) -> TcbModel {
    TcbModel {
        snd_una: iss,
        snd_nxt: iss.wrapping_add(1),
        iss,
        ..fresh_tcb(State::SynSent, local_port, remote_port, remote_ip)
    }
}

// Round-trip times.

/// The estimator after the measurement `m` (RFC 6298): the smoothed time scaled by 8, the
/// variation scaled by 4, and the timeout. The scaled values keep their low 32 bits.
pub open spec fn rtt_estimate(srtt: u32, rttvar: u32, valid: bool, m: u32) -> (u32, u32, u32) {
    let error = m - srtt / 8;
    let deviation = if error >= 0 {
        error
    } else {
        -error
    };
    let s = if valid {
        srtt + error
    } else {
        m * 8
    };
    let v = if valid {
        rttvar + deviation - rttvar / 4
    } else {
        m * 2
    };
    let s32 = (s % 0x1_0000_0000) as u32;
    let v32 = (v % 0x1_0000_0000) as u32;
    (s32, v32, clamp_rto(s32 / 8 + larger(1, v32 as int)))
}

/// Whether the estimator gives the known answers: a first measurement of 40 ticks gives 40 with a
/// variation of 20 and a timeout of 120, the same again lets the timeout fall to 100, and
/// measurements beyond both ends give the bounds.
pub open spec fn estimator_is_exact() -> bool {
    let (srtt, rttvar, rto) = rtt_estimate(0, 0, false, 40);
    &&& (srtt, rttvar, rto) == (320u32, 80u32, 120u32)
    &&& rtt_estimate(srtt, rttvar, true, 40).2 == 100
    &&& rtt_estimate(0, 0, false, 0).2 == RTO_MIN_TICKS
    &&& rtt_estimate(0, 0, false, 100_000).2 == RTO_MAX_TICKS
}

/// A timeout brought within the bounds.
pub open spec fn clamp_rto(ticks: int) -> u32 {
    smaller(larger(ticks, RTO_MIN_TICKS as int), RTO_MAX_TICKS as int) as u32
}

/// The connection after a measured round trip.
pub open spec fn after_rtt(t: TcbModel, measured: u32) -> TcbModel {
    let (srtt, rttvar, rto) = rtt_estimate(t.srtt, t.rttvar, t.rtt_valid, measured);
    TcbModel { srtt, rttvar, rto, rtt_valid: true, ..t }
}

/// The latest tick at which one of the first `n` queued segments was sent that `una`
/// acknowledges and that was never resent (the acknowledgement of a resent one is ambiguous).
pub open spec fn latest_clean_send(q: Seq<UnackedModel>, una: u32, n: int) -> Option<u64>
    decreases n,
{
    if n <= 0 {
        None
    } else {
        let earlier = latest_clean_send(q, una, n - 1);
        let u = q[n - 1];
        if u.tries == 0 && seq_leq(u.end_seq, una) {
            match earlier {
                Some(t) => Some(larger(t as int, u.sent_at as int) as u64),
                None => Some(u.sent_at),
            }
        } else {
            earlier
        }
    }
}

/// The ticks from `sent` to `now`, none if the clock is behind, in 32 bits.
pub open spec fn ticks_since(sent: u64, now: u64) -> u32 {
    if now >= sent {
        ((now - sent) % 0x1_0000_0000) as u32
    } else {
        0
    }
}

// Acknowledgements and the congestion window.

/// `a + b`, or the largest 32-bit number if that is smaller.
pub open spec fn capped_add(a: u32, b: int) -> u32 {
    smaller(a + b, u32::MAX as int) as u32
}

/// The congestion window after `acked` bytes are newly acknowledged: in slow start it grows by
/// the bytes acknowledged, at most one segment; in congestion avoidance by about one segment
/// per round trip.
pub open spec fn grown_cwnd(t: TcbModel, acked: u32) -> u32 {
    if t.cwnd < t.ssthresh {
        capped_add(t.cwnd, smaller(acked as int, MSS as int))
    } else {
        capped_add(t.cwnd, larger((MSS * MSS) / t.cwnd as int, 1))
    }
}

/// Half the flight, and at least two segments.
pub open spec fn halved_flight(flight: u32) -> u32 {
    larger(flight as int / 2, 2 * MSS) as u32
}

/// An acknowledgement that confirms nothing new while data is outstanding, and carries nothing
/// else.
pub open spec fn is_duplicate_ack(t: TcbModel, s: SegmentView) -> bool {
    &&& s.ack == t.snd_una
    &&& in_flight(t) > 0
    &&& s.payload.len() == 0
    &&& s.flags & (SYN | FIN) == 0
}

/// An acknowledgement of data that is outstanding.
pub open spec fn acks_new_data(t: TcbModel, s: SegmentView) -> bool {
    0 < s.ack.wrapping_sub(t.snd_una) <= in_flight(t)
}

/// A queued segment that `una` does not yet cover.
pub open spec fn still_unacked(una: u32) -> spec_fn(UnackedModel) -> bool {
    |u: UnackedModel| !seq_leq(u.end_seq, una)
}

/// The connection after a duplicate acknowledgement, and whether it is the one that calls for a
/// fast retransmit.
pub open spec fn after_duplicate_ack(t: TcbModel) -> (TcbModel, bool) {
    let count = t.dup_acks.wrapping_add(1);
    if count == DUP_ACK_THRESHOLD {
        let ssthresh = halved_flight(in_flight(t));
        (
            TcbModel {
                dup_acks: count,
                ssthresh,
                cwnd: (ssthresh + DUP_ACK_THRESHOLD * MSS) as u32,
                in_fast_recovery: true,
                ..t
            },
            true,
        )
    } else if t.in_fast_recovery {
        (TcbModel { dup_acks: count, cwnd: capped_add(t.cwnd, MSS as int), ..t }, false)
    } else {
        (TcbModel { dup_acks: count, ..t }, false)
    }
}

/// The connection after an acknowledgement of everything before `ack`.
pub open spec fn after_new_ack(t: TcbModel, ack: u32, now: u64) -> TcbModel {
    let paced = TcbModel {
        cwnd: if t.in_fast_recovery {
            t.ssthresh
        } else {
            grown_cwnd(t, ack.wrapping_sub(t.snd_una))
        },
        in_fast_recovery: false,
        dup_acks: 0,
        snd_una: ack,
        ..t
    };
    let timed = match latest_clean_send(t.retransmit, ack, t.retransmit.len() as int) {
        Some(sent) => after_rtt(paced, ticks_since(sent, now)),
        None => paced,
    };
    TcbModel { retransmit: t.retransmit.filter(still_unacked(ack)), ..timed }
}

/// An acknowledgement of nothing that has not been sent, and of no less than is acknowledged
/// already.
pub open spec fn is_acceptable_ack(t: TcbModel, s: SegmentView) -> bool {
    s.ack.wrapping_sub(t.snd_una) <= in_flight(t)
}

/// The connection after the acknowledgement in `s`, and whether a fast retransmit is due. The
/// peer's window is learned from every acceptable acknowledgement; any other is ignored.
pub open spec fn after_ack(t: TcbModel, s: SegmentView, now: u64) -> (TcbModel, bool) {
    if !s.has(ACK) || !is_acceptable_ack(t, s) {
        (t, false)
    } else {
        let t = TcbModel { snd_wnd: s.window as u32, ..t };
        if is_duplicate_ack(t, s) {
            after_duplicate_ack(t)
        } else if acks_new_data(t, s) {
            (after_new_ack(t, s.ack, now), false)
        } else {
            (t, false)
        }
    }
}

/// The counters after the acknowledgement in `s`.
pub open spec fn ack_processed(c: Counters, fast: bool) -> Counters {
    if fast {
        Counters { fast_retransmits: c.fast_retransmits.wrapping_add(1), ..c }
    } else {
        c
    }
}

/// The connection after a retransmission timeout: slow start begins again.
pub open spec fn after_rto(t: TcbModel) -> TcbModel {
    TcbModel { ssthresh: halved_flight(in_flight(t)), cwnd: MSS as u32, ..t }
}

/// The connection entering TIME_WAIT.
pub open spec fn lingering(t: TcbModel, now: u64) -> TcbModel {
    TcbModel { state: State::TimeWait, time_wait_deadline: (now + TIME_WAIT_TICKS) as u64, ..t }
}

/// The connection with no acknowledgement owed.
pub open spec fn nothing_owed(t: TcbModel) -> TcbModel {
    TcbModel { unacked_segs: 0, delayed_ack_deadline: 0, ..t }
}

// Receiving data.

/// The sequence number just past a held segment.
pub open spec fn held_end(o: OutOfOrderModel) -> u32 {
    advance(o.seq, o.data.len())
}

/// A held segment reaches the next expected position `r` and goes beyond it.
pub open spec fn touches(o: OutOfOrderModel, r: u32) -> bool {
    seq_leq(o.seq, r) && seq_lt(r, held_end(o))
}

/// What a held segment has from the next expected position `r` on.
pub open spec fn part_from(o: OutOfOrderModel, r: u32) -> Seq<u8> {
    o.data.skip(r.wrapping_sub(o.seq) as int)
}

/// A held segment continues the stream, and what it adds fits the receive buffer.
pub open spec fn continues(t: TcbModel, o: OutOfOrderModel) -> bool {
    touches(o, t.rcv_nxt) && part_from(o, t.rcv_nxt).len() <= free_space(t)
}

/// `i` is the first held segment that continues the stream and fits.
pub open spec fn is_first_continuing(t: TcbModel, i: int) -> bool {
    &&& 0 <= i < t.ooo.len()
    &&& continues(t, t.ooo[i])
    &&& forall|j: int| 0 <= j < i ==> !continues(t, #[trigger] t.ooo[j])
}

/// A held segment with data past `r`.
pub open spec fn ahead_of(r: u32) -> spec_fn(OutOfOrderModel) -> bool {
    |o: OutOfOrderModel| !seq_leq(held_end(o), r)
}

/// The connection after the held segment `i`, which continues the stream, is
/// appended to the stream. The last held segment takes its place.
pub open spec fn spliced(t: TcbModel, i: int) -> TcbModel {
    let o = t.ooo[i];
    TcbModel {
        rx: t.rx + part_from(o, t.rcv_nxt),
        rcv_nxt: held_end(o),
        ooo: t.ooo.update(i, t.ooo.last()).drop_last(),
        ..t
    }
}

/// The connection after every held segment that has become contiguous and fits is appended and
/// those that have become old are dropped, and whether any was appended. One that does not fit
/// stays held.
pub open spec fn drained(t: TcbModel) -> (TcbModel, bool)
    decreases t.ooo.len(),
{
    if exists|i: int| is_first_continuing(t, i) {
        let i = choose|i: int| is_first_continuing(t, i);
        (drained(spliced(t, i)).0, true)
    } else {
        (TcbModel { ooo: t.ooo.filter(ahead_of(t.rcv_nxt)), ..t }, false)
    }
}

/// A held segment that contains all of `seq..end`.
pub open spec fn covers(o: OutOfOrderModel, seq: u32, end: u32) -> bool {
    seq_leq(o.seq, seq) && seq_leq(end, held_end(o))
}

/// Whether a segment ahead of the stream is worth holding: none held covers it, and there is
/// room.
pub open spec fn worth_holding(t: TcbModel, seq: u32, payload: Seq<u8>) -> bool {
    &&& t.ooo.len() < MAX_OOO_SEGMENTS
    &&& !exists|i: int|
        0 <= i < t.ooo.len() && covers(#[trigger] t.ooo[i], seq, advance(seq, payload.len()))
}

/// What accepting a data segment calls for: an acknowledgement at once, or one that may wait.
pub enum Accept {
    /// Plain in-order data: its acknowledgement may be delayed.
    InOrderDelayable,
    /// Out of order, filling a gap, old, or refused for lack of room.
    AckNow,
}

/// The room left in the receive buffer.
pub open spec fn free_space(t: TcbModel) -> int {
    larger(RCV_WINDOW_MAX - t.rx.len(), 0)
}

/// Accepting `payload` at `seq`: the connection, the totals, and when to acknowledge. Bytes
/// before the next expected position are dropped; data ahead of it is held; data that does not
/// fit the receive buffer is refused.
pub open spec fn after_data(t: TcbModel, c: Counters, seq: u32, payload: Seq<u8>) -> (
    TcbModel,
    Counters,
    Accept,
) {
    let end = advance(seq, payload.len());
    if seq_leq(end, t.rcv_nxt) {
        (t, c, Accept::AckNow)
    } else if seq_leq(seq, t.rcv_nxt) {
        let fresh = payload.skip(t.rcv_nxt.wrapping_sub(seq) as int);
        if fresh.len() > free_space(t) {
            (t, c, Accept::AckNow)
        } else {
            let (drained, filled) = drained(TcbModel { rx: t.rx + fresh, rcv_nxt: end, ..t });
            (
                drained,
                c,
                if filled {
                    Accept::AckNow
                } else {
                    Accept::InOrderDelayable
                },
            )
        }
    } else if worth_holding(t, seq, payload) {
        (
            TcbModel { ooo: t.ooo.push(OutOfOrderModel { seq, data: payload }), ..t },
            Counters { out_of_order_buffered: c.out_of_order_buffered.wrapping_add(1), ..c },
            Accept::AckNow,
        )
    } else {
        (t, c, Accept::AckNow)
    }
}

// The state machine.

/// A FIN at exactly the next expected position, behind the segment's data.
pub open spec fn fin_in_order(t: TcbModel, s: SegmentView) -> bool {
    s.has(FIN) && advance(s.seq, s.payload.len()) == t.rcv_nxt
}

/// The outcome in which `t` answers with an acknowledgement, after which none is owed.
pub open spec fn answered(t: TcbModel, c: Counters, local_ip: Seq<u8>, remote_ip: Seq<u8>) -> Outcome {
    Outcome {
        tcb: nothing_owed(t),
        counters: ack_counted(c),
        reply: Some(ack_bytes(t, local_ip, remote_ip)),
    }
}

/// The outcome in which nothing is sent.
pub open spec fn silent(t: TcbModel, c: Counters) -> Outcome {
    Outcome { tcb: t, counters: c, reply: None }
}

/// A segment on an established connection, once its acknowledgement has been processed.
pub open spec fn after_established_data(
    t: TcbModel,
    c: Counters,
    local_ip: Seq<u8>,
    remote_ip: Seq<u8>,
    s: SegmentView,
    now: u64,
) -> Outcome {
    let has_data = s.payload.len() > 0;
    let (t1, c1, accept) = if has_data {
        after_data(t, c, s.seq, s.payload)
    } else {
        (t, c, Accept::InOrderDelayable)
    };
    let fin = fin_in_order(t1, s);
    let t2 = if fin {
        TcbModel { rcv_nxt: t1.rcv_nxt.wrapping_add(1), state: State::CloseWait, ..t1 }
    } else {
        t1
    };
    if fin || (has_data && accept is AckNow) {
        answered(t2, c1, local_ip, remote_ip)
    } else if has_data {
        if t2.unacked_segs >= 1 {
            answered(t2, c1, local_ip, remote_ip)
        } else {
            silent(
                TcbModel {
                    unacked_segs: (t2.unacked_segs + 1) as u32,
                    delayed_ack_deadline: if t2.delayed_ack_deadline == 0 {
                        (now + DELAYED_ACK_TICKS) as u64
                    } else {
                        t2.delayed_ack_deadline
                    },
                    ..t2
                },
                c1,
            )
        }
    } else {
        silent(t2, c1)
    }
}

/// The oldest unacknowledged segment sent again, its timer restarted.
pub open spec fn fast_retransmitted(t: TcbModel, now: u64) -> TcbModel {
    let head = UnackedModel { deadline: (now + t.rto) as u64, ..t.retransmit[0] };
    TcbModel { retransmit: t.retransmit.update(0, head), ..t }
}

/// A segment on an established connection.
pub open spec fn on_established(
    t: TcbModel,
    c: Counters,
    local_ip: Seq<u8>,
    remote_ip: Seq<u8>,
    s: SegmentView,
    now: u64,
) -> Outcome {
    let (t1, fast) = after_ack(t, s, now);
    let c1 = ack_processed(c, fast);
    if fast && t1.retransmit.len() > 0 {
        Outcome {
            tcb: fast_retransmitted(t1, now),
            counters: c1,
            reply: Some(t1.retransmit[0].segment),
        }
    } else {
        after_established_data(t1, c1, local_ip, remote_ip, s, now)
    }
}

/// A connection awaiting the answer to its SYN: only a SYN with the right acknowledgement
/// completes the handshake.
pub open spec fn on_syn_sent(
    t: TcbModel,
    c: Counters,
    local_ip: Seq<u8>,
    remote_ip: Seq<u8>,
    s: SegmentView,
) -> Outcome {
    if s.has(SYN) && s.has(ACK) && s.ack == t.snd_nxt {
        let open = TcbModel {
            irs: s.seq,
            rcv_nxt: s.seq.wrapping_add(1),
            snd_una: s.ack,
            snd_wnd: s.window as u32,
            state: State::Established,
            ..t
        };
        Outcome { tcb: open, counters: c, reply: Some(ack_bytes(open, local_ip, remote_ip)) }
    } else {
        silent(t, c)
    }
}

/// The SYN that answers a SYN.
pub open spec fn syn_ack_bytes(t: TcbModel, local_ip: Seq<u8>, remote_ip: Seq<u8>) -> Seq<u8> {
    segment::encode(
        local_ip,
        remote_ip,
        own_segment(t, t.iss, t.rcv_nxt, segment::SYN_ACK, Seq::empty()),
    )
}

/// A connection that has answered a SYN: a repeated SYN is answered again, and the
/// acknowledgement of ours establishes the connection.
pub open spec fn on_syn_received(
    t: TcbModel,
    c: Counters,
    local_ip: Seq<u8>,
    remote_ip: Seq<u8>,
    s: SegmentView,
) -> Outcome {
    if s.has(SYN) && !s.has(ACK) && s.seq == t.irs {
        Outcome { tcb: t, counters: c, reply: Some(syn_ack_bytes(t, local_ip, remote_ip)) }
    } else if s.has(ACK) && s.ack == t.snd_nxt {
        silent(
            TcbModel {
                snd_una: s.ack,
                snd_wnd: s.window as u32,
                state: State::Established,
                ..t
            },
            c,
        )
    } else {
        silent(t, c)
    }
}

/// The connection past a FIN of the peer.
pub open spec fn fin_taken(t: TcbModel) -> TcbModel {
    TcbModel { rcv_nxt: t.rcv_nxt.wrapping_add(1), ..t }
}

/// A segment on a connection on which a FIN has been sent or received. `t` has processed the
/// acknowledgement in `s` already, except in TIME_WAIT.
pub open spec fn on_closing(
    t: TcbModel,
    c: Counters,
    local_ip: Seq<u8>,
    remote_ip: Seq<u8>,
    s: SegmentView,
    now: u64,
) -> Outcome {
    let our_fin_acked = t.snd_una == t.snd_nxt;
    let peer_fin = s.has(FIN) && s.seq == t.rcv_nxt;
    match t.state {
        State::FinWait1 => {
            if our_fin_acked && peer_fin {
                answered(lingering(fin_taken(t), now), c, local_ip, remote_ip)
            } else if our_fin_acked {
                silent(TcbModel { state: State::FinWait2, ..t }, c)
            } else if peer_fin {
                answered(
                    TcbModel { state: State::Closing, ..fin_taken(t) },
                    c,
                    local_ip,
                    remote_ip,
                )
            } else {
                silent(t, c)
            }
        },
        State::FinWait2 => {
            if peer_fin {
                answered(lingering(fin_taken(t), now), c, local_ip, remote_ip)
            } else {
                silent(t, c)
            }
        },
        State::CloseWait | State::TimeWait => {
            if s.has(FIN) {
                answered(t, c, local_ip, remote_ip)
            } else {
                silent(t, c)
            }
        },
        State::Closing => {
            if our_fin_acked {
                silent(lingering(t, now), c)
            } else {
                silent(t, c)
            }
        },
        State::LastAck => {
            if our_fin_acked {
                silent(TcbModel { state: State::Closed, ..t }, c)
            } else {
                silent(t, c)
            }
        },
        _ => silent(t, c),
    }
}

/// What one received segment does to a connection.
pub open spec fn step(
    t: TcbModel,
    c: Counters,
    local_ip: Seq<u8>,
    remote_ip: Seq<u8>,
    s: SegmentView,
    now: u64,
) -> Outcome {
    match t.state {
        State::SynSent => on_syn_sent(t, c, local_ip, remote_ip, s),
        State::SynReceived => on_syn_received(t, c, local_ip, remote_ip, s),
        State::Established => on_established(t, c, local_ip, remote_ip, s, now),
        State::Closed | State::Listen => silent(t, c),
        State::TimeWait => on_closing(t, c, local_ip, remote_ip, s, now),
        _ => {
            let (t1, fast) = after_ack(t, s, now);
            on_closing(t1, ack_processed(c, fast), local_ip, remote_ip, s, now)
        },
    }
}

// The connection table.

/// Connections with these two ports.
pub open spec fn has_ports(local_port: u16, remote_port: u16) -> spec_fn(TcbModel) -> bool {
    |t: TcbModel| t.local_port == local_port && t.remote_port == remote_port
}

/// Established connections with these two ports.
pub open spec fn established_on(local_port: u16, remote_port: u16) -> spec_fn(TcbModel) -> bool {
    |t: TcbModel|
        t.state == State::Established && t.local_port == local_port && t.remote_port == remote_port
}

/// Connections, not listeners, that a segment from `remote_ip` between these ports belongs to.
pub open spec fn owns_segment(remote_ip: Seq<u8>, src_port: u16, dst_port: u16) -> spec_fn(
    TcbModel,
) -> bool {
    |t: TcbModel|
        t.state != State::Listen && t.local_port == dst_port && t.remote_port == src_port
            && t.remote_ip == remote_ip
}

/// Listeners on this port.
pub open spec fn listens_on(port: u16) -> spec_fn(TcbModel) -> bool {
    |t: TcbModel| t.state == State::Listen && t.local_port == port
}

/// Established connections on this local port whose ports are not among `claimed`.
pub open spec fn acceptable(port: u16, claimed: Seq<(u16, u16)>) -> spec_fn(TcbModel) -> bool {
    |t: TcbModel|
        t.state == State::Established && t.local_port == port && !claimed.contains(
            (t.local_port, t.remote_port),
        )
}

/// `i` is the first entry of the table that satisfies `p`.
pub open spec fn is_first(table: Seq<TcbModel>, p: spec_fn(TcbModel) -> bool, i: int) -> bool {
    &&& 0 <= i < table.len()
    &&& p(table[i])
    &&& forall|j: int| 0 <= j < i ==> !p(#[trigger] table[j])
}

/// The position of the first entry that satisfies `p`.
pub open spec fn find(table: Seq<TcbModel>, p: spec_fn(TcbModel) -> bool) -> Option<int> {
    if exists|i: int| is_first(table, p, i) {
        Some(choose|i: int| is_first(table, p, i))
    } else {
        None
    }
}

/// The table after a listener on `port` is asked for: there is one, and no second.
pub open spec fn listening(m: TcpModel, port: u16) -> TcpModel {
    match find(m.connections, listens_on(port)) {
        Some(_) => m,
        None => TcpModel { connections: m.connections.push(listener(port)), ..m },
    }
}

/// The connection a listener becomes on the SYN `s`.
pub open spec fn syn_received(t: TcbModel, remote_ip: Seq<u8>, s: SegmentView, iss: u32) -> TcbModel {
    TcbModel {
        remote_ip,
        remote_port: s.src_port,
        irs: s.seq,
        rcv_nxt: s.seq.wrapping_add(1),
        iss,
        snd_una: iss,
        snd_nxt: iss.wrapping_add(1),
        snd_wnd: s.window as u32,
        state: State::SynReceived,
        ..t
    }
}

/// What one received segment does to the table, and the segment to answer with.
pub open spec fn on_segment(
    m: TcpModel,
    local_ip: Seq<u8>,
    remote_ip: Seq<u8>,
    s: SegmentView,
    now: u64,
) -> (TcpModel, Option<Seq<u8>>) {
    match find(m.connections, owns_segment(remote_ip, s.src_port, s.dst_port)) {
        Some(i) => {
            let o = step(m.connections[i], m.counters, local_ip, remote_ip, s, now);
            (
                TcpModel {
                    connections: m.connections.update(i, o.tcb),
                    counters: o.counters,
                    ..m
                },
                o.reply,
            )
        },
        None => {
            match find(m.connections, listens_on(s.dst_port)) {
                Some(i) => {
                    if s.has(SYN) && !s.has(ACK) {
                        let t = syn_received(m.connections[i], remote_ip, s, m.next_isn);
                        (
                            TcpModel {
                                connections: m.connections.update(i, t),
                                next_isn: m.next_isn.wrapping_add(ISN_STRIDE),
                                ..m
                            },
                            Some(syn_ack_bytes(t, local_ip, remote_ip)),
                        )
                    } else {
                        (m, None)
                    }
                },
                None => (m, None),
            }
        },
    }
}

// Sending.

/// How many bytes the next data segment carries, if one may be sent now. The peer's window and
/// the congestion window bound what is in flight. A closed peer window with nothing in flight is
/// probed with one byte. A small segment waits while data is outstanding, unless delays are off.
pub open spec fn next_chunk(t: TcbModel) -> Option<nat> {
    let flight = in_flight(t) as int;
    let window = smaller(t.snd_wnd as int, t.cwnd as int);
    let usable = window - flight;
    let available = smaller(usable, t.snd_buf.len() as int);
    if t.snd_buf.len() == 0 {
        None
    } else if usable <= 0 {
        if t.snd_wnd == 0 && flight == 0 {
            Some(1)
        } else {
            None
        }
    } else if available < MSS && flight != 0 && !t.nodelay {
        None
    } else {
        Some(smaller(available, MSS as int) as nat)
    }
}

/// The data segment that carries the next `n` queued bytes.
pub open spec fn data_bytes(t: TcbModel, local_ip: Seq<u8>, n: nat) -> Seq<u8> {
    segment::encode(
        local_ip,
        t.remote_ip,
        own_segment(t, t.snd_nxt, t.rcv_nxt, segment::PSH_ACK, t.snd_buf.take(n as int)),
    )
}

/// The connection after sending the segment `bytes` that takes `n` sequence numbers.
pub open spec fn after_sending(t: TcbModel, bytes: Seq<u8>, n: nat, now: u64) -> TcbModel {
    let snd_nxt = advance(t.snd_nxt, n);
    TcbModel {
        snd_nxt,
        retransmit: t.retransmit.push(
            UnackedModel {
                end_seq: snd_nxt,
                deadline: (now + t.rto) as u64,
                tries: 0,
                sent_at: now,
                segment: bytes,
            },
        ),
        ..t
    }
}

/// The connection after sending the next `n` queued bytes as one segment.
pub open spec fn after_chunk(t: TcbModel, local_ip: Seq<u8>, n: nat, now: u64) -> TcbModel {
    TcbModel {
        snd_buf: t.snd_buf.skip(n as int),
        ..after_sending(t, data_bytes(t, local_ip, n), n, now)
    }
}

/// The connection after sending all that may be sent now, and the segments sent.
pub open spec fn flushed(t: TcbModel, local_ip: Seq<u8>, now: u64) -> (TcbModel, Seq<Seq<u8>>)
    decreases t.snd_buf.len(),
{
    match next_chunk(t) {
        Some(n) => {
            let (last, rest) = flushed(after_chunk(t, local_ip, n, now), local_ip, now);
            (last, seq![data_bytes(t, local_ip, n)] + rest)
        },
        None => (t, Seq::empty()),
    }
}

/// What flushing one table entry does: only established connections send data.
pub open spec fn flush_one(t: TcbModel, local_ip: Seq<u8>, now: u64) -> (TcbModel, Seq<Seq<u8>>) {
    if t.state == State::Established {
        flushed(t, local_ip, now)
    } else {
        (t, Seq::empty())
    }
}

/// Each of the segments `segs` paired with the address it goes to.
pub open spec fn addressed(segs: Seq<Seq<u8>>, ip: Seq<u8>) -> Seq<(Seq<u8>, Seq<u8>)> {
    Seq::new(segs.len(), |i: int| (segs[i], ip))
}

/// All segments that flushing the first `n` table entries sends, in order.
pub open spec fn flush_output(table: Seq<TcbModel>, local_ip: Seq<u8>, now: u64, n: int) -> Seq<
    (Seq<u8>, Seq<u8>),
>
    decreases n,
{
    if n <= 0 {
        Seq::empty()
    } else {
        flush_output(table, local_ip, now, n - 1) + addressed(
            flush_one(table[n - 1], local_ip, now).1,
            table[n - 1].remote_ip,
        )
    }
}

/// The table after flushing every entry.
pub open spec fn flush_table(table: Seq<TcbModel>, local_ip: Seq<u8>, now: u64) -> Seq<TcbModel> {
    Seq::new(table.len(), |i: int| flush_one(table[i], local_ip, now).0)
}

// Closing.

/// The state that closing our side leads to.
pub open spec fn closing_state(s: State) -> Option<State> {
    match s {
        State::Established => Some(State::FinWait1),
        State::CloseWait => Some(State::LastAck),
        _ => None,
    }
}

/// The FIN that closes our side.
pub open spec fn fin_bytes(t: TcbModel, local_ip: Seq<u8>) -> Seq<u8> {
    segment::encode(
        local_ip,
        t.remote_ip,
        own_segment(t, t.snd_nxt, t.rcv_nxt, segment::FIN_ACK, Seq::empty()),
    )
}

/// The connection after our FIN is sent.
pub open spec fn after_close(t: TcbModel, local_ip: Seq<u8>, next: State, now: u64) -> TcbModel {
    TcbModel { state: next, ..after_sending(t, fin_bytes(t, local_ip), 1, now) }
}

// Timers.

/// The timeout `rto` backed off for the `tries`-th resend: doubled each time, at most six times.
pub open spec fn backed_off(rto: u32, tries: u32) -> int {
    rto * doubled(smaller(tries as int, 6))
}

/// Two to the power `n`.
pub open spec fn doubled(n: int) -> int
    decreases n,
{
    if n <= 0 {
        1
    } else {
        2 * doubled(n - 1)
    }
}

/// What the clock reading `now` does to a connection, and the segment to resend, if any. A
/// lingering connection closes when its time is up; an overdue segment is resent, or the
/// connection given up when it has been resent too often.
pub open spec fn tick_one(t: TcbModel, now: u64) -> (TcbModel, Option<Seq<u8>>) {
    if t.state == State::TimeWait && now >= t.time_wait_deadline {
        (TcbModel { state: State::Closed, retransmit: Seq::empty(), ..t }, None)
    } else if t.retransmit.len() > 0 && now >= t.retransmit[0].deadline {
        let u = t.retransmit[0];
        if u.tries >= MAX_RETRIES {
            (TcbModel { state: State::Closed, retransmit: Seq::empty(), ..t }, None)
        } else {
            let tries = (u.tries + 1) as u32;
            let head = UnackedModel {
                tries,
                deadline: (now + backed_off(t.rto, tries)) as u64,
                ..u
            };
            (
                after_rto(TcbModel { retransmit: t.retransmit.update(0, head), ..t }),
                Some(u.segment),
            )
        }
    } else {
        (t, None)
    }
}

/// An optional segment as a sequence of none or one.
pub open spec fn as_seq(s: Option<Seq<u8>>) -> Seq<Seq<u8>> {
    match s {
        Some(x) => seq![x],
        None => Seq::empty(),
    }
}

/// All segments that the clock reading makes the first `n` table entries resend, in order.
pub open spec fn tick_output(table: Seq<TcbModel>, now: u64, n: int) -> Seq<(Seq<u8>, Seq<u8>)>
    decreases n,
{
    if n <= 0 {
        Seq::empty()
    } else {
        tick_output(table, now, n - 1) + addressed(
            as_seq(tick_one(table[n - 1], now).1),
            table[n - 1].remote_ip,
        )
    }
}

/// The table after a clock reading.
pub open spec fn tick_table(table: Seq<TcbModel>, now: u64) -> Seq<TcbModel> {
    Seq::new(table.len(), |i: int| tick_one(table[i], now).0)
}

/// Whether a delayed acknowledgement is overdue.
pub open spec fn ack_overdue(t: TcbModel, now: u64) -> bool {
    t.delayed_ack_deadline != 0 && now >= t.delayed_ack_deadline
}

/// The acknowledgements that the first `n` table entries owe by `now`, in order.
pub open spec fn overdue_acks(table: Seq<TcbModel>, local_ip: Seq<u8>, now: u64, n: int) -> Seq<
    (Seq<u8>, Seq<u8>),
>
    decreases n,
{
    if n <= 0 {
        Seq::empty()
    } else {
        let t = table[n - 1];
        let before = overdue_acks(table, local_ip, now, n - 1);
        if ack_overdue(t, now) {
            before.push((ack_bytes(t, local_ip, t.remote_ip), t.remote_ip))
        } else {
            before
        }
    }
}

/// The table after the overdue acknowledgements are sent.
pub open spec fn acked_table(table: Seq<TcbModel>, now: u64) -> Seq<TcbModel> {
    Seq::new(
        table.len(),
        |i: int|
            if ack_overdue(table[i], now) {
                nothing_owed(table[i])
            } else {
                table[i]
            },
    )
}

} // verus!
