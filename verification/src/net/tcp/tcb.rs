//! One TCP connection: its record, and what a received segment or a transmission does to it.

use vstd::prelude::*;

use crate::bytes;
use crate::net::tcp::model;
use crate::net::tcp::model::{
    Accept, Counters, OutOfOrderModel, State, TcbModel, UnackedModel, DELAYED_ACK_TICKS,
    DUP_ACK_THRESHOLD, INIT_CWND, INIT_SSTHRESH, MAX_OOO_SEGMENTS, MAX_RETRIES, MSS,
    RCV_WINDOW_MAX, RTO_INITIAL_TICKS, RTO_MAX_TICKS, RTO_MIN_TICKS, TIME_WAIT_TICKS,
};
use crate::net::tcp::segment;
use crate::net::tcp::segment::{build, Segment, ACK, FIN, FIN_ACK, PSH_ACK, SYN, SYN_ACK};

verus! {

/// An outbound segment kept until it is acknowledged.
pub struct Unacked {
    pub end_seq: u32,
    pub deadline: u64,
    pub tries: u32,
    pub sent_at: u64,
    pub segment: Vec<u8>,
}

impl View for Unacked {
    type V = UnackedModel;

    open spec fn view(&self) -> UnackedModel {
        UnackedModel {
            end_seq: self.end_seq,
            deadline: self.deadline,
            tries: self.tries,
            sent_at: self.sent_at,
            segment: self.segment@,
        }
    }
}

/// A received segment held behind a gap.
pub struct OutOfOrder {
    pub seq: u32,
    pub data: Vec<u8>,
}

impl View for OutOfOrder {
    type V = OutOfOrderModel;

    open spec fn view(&self) -> OutOfOrderModel {
        OutOfOrderModel { seq: self.seq, data: self.data@ }
    }
}

/// The models of queued segments.
pub open spec fn unacked_views(q: Seq<Unacked>) -> Seq<UnackedModel> {
    Seq::new(q.len(), |i: int| q[i]@)
}

/// The models of held segments.
pub open spec fn held_views(q: Seq<OutOfOrder>) -> Seq<OutOfOrderModel> {
    Seq::new(q.len(), |i: int| q[i]@)
}

/// The record of one connection; [`TcbModel`] says what each field holds.
pub struct Tcb {
    pub state: State,
    pub local_port: u16,
    pub remote_port: u16,
    pub remote_ip: [u8; 4],
    pub snd_una: u32,
    pub snd_nxt: u32,
    pub iss: u32,
    pub snd_wnd: u32,
    pub snd_buf: Vec<u8>,
    pub cwnd: u32,
    pub ssthresh: u32,
    pub dup_acks: u32,
    pub in_fast_recovery: bool,
    pub srtt: u32,
    pub rttvar: u32,
    pub rto: u32,
    pub rtt_valid: bool,
    pub unacked_segs: u32,
    pub delayed_ack_deadline: u64,
    pub nodelay: bool,
    pub rcv_nxt: u32,
    pub irs: u32,
    pub rx: Vec<u8>,
    pub ooo: Vec<OutOfOrder>,
    pub retransmit: Vec<Unacked>,
    pub time_wait_deadline: u64,
}

impl View for Tcb {
    type V = TcbModel;

    open spec fn view(&self) -> TcbModel {
        TcbModel {
            state: self.state,
            local_port: self.local_port,
            remote_port: self.remote_port,
            remote_ip: self.remote_ip@,
            snd_una: self.snd_una,
            snd_nxt: self.snd_nxt,
            iss: self.iss,
            snd_wnd: self.snd_wnd,
            snd_buf: self.snd_buf@,
            cwnd: self.cwnd,
            ssthresh: self.ssthresh,
            dup_acks: self.dup_acks,
            in_fast_recovery: self.in_fast_recovery,
            srtt: self.srtt,
            rttvar: self.rttvar,
            rto: self.rto,
            rtt_valid: self.rtt_valid,
            unacked_segs: self.unacked_segs,
            delayed_ack_deadline: self.delayed_ack_deadline,
            nodelay: self.nodelay,
            rcv_nxt: self.rcv_nxt,
            irs: self.irs,
            rx: self.rx@,
            ooo: held_views(self.ooo@),
            retransmit: unacked_views(self.retransmit@),
            time_wait_deadline: self.time_wait_deadline,
        }
    }
}

/// An optional byte vector as an optional sequence.
pub open spec fn reply_view(r: Option<Vec<u8>>) -> Option<Seq<u8>> {
    match r {
        Some(v) => Some(v@),
        None => None,
    }
}

/// `a` is at or before `b` in the wrapping sequence space.
pub fn seq_leq(a: u32, b: u32) -> (r: bool)
    ensures
        r == model::seq_leq(a, b),
{
    b.wrapping_sub(a) < 0x8000_0000
}

/// `a` is strictly before `b` in the wrapping sequence space.
pub fn seq_lt(a: u32, b: u32) -> (r: bool)
    ensures
        r == model::seq_lt(a, b),
{
    a != b && seq_leq(a, b)
}

/// The sequence number `n` positions past `a`.
pub fn advance(a: u32, n: usize) -> (r: u32)
    ensures
        r == model::advance(a, n as nat),
{
    a.wrapping_add((n as u64 % 0x1_0000_0000) as u32)
}

/// The receive window to advertise with `rx_used` unread bytes.
pub fn window_for(rx_used: usize) -> (w: u16)
    ensures
        w == model::window_for(rx_used as nat),
{
    if rx_used >= RCV_WINDOW_MAX {
        0
    } else {
        (RCV_WINDOW_MAX - rx_used) as u16
    }
}

impl Tcb {
    /// A connection on which nothing has happened yet.
    pub fn fresh(state: State, local_port: u16, remote_port: u16, remote_ip: [u8; 4]) -> (tcb: Tcb)
        ensures
            tcb@ == model::fresh_tcb(state, local_port, remote_port, remote_ip@),
            model::tcb_ok(tcb@),
    {
        let tcb = Tcb {
            state,
            local_port,
            remote_port,
            remote_ip,
            snd_una: 0,
            snd_nxt: 0,
            iss: 0,
            snd_wnd: 0,
            snd_buf: Vec::new(),
            cwnd: INIT_CWND,
            ssthresh: INIT_SSTHRESH,
            dup_acks: 0,
            in_fast_recovery: false,
            srtt: 0,
            rttvar: 0,
            rto: RTO_INITIAL_TICKS,
            rtt_valid: false,
            unacked_segs: 0,
            delayed_ack_deadline: 0,
            nodelay: false,
            rcv_nxt: 0,
            irs: 0,
            rx: Vec::new(),
            ooo: Vec::new(),
            retransmit: Vec::new(),
            time_wait_deadline: 0,
        };
        assert(tcb@ =~= model::fresh_tcb(state, local_port, remote_port, remote_ip@));
        tcb
    }

    /// A segment of this connection with the given sequence numbers, flags and payload.
    pub fn own_segment(
        &self,
        local_ip: [u8; 4],
        remote_ip: [u8; 4],
        seq: u32,
        ack: u32,
        flags: u8,
        payload: &[u8],
    ) -> (bytes: Vec<u8>)
        ensures
            bytes@ == segment::encode(
                local_ip@,
                remote_ip@,
                model::own_segment(self@, seq, ack, flags, payload@),
            ),
    {
        build(
            local_ip,
            remote_ip,
            self.local_port,
            self.remote_port,
            seq,
            ack,
            flags,
            window_for(self.rx.len()),
            payload,
        )
    }
}

/// One step of the round-trip estimator: the smoothed time scaled by 8, the variation scaled by
/// 4, and the retransmission timeout within its bounds.
pub fn rtt_step(srtt: u32, rttvar: u32, valid: bool, m: u32) -> (r: (u32, u32, u32))
    ensures
        r == model::rtt_estimate(srtt, rttvar, valid, m),
{
    let smoothed: u32 = srtt / 8;
    let deviation: u64 = if m >= smoothed {
        (m - smoothed) as u64
    } else {
        (smoothed - m) as u64
    };
    let s: u64 = if valid {
        srtt as u64 - smoothed as u64 + m as u64
    } else {
        m as u64 * 8
    };
    let v: u64 = if valid {
        rttvar as u64 - (rttvar / 4) as u64 + deviation
    } else {
        m as u64 * 2
    };
    let s32: u32 = (s % 0x1_0000_0000) as u32;
    let v32: u32 = (v % 0x1_0000_0000) as u32;
    let spread: u32 = if v32 < 1 {
        1
    } else {
        v32
    };
    let ticks: u64 = (s32 / 8) as u64 + spread as u64;
    let rto: u32 = if ticks < RTO_MIN_TICKS as u64 {
        RTO_MIN_TICKS
    } else if ticks > RTO_MAX_TICKS as u64 {
        RTO_MAX_TICKS
    } else {
        ticks as u32
    };
    (s32, v32, rto)
}

/// Folds a measured round trip into the connection's estimator.
pub fn update_rtt(tcb: &mut Tcb, measured: u32)
    requires
        model::tcb_ok(old(tcb)@),
    ensures
        final(tcb)@ == model::after_rtt(old(tcb)@, measured),
        model::tcb_ok(final(tcb)@),
{
    let (srtt, rttvar, rto): (u32, u32, u32) = rtt_step(
        tcb.srtt,
        tcb.rttvar,
        tcb.rtt_valid,
        measured,
    );
    tcb.srtt = srtt;
    tcb.rttvar = rttvar;
    tcb.rto = rto;
    tcb.rtt_valid = true;
}

/// Grows the congestion window after `acked` bytes are newly acknowledged.
pub fn grow_cwnd(tcb: &mut Tcb, acked: u32)
    requires
        model::tcb_ok(old(tcb)@),
    ensures
        final(tcb)@ == (TcbModel { cwnd: model::grown_cwnd(old(tcb)@, acked), ..old(tcb)@ }),
        model::tcb_ok(final(tcb)@),
{
    let mss: u32 = MSS as u32;
    let growth: u32 = if tcb.cwnd < tcb.ssthresh {
        if acked < mss {
            acked
        } else {
            mss
        }
    } else {
        let share: u32 = mss * mss / tcb.cwnd;
        if share < 1 {
            1
        } else {
            share
        }
    };
    tcb.cwnd = tcb.cwnd.saturating_add(growth);
}

/// Half the flight, and at least two segments.
fn halved_flight(flight: u32) -> (r: u32)
    ensures
        r == model::halved_flight(flight),
{
    let two: u32 = 2 * MSS as u32;
    if flight / 2 >= two {
        flight / 2
    } else {
        two
    }
}

/// Answers a retransmission timeout: the threshold falls to half the flight and slow start
/// begins again.
pub fn on_rto(tcb: &mut Tcb)
    ensures
        final(tcb)@ == model::after_rto(old(tcb)@),
{
    let flight: u32 = tcb.snd_nxt.wrapping_sub(tcb.snd_una);
    tcb.ssthresh = halved_flight(flight);
    tcb.cwnd = MSS as u32;
}

/// Drops every queued segment that `una` covers.
fn drop_acked(q: &mut Vec<Unacked>, una: u32)
    ensures
        unacked_views(final(q)@) == unacked_views(old(q)@).filter(model::still_unacked(una)),
{
    let ghost before = unacked_views(q@);
    let ghost pred = model::still_unacked(una);
    let ghost mut k: int = 0;
    let mut i: usize = 0;
    proof {
        reveal(Seq::filter);
        assert(before.take(0).filter(pred) =~= Seq::empty());
    }
    while i < q.len()
        invariant
            0 <= k <= before.len(),
            pred == model::still_unacked(una),
            i <= q@.len(),
            q@.len() - i == before.len() - k,
            i == before.take(k).filter(pred).len(),
            unacked_views(q@) == before.take(k).filter(pred) + before.skip(k),
        decreases q@.len() - i,
    {
        let ghost views = unacked_views(q@);
        assert(views[i as int] == before[k]);
        assert(views[i as int] == q@[i as int]@);
        proof {
            reveal(Seq::filter);
            assert(before.take(k + 1).drop_last() =~= before.take(k));
            assert(before.take(k + 1).last() == before[k]);
        }
        if seq_leq(q[i].end_seq, una) {
            let dropped = q.remove(i);
            assert(!pred(before[k]));
            assert(unacked_views(q@) =~= views.remove(i as int));
            assert(unacked_views(q@) =~= before.take(k + 1).filter(pred) + before.skip(k + 1));
        } else {
            i = i + 1;
            assert(unacked_views(q@) =~= before.take(k + 1).filter(pred) + before.skip(k + 1));
        }
        proof {
            k = k + 1;
        }
    }
    assert(before.take(k) =~= before);
    assert(unacked_views(q@) =~= before.filter(pred));
}

/// The latest tick at which a segment that `una` acknowledges was sent, among those never
/// resent.
fn latest_clean_send(q: &Vec<Unacked>, una: u32) -> (latest: Option<u64>)
    ensures
        latest == model::latest_clean_send(unacked_views(q@), una, q@.len() as int),
{
    let mut latest: Option<u64> = None;
    let mut i: usize = 0;
    while i < q.len()
        invariant
            i <= q@.len(),
            latest == model::latest_clean_send(unacked_views(q@), una, i as int),
        decreases q@.len() - i,
    {
        assert(unacked_views(q@)[i as int] == q@[i as int]@);
        if q[i].tries == 0 && seq_leq(q[i].end_seq, una) {
            let sent: u64 = q[i].sent_at;
            latest = match latest {
                Some(t) => Some(
                    if t >= sent {
                        t
                    } else {
                        sent
                    },
                ),
                None => Some(sent),
            };
        }
        i = i + 1;
    }
    latest
}

/// Processes the acknowledgement in `seg`. Returns whether the duplicate acknowledgement that
/// calls for a fast retransmit has just arrived.
pub fn process_ack(tcb: &mut Tcb, counters: &mut Counters, seg: &Segment, now: u64) -> (fast: bool)
    requires
        model::tcb_ok(old(tcb)@),
    ensures
        (final(tcb)@, fast) == model::after_ack(old(tcb)@, seg@, now),
        *final(counters) == model::ack_processed(*old(counters), fast),
        model::tcb_ok(final(tcb)@),
{
    let acked: u32 = seg.ack.wrapping_sub(tcb.snd_una);
    let outstanding: u32 = tcb.snd_nxt.wrapping_sub(tcb.snd_una);
    if seg.flags & ACK == 0 || acked > outstanding {
        return false;
    }
    tcb.snd_wnd = seg.window as u32;
    let mss: u32 = MSS as u32;
    assert(tcb@ =~= (TcbModel { snd_wnd: seg@.window as u32, ..old(tcb)@ }));
    let ghost t0 = tcb@;
    assert(acked == 0 <==> seg.ack == tcb.snd_una);
    if acked == 0 && outstanding > 0 && seg.payload.len() == 0 && seg.flags & (SYN | FIN) == 0 {
        assert(model::is_duplicate_ack(t0, seg@));
        tcb.dup_acks = tcb.dup_acks.wrapping_add(1);
        if tcb.dup_acks == DUP_ACK_THRESHOLD {
            tcb.ssthresh = halved_flight(outstanding);
            tcb.cwnd = tcb.ssthresh + DUP_ACK_THRESHOLD * mss;
            tcb.in_fast_recovery = true;
            counters.fast_retransmits = counters.fast_retransmits.wrapping_add(1);
            return true;
        }
        if tcb.in_fast_recovery {
            tcb.cwnd = tcb.cwnd.saturating_add(mss);
        }
        return false;
    }
    assert(!model::is_duplicate_ack(t0, seg@));
    if acked != 0 {
        take_new_ack(tcb, seg.ack, now);
    }
    false
}

/// Processes an acknowledgement of everything before `ack`, some of it new.
#[verifier::spinoff_prover]
#[verifier::rlimit(40)]
fn take_new_ack(tcb: &mut Tcb, ack: u32, now: u64)
    requires
        model::tcb_ok(old(tcb)@),
    ensures
        final(tcb)@ == model::after_new_ack(old(tcb)@, ack, now),
        model::tcb_ok(final(tcb)@),
{
    let ghost t0 = tcb@;
    if tcb.in_fast_recovery {
        tcb.cwnd = tcb.ssthresh;
        tcb.in_fast_recovery = false;
    } else {
        let acked: u32 = ack.wrapping_sub(tcb.snd_una);
        grow_cwnd(tcb, acked);
    }
    tcb.dup_acks = 0;
    tcb.snd_una = ack;
    let ghost paced = tcb@;
    assert(model::tcb_ok(paced));
    if let Some(sent) = latest_clean_send(&tcb.retransmit, ack) {
        let elapsed: u64 = if now >= sent {
            now - sent
        } else {
            0
        };
        update_rtt(tcb, (elapsed % 0x1_0000_0000) as u32);
    }
    let ghost timed = tcb@;
    assert(model::tcb_ok(timed));
    drop_acked(&mut tcb.retransmit, ack);
    proof {
        lemma_filter_keeps_tries(t0.retransmit, ack);
    }
    assert(tcb@ =~= (TcbModel {
        retransmit: t0.retransmit.filter(model::still_unacked(ack)),
        ..timed
    }));
    assert(tcb@ =~= model::after_new_ack(t0, ack, now));
}

/// Dropping acknowledged segments leaves the bound on resends intact.
proof fn lemma_filter_keeps_tries(q: Seq<UnackedModel>, una: u32)
    requires
        forall|i: int| 0 <= i < q.len() ==> (#[trigger] q[i]).tries <= MAX_RETRIES,
    ensures
        forall|i: int|
            0 <= i < q.filter(model::still_unacked(una)).len() ==> (#[trigger] q.filter(
                model::still_unacked(una),
            )[i]).tries <= MAX_RETRIES,
    decreases q.len(),
{
    reveal(Seq::filter);
    if q.len() > 0 {
        let p = model::still_unacked(una);
        let shorter = q.drop_last().filter(p);
        lemma_filter_keeps_tries(q.drop_last(), una);
        assert(q.filter(p) == if p(q.last()) {
            shorter.push(q.last())
        } else {
            shorter
        });
        assert(q.last() == q[q.len() - 1]);
        assert forall|i: int| 0 <= i < q.filter(p).len() implies (#[trigger] q.filter(p)[i]).tries
            <= MAX_RETRIES by {
            if i < shorter.len() {
                assert(q.filter(p)[i] == shorter[i]);
            }
        }
    }
}

/// Data at `seq` that ends past `r` without starting past it begins before `r` by less than its
/// length.
proof fn lemma_offset_in_data(seq: u32, r: u32, len: nat)
    requires
        model::seq_leq(seq, r),
        !model::seq_leq(model::advance(seq, len), r),
    ensures
        r.wrapping_sub(seq) < len,
{
}

/// The same for data that `r` lies strictly before the end of.
proof fn lemma_offset_in_held(seq: u32, r: u32, len: nat)
    requires
        model::seq_leq(seq, r),
        model::seq_lt(r, model::advance(seq, len)),
    ensures
        r.wrapping_sub(seq) < len,
{
}

/// Holds a segment that is ahead of the stream, unless a held one covers it or there is no room.
pub fn buffer_ooo(tcb: &mut Tcb, counters: &mut Counters, seq: u32, payload: &[u8])
    requires
        model::tcb_ok(old(tcb)@),
        !model::seq_leq(model::advance(seq, payload@.len()), old(tcb)@.rcv_nxt),
        !model::seq_leq(seq, old(tcb)@.rcv_nxt),
    ensures
        (final(tcb)@, *final(counters), Accept::AckNow) == model::after_data(
            old(tcb)@,
            *old(counters),
            seq,
            payload@,
        ),
        model::tcb_ok(final(tcb)@),
{
    let end: u32 = advance(seq, payload.len());
    let mut covered: bool = false;
    let mut i: usize = 0;
    while i < tcb.ooo.len()
        invariant
            i <= tcb.ooo@.len(),
            tcb@ == old(tcb)@,
            covered == exists|j: int|
                0 <= j < i && model::covers(#[trigger] tcb@.ooo[j], seq, end),
        decreases tcb.ooo@.len() - i,
    {
        let ghost held = tcb@.ooo;
        assert(held[i as int] == tcb.ooo@[i as int]@);
        let held_end: u32 = advance(tcb.ooo[i].seq, tcb.ooo[i].data.len());
        if seq_leq(tcb.ooo[i].seq, seq) && seq_leq(end, held_end) {
            assert(model::covers(held[i as int], seq, end));
            covered = true;
        } else {
            assert(!model::covers(held[i as int], seq, end));
        }
        i = i + 1;
    }
    if covered || tcb.ooo.len() >= MAX_OOO_SEGMENTS {
        assert(!model::worth_holding(old(tcb)@, seq, payload@));
        return;
    }
    tcb.ooo.push(OutOfOrder { seq, data: bytes::to_vec(payload) });
    counters.out_of_order_buffered = counters.out_of_order_buffered.wrapping_add(1);
    assert(tcb@.ooo =~= old(tcb)@.ooo.push(OutOfOrderModel { seq, data: payload@ }));
}

/// The room left in the receive buffer.
fn free_space(tcb: &Tcb) -> (n: usize)
    ensures
        n == model::free_space(tcb@),
{
    let used: usize = tcb.rx.len();
    if used >= RCV_WINDOW_MAX {
        0
    } else {
        RCV_WINDOW_MAX - used
    }
}

/// The position of the first held segment that continues the stream and fits.
fn first_continuing(tcb: &Tcb) -> (found: Option<usize>)
    ensures
        match found {
            Some(i) => model::is_first_continuing(tcb@, i as int),
            None => forall|i: int| !model::is_first_continuing(tcb@, i),
        },
{
    let r: u32 = tcb.rcv_nxt;
    let free: usize = free_space(tcb);
    let mut i: usize = 0;
    while i < tcb.ooo.len()
        invariant
            i <= tcb.ooo@.len(),
            r == tcb@.rcv_nxt,
            free == model::free_space(tcb@),
            forall|j: int| 0 <= j < i ==> !model::continues(tcb@, #[trigger] tcb@.ooo[j]),
        decreases tcb.ooo@.len() - i,
    {
        let ghost held = tcb@.ooo[i as int];
        assert(held == tcb.ooo@[i as int]@);
        let o: &OutOfOrder = &tcb.ooo[i];
        let end: u32 = advance(o.seq, o.data.len());
        if seq_leq(o.seq, r) && seq_lt(r, end) {
            proof {
                lemma_offset_in_held(held.seq, r, held.data.len());
            }
            let skip: usize = r.wrapping_sub(o.seq) as usize;
            if o.data.len() - skip <= free {
                return Some(i);
            }
        }
        i = i + 1;
    }
    None
}

/// Drops every held segment with no data past `r`.
fn drop_old(q: &mut Vec<OutOfOrder>, r: u32)
    ensures
        held_views(final(q)@) == held_views(old(q)@).filter(model::ahead_of(r)),
{
    let ghost before = held_views(q@);
    let ghost pred = model::ahead_of(r);
    let ghost mut k: int = 0;
    let mut i: usize = 0;
    proof {
        reveal(Seq::filter);
        assert(before.take(0).filter(pred) =~= Seq::empty());
    }
    while i < q.len()
        invariant
            0 <= k <= before.len(),
            pred == model::ahead_of(r),
            i <= q@.len(),
            q@.len() - i == before.len() - k,
            i == before.take(k).filter(pred).len(),
            held_views(q@) == before.take(k).filter(pred) + before.skip(k),
        decreases q@.len() - i,
    {
        let ghost views = held_views(q@);
        assert(views[i as int] == before[k]);
        assert(views[i as int] == q@[i as int]@);
        proof {
            reveal(Seq::filter);
            assert(before.take(k + 1).drop_last() =~= before.take(k));
            assert(before.take(k + 1).last() == before[k]);
        }
        let end: u32 = advance(q[i].seq, q[i].data.len());
        if seq_leq(end, r) {
            let dropped = q.remove(i);
            assert(!pred(before[k]));
            assert(held_views(q@) =~= views.remove(i as int));
            assert(held_views(q@) =~= before.take(k + 1).filter(pred) + before.skip(k + 1));
        } else {
            i = i + 1;
            assert(held_views(q@) =~= before.take(k + 1).filter(pred) + before.skip(k + 1));
        }
        proof {
            k = k + 1;
        }
    }
    assert(before.take(k) =~= before);
    assert(held_views(q@) =~= before.filter(pred));
}

/// Appends every held segment that has become contiguous with the stream and fits, and drops
/// those that have become old. Returns whether any was appended.
pub fn drain_ooo(tcb: &mut Tcb) -> (filled: bool)
    requires
        model::tcb_ok(old(tcb)@),
    ensures
        (final(tcb)@, filled) == model::drained(old(tcb)@),
        model::tcb_ok(final(tcb)@),
{
    let mut filled: bool = false;
    loop
        invariant
            model::tcb_ok(tcb@),
            model::drained(old(tcb)@).0 == model::drained(tcb@).0,
            model::drained(old(tcb)@).1 == (filled || model::drained(tcb@).1),
        ensures
            model::tcb_ok(tcb@),
            model::drained(old(tcb)@) == (model::drained(tcb@).0, filled),
            forall|i: int| !model::is_first_continuing(tcb@, i),
        decreases tcb.ooo@.len(),
    {
        let r: u32 = tcb.rcv_nxt;
        match first_continuing(tcb) {
            Some(i) => {
                let ghost before = tcb@;
                proof {
                    let c = choose|c: int| model::is_first_continuing(before, c);
                    assert(model::is_first_continuing(before, i as int));
                    assert(model::is_first_continuing(before, c));
                    assert(c == i) by {
                        if c < i {
                            assert(!model::continues(before, before.ooo[c]));
                        } else if i < c {
                            assert(!model::continues(before, before.ooo[i as int]));
                        }
                    }
                    assert(before.ooo[i as int] == tcb.ooo@[i as int]@);
                    lemma_offset_in_held(
                        before.ooo[i as int].seq,
                        r,
                        before.ooo[i as int].data.len(),
                    );
                }
                let o = tcb.ooo.swap_remove(i);
                let skip: usize = r.wrapping_sub(o.seq) as usize;
                let tail: &[u8] = &o.data.as_slice()[skip..o.data.len()];
                assert(tail@ =~= before.ooo[i as int].data.skip(skip as int));
                bytes::append(&mut tcb.rx, tail);
                tcb.rcv_nxt = advance(o.seq, o.data.len());
                filled = true;
                assert(tcb@.ooo =~= model::spliced(before, i as int).ooo);
                assert(tcb@ =~= model::spliced(before, i as int));
            },
            None => {
                break;
            },
        }
    }
    let ghost before = tcb@;
    let r: u32 = tcb.rcv_nxt;
    drop_old(&mut tcb.ooo, r);
    assert(tcb@ =~= model::drained(before).0);
    filled
}

/// Accepts the payload of a data segment into the receive stream.
pub fn accept_segment_data(tcb: &mut Tcb, counters: &mut Counters, seq: u32, payload: &[u8]) -> (accept:
    Accept)
    requires
        model::tcb_ok(old(tcb)@),
    ensures
        (final(tcb)@, *final(counters), accept) == model::after_data(
            old(tcb)@,
            *old(counters),
            seq,
            payload@,
        ),
        model::tcb_ok(final(tcb)@),
{
    let end: u32 = advance(seq, payload.len());
    if seq_leq(end, tcb.rcv_nxt) {
        return Accept::AckNow;
    }
    if seq_leq(seq, tcb.rcv_nxt) {
        proof {
            lemma_offset_in_data(seq, tcb.rcv_nxt, payload@.len());
        }
        let skip: usize = tcb.rcv_nxt.wrapping_sub(seq) as usize;
        let fresh: &[u8] = &payload[skip..payload.len()];
        assert(fresh@ =~= payload@.skip(skip as int));
        if fresh.len() > free_space(tcb) {
            return Accept::AckNow;
        }
        bytes::append(&mut tcb.rx, fresh);
        tcb.rcv_nxt = end;
        assert(tcb@ =~= (TcbModel { rx: old(tcb)@.rx + fresh@, rcv_nxt: end, ..old(tcb)@ }));
        if drain_ooo(tcb) {
            Accept::AckNow
        } else {
            Accept::InOrderDelayable
        }
    } else {
        buffer_ooo(tcb, counters, seq, payload);
        Accept::AckNow
    }
}

/// Clears what is owed: an acknowledgement covers everything received in order.
pub fn clear_delayed_ack(tcb: &mut Tcb)
    ensures
        final(tcb)@ == model::nothing_owed(old(tcb)@),
{
    tcb.unacked_segs = 0;
    tcb.delayed_ack_deadline = 0;
}

/// Builds the bare acknowledgement of everything received in order, and counts it.
pub fn build_ack(tcb: &Tcb, counters: &mut Counters, local_ip: [u8; 4], remote_ip: [u8; 4]) -> (bytes:
    Vec<u8>)
    ensures
        bytes@ == model::ack_bytes(tcb@, local_ip@, remote_ip@),
        *final(counters) == model::ack_counted(*old(counters)),
{
    counters.acks_sent = counters.acks_sent.wrapping_add(1);
    let none: Vec<u8> = Vec::new();
    assert(none@ =~= Seq::<u8>::empty());
    tcb.own_segment(local_ip, remote_ip, tcb.snd_nxt, tcb.rcv_nxt, ACK, &none)
}

/// Moves a connection into TIME_WAIT.
pub fn enter_time_wait(tcb: &mut Tcb, now: u64)
    requires
        model::clock_ok(now),
    ensures
        final(tcb)@ == model::lingering(old(tcb)@, now),
{
    tcb.state = State::TimeWait;
    tcb.time_wait_deadline = now + TIME_WAIT_TICKS;
}

/// Handles the data and the FIN of a segment on an established connection.
fn on_established_data(
    tcb: &mut Tcb,
    counters: &mut Counters,
    local_ip: [u8; 4],
    remote_ip: [u8; 4],
    seg: &Segment,
    now: u64,
) -> (reply: Option<Vec<u8>>)
    requires
        model::tcb_ok(old(tcb)@),
        model::clock_ok(now),
    ensures
        (model::Outcome {
            tcb: final(tcb)@,
            counters: *final(counters),
            reply: reply_view(reply),
        }) == model::after_established_data(
            old(tcb)@,
            *old(counters),
            local_ip@,
            remote_ip@,
            seg@,
            now,
        ),
        model::tcb_ok(final(tcb)@),
{
    let has_data: bool = seg.payload.len() > 0;
    let mut at_once: bool = false;
    if has_data {
        at_once =
        match accept_segment_data(tcb, counters, seg.seq, seg.payload) {
            Accept::AckNow => true,
            Accept::InOrderDelayable => false,
        };
    }
    let fin: bool = seg.flags & FIN != 0 && advance(seg.seq, seg.payload.len()) == tcb.rcv_nxt;
    if fin {
        tcb.rcv_nxt = tcb.rcv_nxt.wrapping_add(1);
        tcb.state = State::CloseWait;
    }
    if fin || at_once {
        clear_delayed_ack(tcb);
        Some(build_ack(tcb, counters, local_ip, remote_ip))
    } else if has_data {
        if tcb.unacked_segs >= 1 {
            clear_delayed_ack(tcb);
            Some(build_ack(tcb, counters, local_ip, remote_ip))
        } else {
            tcb.unacked_segs = tcb.unacked_segs + 1;
            if tcb.delayed_ack_deadline == 0 {
                tcb.delayed_ack_deadline = now + DELAYED_ACK_TICKS;
            }
            None
        }
    } else {
        None
    }
}

/// Handles a segment on an established connection.
pub fn on_established(
    tcb: &mut Tcb,
    counters: &mut Counters,
    local_ip: [u8; 4],
    remote_ip: [u8; 4],
    seg: &Segment,
    now: u64,
) -> (reply: Option<Vec<u8>>)
    requires
        model::tcb_ok(old(tcb)@),
        model::clock_ok(now),
    ensures
        (model::Outcome {
            tcb: final(tcb)@,
            counters: *final(counters),
            reply: reply_view(reply),
        }) == model::on_established(
            old(tcb)@,
            *old(counters),
            local_ip@,
            remote_ip@,
            seg@,
            now,
        ),
        model::tcb_ok(final(tcb)@),
{
    if process_ack(tcb, counters, seg, now) && tcb.retransmit.len() > 0 {
        let ghost t1 = tcb@;
        let rto: u64 = tcb.rto as u64;
        tcb.retransmit[0].deadline = now + rto;
        let resent: Vec<u8> = bytes::to_vec(&tcb.retransmit[0].segment);
        assert(tcb@.retransmit =~= model::fast_retransmitted(t1, now).retransmit);
        assert(tcb@.retransmit[0].tries == t1.retransmit[0].tries);
        assert(tcb@ =~= model::fast_retransmitted(t1, now));
        return Some(resent);
    }
    on_established_data(tcb, counters, local_ip, remote_ip, seg, now)
}

/// Handles a segment in a state in which one side or both have finished. The acknowledgement in
/// `seg` has been processed.
fn on_closing(
    tcb: &mut Tcb,
    counters: &mut Counters,
    local_ip: [u8; 4],
    remote_ip: [u8; 4],
    seg: &Segment,
    now: u64,
) -> (reply: Option<Vec<u8>>)
    requires
        model::tcb_ok(old(tcb)@),
        model::clock_ok(now),
    ensures
        (model::Outcome {
            tcb: final(tcb)@,
            counters: *final(counters),
            reply: reply_view(reply),
        }) == model::on_closing(old(tcb)@, *old(counters), local_ip@, remote_ip@, seg@, now),
        model::tcb_ok(final(tcb)@),
{
    let our_fin_acked: bool = tcb.snd_una == tcb.snd_nxt;
    let peer_fin: bool = seg.flags & FIN != 0 && seg.seq == tcb.rcv_nxt;
    match tcb.state {
        State::FinWait1 => {
            if peer_fin {
                tcb.rcv_nxt = tcb.rcv_nxt.wrapping_add(1);
            }
            if our_fin_acked && peer_fin {
                enter_time_wait(tcb, now);
                clear_delayed_ack(tcb);
                Some(build_ack(tcb, counters, local_ip, remote_ip))
            } else if our_fin_acked {
                tcb.state = State::FinWait2;
                None
            } else if peer_fin {
                tcb.state = State::Closing;
                clear_delayed_ack(tcb);
                Some(build_ack(tcb, counters, local_ip, remote_ip))
            } else {
                None
            }
        },
        State::FinWait2 => {
            if peer_fin {
                tcb.rcv_nxt = tcb.rcv_nxt.wrapping_add(1);
                enter_time_wait(tcb, now);
                clear_delayed_ack(tcb);
                Some(build_ack(tcb, counters, local_ip, remote_ip))
            } else {
                None
            }
        },
        State::CloseWait | State::TimeWait => {
            if seg.flags & FIN != 0 {
                clear_delayed_ack(tcb);
                Some(build_ack(tcb, counters, local_ip, remote_ip))
            } else {
                None
            }
        },
        State::Closing => {
            if our_fin_acked {
                enter_time_wait(tcb, now);
            }
            None
        },
        State::LastAck => {
            if our_fin_acked {
                tcb.state = State::Closed;
            }
            None
        },
        _ => None,
    }
}

/// Builds the SYN that answers a SYN.
pub fn build_syn_ack(tcb: &Tcb, local_ip: [u8; 4], remote_ip: [u8; 4]) -> (bytes: Vec<u8>)
    ensures
        bytes@ == model::syn_ack_bytes(tcb@, local_ip@, remote_ip@),
{
    let none: Vec<u8> = Vec::new();
    assert(none@ =~= Seq::<u8>::empty());
    tcb.own_segment(local_ip, remote_ip, tcb.iss, tcb.rcv_nxt, SYN_ACK, &none)
}

/// Advances a connection by one received segment and returns the segment to answer with.
pub fn step(
    tcb: &mut Tcb,
    counters: &mut Counters,
    local_ip: [u8; 4],
    remote_ip: [u8; 4],
    seg: &Segment,
    now: u64,
) -> (reply: Option<Vec<u8>>)
    requires
        model::tcb_ok(old(tcb)@),
        model::clock_ok(now),
    ensures
        (model::Outcome {
            tcb: final(tcb)@,
            counters: *final(counters),
            reply: reply_view(reply),
        }) == model::step(old(tcb)@, *old(counters), local_ip@, remote_ip@, seg@, now),
        model::tcb_ok(final(tcb)@),
{
    match tcb.state {
        State::SynSent => {
            if seg.flags & SYN != 0 && seg.flags & ACK != 0 && seg.ack == tcb.snd_nxt {
                tcb.irs = seg.seq;
                tcb.rcv_nxt = seg.seq.wrapping_add(1);
                tcb.snd_una = seg.ack;
                tcb.snd_wnd = seg.window as u32;
                tcb.state = State::Established;
                let none: Vec<u8> = Vec::new();
                assert(none@ =~= Seq::<u8>::empty());
                return Some(
                    tcb.own_segment(local_ip, remote_ip, tcb.snd_nxt, tcb.rcv_nxt, ACK, &none),
                );
            }
            None
        },
        State::SynReceived => {
            if seg.flags & SYN != 0 && seg.flags & ACK == 0 && seg.seq == tcb.irs {
                return Some(build_syn_ack(tcb, local_ip, remote_ip));
            }
            if seg.flags & ACK != 0 && seg.ack == tcb.snd_nxt {
                tcb.snd_una = seg.ack;
                tcb.snd_wnd = seg.window as u32;
                tcb.state = State::Established;
            }
            None
        },
        State::Established => on_established(tcb, counters, local_ip, remote_ip, seg, now),
        State::Closed | State::Listen => None,
        State::TimeWait => on_closing(tcb, counters, local_ip, remote_ip, seg, now),
        _ => {
            let fast: bool = process_ack(tcb, counters, seg, now);
            on_closing(tcb, counters, local_ip, remote_ip, seg, now)
        },
    }
}

/// Queues the segment `bytes`, just sent with `n` sequence numbers, until it is acknowledged.
fn record_sent(tcb: &mut Tcb, bytes: &Vec<u8>, n: usize, now: u64)
    requires
        model::tcb_ok(old(tcb)@),
        model::clock_ok(now),
    ensures
        final(tcb)@ == model::after_sending(old(tcb)@, bytes@, n as nat, now),
        model::tcb_ok(final(tcb)@),
{
    let ghost t0 = tcb@;
    tcb.snd_nxt = advance(tcb.snd_nxt, n);
    let end_seq: u32 = tcb.snd_nxt;
    let rto: u64 = tcb.rto as u64;
    tcb.retransmit.push(
        Unacked {
            end_seq,
            deadline: now + rto,
            tries: 0,
            sent_at: now,
            segment: bytes::to_vec(bytes),
        },
    );
    assert(tcb@.retransmit =~= model::after_sending(t0, bytes@, n as nat, now).retransmit);
    assert(tcb@ =~= model::after_sending(t0, bytes@, n as nat, now));
}

/// Removes the first `n` bytes of `buf` and returns them.
pub fn take_front(buf: &mut Vec<u8>, n: usize) -> (front: Vec<u8>)
    requires
        n <= old(buf)@.len(),
    ensures
        front@ == old(buf)@.take(n as int),
        final(buf)@ == old(buf)@.skip(n as int),
{
    let mut rest: Vec<u8> = buf.split_off(n);
    std::mem::swap(buf, &mut rest);
    rest
}

/// Sends the next `n` queued bytes as one segment.
pub fn emit_segment(tcb: &mut Tcb, counters: &mut Counters, local_ip: [u8; 4], n: usize, now: u64) -> (bytes:
    Vec<u8>)
    requires
        model::tcb_ok(old(tcb)@),
        model::clock_ok(now),
        0 < n <= old(tcb)@.snd_buf.len(),
    ensures
        bytes@ == model::data_bytes(old(tcb)@, local_ip@, n as nat),
        final(tcb)@ == model::after_chunk(old(tcb)@, local_ip@, n as nat, now),
        final(counters).data_segments_sent == old(counters).data_segments_sent.wrapping_add(1),
        *final(counters) == (Counters {
            data_segments_sent: final(counters).data_segments_sent,
            ..*old(counters)
        }),
        model::tcb_ok(final(tcb)@),
{
    let ghost t0 = tcb@;
    let chunk: Vec<u8> = take_front(&mut tcb.snd_buf, n);
    let bytes: Vec<u8> = tcb.own_segment(
        local_ip,
        tcb.remote_ip,
        tcb.snd_nxt,
        tcb.rcv_nxt,
        PSH_ACK,
        &chunk,
    );
    record_sent(tcb, &bytes, n, now);
    counters.data_segments_sent = counters.data_segments_sent.wrapping_add(1);
    assert(tcb@ =~= model::after_chunk(t0, local_ip@, n as nat, now));
    bytes
}

/// How many bytes the next data segment carries, if one may be sent now.
pub fn next_chunk(tcb: &Tcb) -> (n: Option<usize>)
    ensures
        match n {
            Some(k) => model::next_chunk(tcb@) == Some(k as nat) && 0 < k <= tcb@.snd_buf.len(),
            None => model::next_chunk(tcb@) is None,
        },
{
    let queued: usize = tcb.snd_buf.len();
    if queued == 0 {
        return None;
    }
    let flight: u32 = tcb.snd_nxt.wrapping_sub(tcb.snd_una);
    let window: u32 = if tcb.snd_wnd <= tcb.cwnd {
        tcb.snd_wnd
    } else {
        tcb.cwnd
    };
    if window <= flight {
        if tcb.snd_wnd == 0 && flight == 0 {
            return Some(1);
        }
        return None;
    }
    let usable: usize = (window - flight) as usize;
    let available: usize = if usable <= queued {
        usable
    } else {
        queued
    };
    if available < MSS && flight != 0 && !tcb.nodelay {
        return None;
    }
    Some(
        if available <= MSS {
            available
        } else {
            MSS
        },
    )
}

/// Closes our side: sends a FIN, if the connection is in a state in which it has not been sent.
pub fn close_tcb(tcb: &mut Tcb, local_ip: [u8; 4], now: u64) -> (fin: Option<Vec<u8>>)
    requires
        model::tcb_ok(old(tcb)@),
        model::clock_ok(now),
    ensures
        match model::closing_state(old(tcb)@.state) {
            Some(next) => {
                &&& reply_view(fin) == Some(model::fin_bytes(old(tcb)@, local_ip@))
                &&& final(tcb)@ == model::after_close(old(tcb)@, local_ip@, next, now)
            },
            None => fin is None && final(tcb)@ == old(tcb)@,
        },
        model::tcb_ok(final(tcb)@),
{
    let next: State = match tcb.state {
        State::Established => State::FinWait1,
        State::CloseWait => State::LastAck,
        _ => return None,
    };
    let none: Vec<u8> = Vec::new();
    assert(none@ =~= Seq::<u8>::empty());
    let bytes: Vec<u8> = tcb.own_segment(
        local_ip,
        tcb.remote_ip,
        tcb.snd_nxt,
        tcb.rcv_nxt,
        FIN_ACK,
        &none,
    );
    record_sent(tcb, &bytes, 1, now);
    tcb.state = next;
    Some(bytes)
}

/// `rto` doubled `tries` times, at most six times.
fn backed_off(rto: u32, tries: u32) -> (ticks: u64)
    requires
        rto <= RTO_MAX_TICKS,
    ensures
        ticks == model::backed_off(rto, tries),
        ticks <= RTO_MAX_TICKS * 64,
{
    let shift: u32 = if tries <= 6 {
        tries
    } else {
        6
    };
    let mut factor: u64 = 1;
    let mut i: u32 = 0;
    while i < shift
        invariant
            i <= shift <= 6,
            factor == model::doubled(i as int),
            factor <= 64,
            i == 0 ==> factor == 1,
            i == 1 ==> factor == 2,
            i == 2 ==> factor == 4,
            i == 3 ==> factor == 8,
            i == 4 ==> factor == 16,
            i == 5 ==> factor == 32,
        decreases shift - i,
    {
        factor = factor * 2;
        i = i + 1;
    }
    assert(rto * factor <= RTO_MAX_TICKS * 64) by (nonlinear_arith)
        requires
            rto <= RTO_MAX_TICKS,
            factor <= 64,
    ;
    rto as u64 * factor
}

/// Applies the clock reading `now` to a connection and returns the segment to resend, if any.
pub fn tick(tcb: &mut Tcb, now: u64) -> (resend: Option<Vec<u8>>)
    requires
        model::tcb_ok(old(tcb)@),
        model::clock_ok(now),
    ensures
        (final(tcb)@, reply_view(resend)) == model::tick_one(old(tcb)@, now),
        model::tcb_ok(final(tcb)@),
{
    let ghost t0 = tcb@;
    if tcb.state == State::TimeWait && now >= tcb.time_wait_deadline {
        tcb.state = State::Closed;
        tcb.retransmit.clear();
        assert(tcb@.retransmit =~= Seq::empty());
        return None;
    }
    if tcb.retransmit.len() == 0 || now < tcb.retransmit[0].deadline {
        return None;
    }
    assert(t0.retransmit[0] == tcb.retransmit@[0]@);
    if tcb.retransmit[0].tries >= MAX_RETRIES {
        tcb.state = State::Closed;
        tcb.retransmit.clear();
        assert(tcb@.retransmit =~= Seq::empty());
        return None;
    }
    let tries: u32 = tcb.retransmit[0].tries + 1;
    let wait: u64 = backed_off(tcb.rto, tries);
    tcb.retransmit[0].tries = tries;
    tcb.retransmit[0].deadline = now + wait;
    let resend: Vec<u8> = bytes::to_vec(&tcb.retransmit[0].segment);
    let ghost head = UnackedModel {
        tries,
        deadline: (now + model::backed_off(t0.rto, tries)) as u64,
        ..t0.retransmit[0]
    };
    assert(tcb@.retransmit =~= t0.retransmit.update(0, head));
    assert(tcb@ =~= (TcbModel { retransmit: t0.retransmit.update(0, head), ..t0 }));
    on_rto(tcb);
    Some(resend)
}

} // verus!
