//! What a connection makes of acknowledgements, what it sends and when, and how it opens and
//! closes.

use vstd::prelude::*;

use crate::net::tcp::laws;
use crate::net::tcp::model;
use crate::net::tcp::model::{Counters, State, TcbModel, UnackedModel};
use crate::net::tcp::receiving;
use crate::net::tcp::receiving::{acknowledgement, ahead, past};
use crate::net::tcp::segment;
use crate::net::tcp::segment::SegmentView;

verus! {

/// A segment that only acknowledges.
pub open spec fn only_acknowledges(s: SegmentView) -> bool {
    &&& s.flags & 0x10 != 0
    &&& s.flags & 0x01 == 0
    &&& s.flags & 0x02 == 0
    &&& s.payload.len() == 0
}

/// Whether `u`, a queued segment, ends at or before `ack`.
pub open spec fn is_covered(u: UnackedModel, ack: u32) -> bool {
    ahead(u.end_seq, ack) < 0x8000_0000
}

proof fn lemma_flags(f: u8)
    ensures
        f & 0x01 == 0 && f & 0x02 == 0 ==> f & (0x02u8 | 0x01u8) == 0,
{
    assert(f & 0x01 == 0 && f & 0x02 == 0 ==> f & (0x02u8 | 0x01u8) == 0) by (bit_vector);
}

/// What an acknowledgement of new data leaves of the sender.
proof fn lemma_new_ack(t: TcbModel, s: SegmentView, now: u64)
    requires
        s.flags & 0x10 != 0,
        0 < ahead(t.snd_una, s.ack) <= ahead(t.snd_una, t.snd_nxt),
    ensures
        ({
            let (after, fast) = model::after_ack(t, s, now);
            &&& !fast
            &&& receiving::same_receiver(after, t)
            &&& after.snd_una == s.ack
            &&& after.snd_wnd == s.window
            &&& after.dup_acks == 0
            &&& !after.in_fast_recovery
            &&& after.ssthresh == t.ssthresh
            &&& after.retransmit == t.retransmit.filter(model::still_unacked(s.ack))
            &&& after.cwnd == if t.in_fast_recovery {
                t.ssthresh
            } else {
                model::grown_cwnd(t, s.ack.wrapping_sub(t.snd_una))
            }
        }),
{
    assert(s.ack.wrapping_sub(t.snd_una) == ahead(t.snd_una, s.ack));
    assert(t.snd_nxt.wrapping_sub(t.snd_una) == ahead(t.snd_una, t.snd_nxt));
}

/// New data that is acknowledged is settled: the sender stands at the acknowledgement, knows the
/// window that came with it, keeps exactly those segments queued that are not covered, counts no
/// duplicates and is out of fast recovery. The stream it receives is untouched, and a bare
/// acknowledgement is not answered.
pub proof fn acknowledged_data_is_settled(
    t: TcbModel,
    c: Counters,
    local_ip: Seq<u8>,
    remote_ip: Seq<u8>,
    s: SegmentView,
    now: u64,
    u: UnackedModel,
)
    requires
        t.state == State::Established,
        only_acknowledges(s),
        0 < ahead(t.snd_una, s.ack) <= ahead(t.snd_una, t.snd_nxt),
    ensures
        ({
            let o = model::step(t, c, local_ip, remote_ip, s, now);
            &&& o.reply is None
            &&& receiving::same_receiver(o.tcb, t)
            &&& o.tcb.snd_una == s.ack
            &&& o.tcb.snd_wnd == s.window
            &&& o.tcb.dup_acks == 0
            &&& !o.tcb.in_fast_recovery
            &&& o.tcb.retransmit.contains(u) <==> t.retransmit.contains(u) && !is_covered(u, s.ack)
        }),
{
    broadcast use vstd::seq_lib::group_filter_ensures;

    lemma_new_ack(t, s, now);
    let t1 = model::after_ack(t, s, now).0;
    assert(model::step(t, c, local_ip, remote_ip, s, now).tcb == t1);
    let p = model::still_unacked(s.ack);
    let kept = t.retransmit.filter(p);
    assert(s.ack.wrapping_sub(u.end_seq) == ahead(u.end_seq, s.ack));
    if kept.contains(u) {
        let k = choose|k: int| 0 <= k < kept.len() && kept[k] == u;
        assert(p(kept[k]));
        receiving::lemma_filtered(t.retransmit, p, k);
    }
    if t.retransmit.contains(u) && p(u) {
        let k = choose|k: int| 0 <= k < t.retransmit.len() && t.retransmit[k] == u;
        assert(p(t.retransmit[k]));
    }
}

/// How the window opens when data is acknowledged: below the threshold by what was acknowledged,
/// at most 1024 bytes; at or above it by 1024 bytes for every window's worth, at least one byte;
/// and after fast recovery it falls back to the threshold. It never exceeds 32 bits.
pub proof fn acknowledgement_opens_the_window(t: TcbModel, s: SegmentView, now: u64)
    requires
        s.flags & 0x10 != 0,
        0 < ahead(t.snd_una, s.ack) <= ahead(t.snd_una, t.snd_nxt),
        t.cwnd >= 1024,
    ensures
        ({
            let after = model::after_ack(t, s, now).0;
            let acked = ahead(t.snd_una, s.ack);
            let grown = if t.cwnd < t.ssthresh {
                t.cwnd + if acked < 1024 {
                    acked
                } else {
                    1024
                }
            } else if t.cwnd <= 1048576 {
                t.cwnd + 1048576int / t.cwnd as int
            } else {
                t.cwnd + 1
            };
            &&& t.in_fast_recovery ==> after.cwnd == t.ssthresh
            &&& !t.in_fast_recovery && grown <= u32::MAX ==> after.cwnd == grown
            &&& !t.in_fast_recovery && grown > u32::MAX ==> after.cwnd == u32::MAX
            &&& after.ssthresh == t.ssthresh
        }),
{
    lemma_new_ack(t, s, now);
    assert(s.ack.wrapping_sub(t.snd_una) == ahead(t.snd_una, s.ack));
    let w = t.cwnd as int;
    if w <= 1048576 {
        assert(1 <= 1048576int / w) by (nonlinear_arith)
            requires
                1024 <= w <= 1048576,
        ;
    } else {
        assert(1048576int / w == 0) by (nonlinear_arith)
            requires
                w > 1048576,
        ;
    }
}

/// An acknowledgement of what was never sent, or of less than is settled already, is ignored
/// altogether, and so is a segment that carries nothing at all.
pub proof fn stray_acknowledgement_is_ignored(
    t: TcbModel,
    c: Counters,
    local_ip: Seq<u8>,
    remote_ip: Seq<u8>,
    s: SegmentView,
    now: u64,
)
    requires
        t.state == State::Established,
        s.flags & 0x01 == 0,
        s.payload.len() == 0,
        s.flags & 0x10 == 0 || ahead(t.snd_una, s.ack) > ahead(t.snd_una, t.snd_nxt),
    ensures
        model::step(t, c, local_ip, remote_ip, s, now) == model::silent(t, c),
{
    assert(s.ack.wrapping_sub(t.snd_una) == ahead(t.snd_una, s.ack));
    assert(t.snd_nxt.wrapping_sub(t.snd_una) == ahead(t.snd_una, t.snd_nxt));
}

/// With nothing outstanding an acknowledgement only tells the peer's window.
pub proof fn window_is_learned(
    t: TcbModel,
    c: Counters,
    local_ip: Seq<u8>,
    remote_ip: Seq<u8>,
    s: SegmentView,
    now: u64,
)
    requires
        t.state == State::Established,
        only_acknowledges(s),
        t.snd_una == t.snd_nxt,
        s.ack == t.snd_nxt,
    ensures
        model::step(t, c, local_ip, remote_ip, s, now) == model::silent(
            TcbModel { snd_wnd: s.window as u32, ..t },
            c,
        ),
{
}

/// The same acknowledgement again while data is outstanding is counted. The third calls for the
/// oldest segment, which goes out again at once, and starts fast recovery: the threshold is half
/// of what is in flight, at least 2048 bytes, and the window that much and 3072 bytes. Before the
/// third nothing is sent; after it the window grows by 1024 bytes each time.
pub proof fn duplicates_are_counted(
    t: TcbModel,
    c: Counters,
    local_ip: Seq<u8>,
    remote_ip: Seq<u8>,
    s: SegmentView,
    now: u64,
)
    requires
        t.state == State::Established,
        only_acknowledges(s),
        s.ack == t.snd_una,
        t.snd_una != t.snd_nxt,
        t.dup_acks < u32::MAX,
        t.retransmit.len() > 0,
        now + t.rto <= u64::MAX,
        t.cwnd <= u32::MAX - 1024,
    ensures
        ({
            let o = model::step(t, c, local_ip, remote_ip, s, now);
            let flight = ahead(t.snd_una, t.snd_nxt);
            let half = if flight / 2 >= 2048 {
                flight / 2
            } else {
                2048
            };
            &&& o.tcb.dup_acks == t.dup_acks + 1
            &&& o.tcb.snd_una == t.snd_una
            &&& o.tcb.snd_wnd == s.window
            &&& receiving::same_receiver(o.tcb, t)
            &&& t.dup_acks == 2 ==> {
                &&& o.reply == Some(t.retransmit[0].segment)
                &&& o.tcb.in_fast_recovery
                &&& o.tcb.ssthresh == half
                &&& o.tcb.cwnd == half + 3072
                &&& o.counters.fast_retransmits == c.fast_retransmits.wrapping_add(1)
                &&& o.tcb.retransmit.len() == t.retransmit.len()
                &&& o.tcb.retransmit[0].deadline == now + t.rto
                &&& o.tcb.retransmit[0].segment == t.retransmit[0].segment
                &&& forall|i: int|
                    0 < i < t.retransmit.len() ==> #[trigger] o.tcb.retransmit[i]
                        == t.retransmit[i]
            }
            &&& t.dup_acks != 2 ==> {
                &&& o.reply is None
                &&& o.counters == c
                &&& o.tcb.ssthresh == t.ssthresh
                &&& o.tcb.in_fast_recovery == t.in_fast_recovery
                &&& o.tcb.retransmit == t.retransmit
                &&& o.tcb.cwnd == if t.in_fast_recovery {
                    t.cwnd + 1024
                } else {
                    t.cwnd as int
                }
            }
        }),
{
    lemma_flags(s.flags);
    assert(t.snd_nxt.wrapping_sub(t.snd_una) == ahead(t.snd_una, t.snd_nxt));
    assert(s.ack.wrapping_sub(t.snd_una) == 0);
    let t0 = TcbModel { snd_wnd: s.window as u32, ..t };
    assert(model::is_duplicate_ack(t0, s));
    assert(model::after_ack(t, s, now) == model::after_duplicate_ack(t0));
}

// Round-trip times.

/// The first round trip of `m` ticks is taken as it is, with half of it as its variation; the
/// timeout is three times `m`, at least one tick more than `m`, and within 15 to 6000 ticks.
pub proof fn first_round_trip_is_taken(srtt: u32, rttvar: u32, m: u32)
    requires
        m < 0x1000_0000,
    ensures
        model::rtt_estimate(srtt, rttvar, false, m) == (
            (8 * m) as u32,
            (2 * m) as u32,
            (if 3 * m <= 15 {
                15
            } else if 3 * m >= 6000 {
                6000
            } else {
                3 * m
            }) as u32,
        ),
{
}

/// A further round trip moves the smoothed time by an eighth of the difference and the variation
/// by a quarter of what the difference deviates from it: from a smoothed time of `a` ticks and a
/// variation of `v` ticks, a round trip of `m` ticks gives seven eighths of `a` and an eighth of
/// `m`, and three quarters of `v` and a quarter of the distance of `m` and `a`. The timeout is the
/// smoothed time and four times the variation, within 15 to 6000 ticks.
pub proof fn round_trips_are_smoothed(a: nat, v: nat, m: u32)
    requires
        a < 0x0100_0000,
        v < 0x0100_0000,
        m < 0x0100_0000,
    ensures
        ({
            let (srtt, rttvar, rto) = model::rtt_estimate(
                (8 * a) as u32,
                (4 * v) as u32,
                true,
                m,
            );
            let distance = if m >= a {
                m - a
            } else {
                a - m
            };
            let timeout = (7 * a + m) / 8 + (3 * v + distance);
            &&& srtt == 7 * a + m
            &&& rttvar == 3 * v + distance
            &&& timeout >= 6000 ==> rto == 6000
            &&& timeout < 15 ==> rto == 15
            &&& 15 < timeout < 6000 && rttvar > 0 ==> rto == timeout
        }),
{
}

/// The acknowledgement of a segment that was sent twice is ambiguous and measures nothing; one
/// that was sent once measures the time since.
pub proof fn only_clean_segments_are_timed(t: TcbModel, s: SegmentView, now: u64)
    requires
        s.flags & 0x10 != 0,
        0 < ahead(t.snd_una, s.ack) <= ahead(t.snd_una, t.snd_nxt),
        t.retransmit.len() == 1,
        is_covered(t.retransmit[0], s.ack),
        t.retransmit[0].sent_at <= now,
        now - t.retransmit[0].sent_at < 0x1_0000_0000,
    ensures
        ({
            let after = model::after_ack(t, s, now).0;
            let u = t.retransmit[0];
            if u.tries > 0 {
                after.srtt == t.srtt && after.rttvar == t.rttvar && after.rto == t.rto
                    && after.rtt_valid == t.rtt_valid
            } else {
                (after.srtt, after.rttvar, after.rto) == model::rtt_estimate(
                    t.srtt,
                    t.rttvar,
                    t.rtt_valid,
                    (now - u.sent_at) as u32,
                ) && after.rtt_valid
            }
        }),
{
    let u = t.retransmit[0];
    assert(s.ack.wrapping_sub(t.snd_una) == ahead(t.snd_una, s.ack));
    assert(t.snd_nxt.wrapping_sub(t.snd_una) == ahead(t.snd_una, t.snd_nxt));
    assert(s.ack.wrapping_sub(u.end_seq) == ahead(u.end_seq, s.ack));
    reveal_with_fuel(model::latest_clean_send, 2);
}

// Sending.

/// What may be in flight: the smaller of the peer's window and the congestion window.
pub open spec fn allowed(t: TcbModel) -> int {
    if t.snd_wnd <= t.cwnd {
        t.snd_wnd as int
    } else {
        t.cwnd as int
    }
}

/// How much the next segment carries: as much as is queued and both windows allow, at most 1024
/// bytes; but nothing while less than a full segment could go and earlier data is outstanding,
/// unless delays are off; and one byte into a closed window with nothing outstanding.
pub proof fn next_segment_is_as_large_as_allowed(t: TcbModel)
    requires
        t.cwnd > 0,
    ensures
        ({
            let flight = ahead(t.snd_una, t.snd_nxt);
            let free = allowed(t) - flight;
            let queued = t.snd_buf.len() as int;
            let fits = if free <= queued {
                free
            } else {
                queued
            };
            &&& queued == 0 ==> model::next_chunk(t) is None
            &&& queued > 0 && t.snd_wnd == 0 ==> model::next_chunk(t) == if flight == 0 {
                Some(1nat)
            } else {
                None
            }
            &&& queued > 0 && t.snd_wnd > 0 && free <= 0 ==> model::next_chunk(t) is None
            &&& queued > 0 && free > 0 && fits >= 1024 ==> model::next_chunk(t) == Some(1024nat)
            &&& queued > 0 && free > 0 && fits < 1024 ==> model::next_chunk(t) == if flight == 0
                || t.nodelay {
                Some(fits as nat)
            } else {
                None
            }
        }),
{
    assert(t.snd_nxt.wrapping_sub(t.snd_una) == ahead(t.snd_una, t.snd_nxt));
}

/// A data segment carries the next queued bytes, is numbered with the next sequence number,
/// acknowledges all that was received and advertises the room left; it is queued for
/// retransmission after the timeout, behind all others, and its bytes leave the buffer.
pub proof fn data_segment_is_complete(t: TcbModel, local_ip: Seq<u8>, n: nat, now: u64)
    requires
        0 < n <= t.snd_buf.len(),
        n <= 1024,
        t.rx.len() <= 8192,
        now + t.rto <= u64::MAX,
    ensures
        ({
            let bytes = model::data_bytes(t, local_ip, n);
            let after = model::after_chunk(t, local_ip, n, now);
            &&& bytes == segment::encode(
                local_ip,
                t.remote_ip,
                SegmentView {
                    src_port: t.local_port,
                    dst_port: t.remote_port,
                    seq: t.snd_nxt,
                    ack: t.rcv_nxt,
                    flags: 0x18,
                    window: (8192 - t.rx.len()) as u16,
                    payload: t.snd_buf.take(n as int),
                },
            )
            &&& after.snd_buf == t.snd_buf.skip(n as int)
            &&& after.snd_nxt == past(t.snd_nxt, n as int)
            &&& after.snd_una == t.snd_una
            &&& after.rx == t.rx
            &&& after.rcv_nxt == t.rcv_nxt
            &&& after.state == t.state
            &&& after.retransmit.len() == t.retransmit.len() + 1
            &&& after.retransmit.drop_last() == t.retransmit
            &&& after.retransmit.last() == (UnackedModel {
                end_seq: past(t.snd_nxt, n as int) as u32,
                deadline: (now + t.rto) as u64,
                tries: 0,
                sent_at: now,
                segment: bytes,
            })
        }),
{
    let after = model::after_chunk(t, local_ip, n, now);
    assert(after.retransmit.drop_last() =~= t.retransmit);
}

/// Flushing sends all that may be sent: what stays queued stays because the windows are full, or
/// because it is less than a segment and waits for an acknowledgement that is due.
#[verifier::spinoff_prover]
#[verifier::rlimit(60)]
pub proof fn flush_sends_all_it_may(t: TcbModel, local_ip: Seq<u8>, now: u64)
    requires
        t.cwnd >= 1024,
        ahead(t.snd_una, t.snd_nxt) <= allowed(t) || t.snd_wnd == 0,
    ensures
        ({
            let after = model::flushed(t, local_ip, now).0;
            let flight = ahead(after.snd_una, after.snd_nxt);
            let free = allowed(t) - flight;
            after.snd_buf.len() > 0 ==> flight > 0 && (free <= 0 || (!t.nodelay && (free < 1024
                || after.snd_buf.len() < 1024)))
        }),
    decreases t.snd_buf.len(),
{
    assert(t.snd_nxt.wrapping_sub(t.snd_una) == ahead(t.snd_una, t.snd_nxt));
    match model::next_chunk(t) {
        Some(n) => {
            laws::chunk_fits_windows(t, local_ip, n, now);
            let next = model::after_chunk(t, local_ip, n, now);
            assert(next.snd_nxt.wrapping_sub(next.snd_una) == ahead(next.snd_una, next.snd_nxt));
            flush_sends_all_it_may(next, local_ip, now);
        },
        None => {},
    }
}

/// Only established connections send data, and each is flushed for itself.
pub proof fn only_established_connections_send(t: TcbModel, local_ip: Seq<u8>, now: u64)
    ensures
        t.state != State::Established ==> model::flush_one(t, local_ip, now) == (
            t,
            Seq::<Seq<u8>>::empty(),
        ),
        t.state == State::Established ==> model::flush_one(t, local_ip, now) == model::flushed(
            t,
            local_ip,
            now,
        ),
{
}

/// What the connections send goes out, each segment to the peer of its connection, and nothing
/// else does.
pub proof fn flush_reaches_every_peer(
    table: Seq<TcbModel>,
    local_ip: Seq<u8>,
    now: u64,
    x: (Seq<u8>, Seq<u8>),
)
    ensures
        model::flush_output(table, local_ip, now, table.len() as int).contains(x) <==> exists|i: int|
            0 <= i < table.len() && (#[trigger] table[i]).state == State::Established
                && table[i].remote_ip == x.1 && model::flushed(table[i], local_ip, now).1.contains(
                x.0,
            ),
        model::flush_table(table, local_ip, now).len() == table.len(),
        forall|i: int|
            0 <= i < table.len() ==> #[trigger] model::flush_table(table, local_ip, now)[i] == if (
            table[i].state == State::Established) {
                model::flushed(table[i], local_ip, now).0
            } else {
                table[i]
            },
{
    lemma_flush_output(table, local_ip, now, x, table.len() as int);
}

proof fn lemma_flush_output(
    table: Seq<TcbModel>,
    local_ip: Seq<u8>,
    now: u64,
    x: (Seq<u8>, Seq<u8>),
    n: int,
)
    requires
        0 <= n <= table.len(),
    ensures
        model::flush_output(table, local_ip, now, n).contains(x) <==> exists|i: int|
            0 <= i < n && (#[trigger] table[i]).state == State::Established && table[i].remote_ip
                == x.1 && model::flushed(table[i], local_ip, now).1.contains(x.0),
    decreases n,
{
    if n > 0 {
        lemma_flush_output(table, local_ip, now, x, n - 1);
        let t = table[n - 1];
        let before = model::flush_output(table, local_ip, now, n - 1);
        let segs = model::flush_one(t, local_ip, now).1;
        let more = model::addressed(segs, t.remote_ip);
        let all = model::flush_output(table, local_ip, now, n);
        assert(all == before + more);
        if all.contains(x) {
            let k = choose|k: int| 0 <= k < all.len() && all[k] == x;
            if k < before.len() {
                assert(before[k] == x);
            } else {
                assert(more[k - before.len()] == x);
                assert(segs[k - before.len()] == x.0);
                assert(table[n - 1].state == State::Established);
            }
        }
        if exists|i: int|
            0 <= i < n && (#[trigger] table[i]).state == State::Established && table[i].remote_ip
                == x.1 && model::flushed(table[i], local_ip, now).1.contains(x.0) {
            let i = choose|i: int|
                0 <= i < n && (#[trigger] table[i]).state == State::Established
                    && table[i].remote_ip == x.1 && model::flushed(
                    table[i],
                    local_ip,
                    now,
                ).1.contains(x.0);
            if i < n - 1 {
                let k = choose|k: int| 0 <= k < before.len() && before[k] == x;
                assert(all[k] == x);
            } else {
                let k = choose|k: int| 0 <= k < segs.len() && segs[k] == x.0;
                assert(more[k] == x);
                assert(all[before.len() + k] == x);
            }
        }
    }
}

// Timers.

/// Two to the power `n`, for a few `n`.
pub open spec fn power_of_two(n: int) -> int {
    if n <= 0 {
        1
    } else if n == 1 {
        2
    } else if n == 2 {
        4
    } else if n == 3 {
        8
    } else if n == 4 {
        16
    } else if n == 5 {
        32
    } else {
        64
    }
}

/// What a clock reading does to a connection that is not lingering: while the oldest segment is
/// not overdue, nothing. Then it goes out again, unchanged, and waits twice as long as the time
/// before; the window falls to one segment and the threshold to half of what is in flight, at
/// least 2048 bytes. After the fifth time the connection is given up.
pub proof fn clock_resends_the_oldest(t: TcbModel, now: u64)
    requires
        t.state != State::TimeWait,
        t.rto <= 6000,
        now + 6000 * 64 <= u64::MAX,
    ensures
        ({
            let (after, resent) = model::tick_one(t, now);
            let flight = ahead(t.snd_una, t.snd_nxt);
            &&& t.retransmit.len() == 0 || now < t.retransmit[0].deadline ==> (after, resent) == (
                t,
                None::<Seq<u8>>,
            )
            &&& t.retransmit.len() > 0 && now >= t.retransmit[0].deadline
                && t.retransmit[0].tries >= 5 ==> {
                &&& resent is None
                &&& after.state == State::Closed
                &&& after.retransmit.len() == 0
                &&& after.rx == t.rx
            }
            &&& t.retransmit.len() > 0 && now >= t.retransmit[0].deadline && t.retransmit[0].tries
                < 5 ==> {
                &&& resent == Some(t.retransmit[0].segment)
                &&& after.state == t.state
                &&& after.retransmit.len() == t.retransmit.len()
                &&& after.retransmit[0] == (UnackedModel {
                    tries: (t.retransmit[0].tries + 1) as u32,
                    deadline: (now + t.rto * power_of_two(t.retransmit[0].tries + 1)) as u64,
                    ..t.retransmit[0]
                })
                &&& forall|i: int|
                    0 < i < t.retransmit.len() ==> #[trigger] after.retransmit[i]
                        == t.retransmit[i]
                &&& after.cwnd == 1024
                &&& after.ssthresh == if flight / 2 >= 2048 {
                    flight / 2
                } else {
                    2048
                }
                &&& after.snd_una == t.snd_una && after.snd_nxt == t.snd_nxt && after.snd_buf
                    == t.snd_buf && after.rx == t.rx && after.rcv_nxt == t.rcv_nxt && after.rto
                    == t.rto
            }
        }),
{
    assert(t.snd_nxt.wrapping_sub(t.snd_una) == ahead(t.snd_una, t.snd_nxt));
    reveal_with_fuel(model::doubled, 7);
    if t.retransmit.len() > 0 && t.retransmit[0].tries < 5 {
        let n = t.retransmit[0].tries + 1;
        assert(model::doubled(n) == power_of_two(n));
    }
}

/// A lingering connection closes when its time is up, and not before.
pub proof fn lingering_ends_in_time(t: TcbModel, now: u64)
    requires
        t.state == State::TimeWait,
        t.retransmit.len() == 0,
    ensures
        now >= t.time_wait_deadline ==> model::tick_one(t, now).0.state == State::Closed
            && model::tick_one(t, now).1 is None,
        now < t.time_wait_deadline ==> model::tick_one(t, now) == (t, None::<Seq<u8>>),
{
}

/// What the clock makes connections send again goes out, to the peer of each, and nothing else.
pub proof fn clock_reaches_every_connection(table: Seq<TcbModel>, now: u64, x: (Seq<u8>, Seq<u8>))
    ensures
        model::tick_output(table, now, table.len() as int).contains(x) <==> exists|i: int|
            0 <= i < table.len() && model::tick_one(#[trigger] table[i], now).1 == Some(x.0)
                && table[i].remote_ip == x.1,
        model::tick_table(table, now).len() == table.len(),
        forall|i: int|
            0 <= i < table.len() ==> #[trigger] model::tick_table(table, now)[i]
                == model::tick_one(table[i], now).0,
{
    lemma_tick_output(table, now, x, table.len() as int);
}

proof fn lemma_tick_output(table: Seq<TcbModel>, now: u64, x: (Seq<u8>, Seq<u8>), n: int)
    requires
        0 <= n <= table.len(),
    ensures
        model::tick_output(table, now, n).contains(x) <==> exists|i: int|
            0 <= i < n && model::tick_one(#[trigger] table[i], now).1 == Some(x.0)
                && table[i].remote_ip == x.1,
    decreases n,
{
    if n > 0 {
        lemma_tick_output(table, now, x, n - 1);
        let t = table[n - 1];
        let before = model::tick_output(table, now, n - 1);
        let one = model::as_seq(model::tick_one(t, now).1);
        let more = model::addressed(one, t.remote_ip);
        let all = model::tick_output(table, now, n);
        assert(all == before + more);
        if all.contains(x) {
            let k = choose|k: int| 0 <= k < all.len() && all[k] == x;
            if k < before.len() {
                assert(before[k] == x);
            } else {
                assert(more[k - before.len()] == x);
                assert(table[n - 1].remote_ip == x.1);
            }
        }
        if exists|i: int|
            0 <= i < n && model::tick_one(#[trigger] table[i], now).1 == Some(x.0)
                && table[i].remote_ip == x.1 {
            let i = choose|i: int|
                0 <= i < n && model::tick_one(#[trigger] table[i], now).1 == Some(x.0)
                    && table[i].remote_ip == x.1;
            if i < n - 1 {
                let k = choose|k: int| 0 <= k < before.len() && before[k] == x;
                assert(all[k] == x);
            } else {
                assert(one[0] == x.0);
                assert(more[0] == x);
                assert(all[before.len() as int] == x);
            }
        }
    }
}

/// An acknowledgement that is due goes out when its time comes, and not before, to the peer of
/// its connection, and then is owed no longer.
pub proof fn due_acknowledgements_go_out(
    table: Seq<TcbModel>,
    local_ip: Seq<u8>,
    now: u64,
    x: (Seq<u8>, Seq<u8>),
)
    requires
        forall|i: int| 0 <= i < table.len() ==> (#[trigger] table[i]).rx.len() <= 8192,
    ensures
        model::overdue_acks(table, local_ip, now, table.len() as int).contains(x) <==> exists|i: int|
            0 <= i < table.len() && 0 < (#[trigger] table[i]).delayed_ack_deadline <= now
                && table[i].remote_ip == x.1 && x.0 == acknowledgement(
                table[i],
                table[i].rcv_nxt as int,
                table[i].rx.len(),
                local_ip,
                table[i].remote_ip,
            ),
        forall|i: int|
            0 <= i < table.len() ==> #[trigger] model::acked_table(table, now)[i] == if 0
                < table[i].delayed_ack_deadline <= now {
                TcbModel { unacked_segs: 0, delayed_ack_deadline: 0, ..table[i] }
            } else {
                table[i]
            },
{
    lemma_overdue_acks(table, local_ip, now, x, table.len() as int);
}

proof fn lemma_overdue_acks(
    table: Seq<TcbModel>,
    local_ip: Seq<u8>,
    now: u64,
    x: (Seq<u8>, Seq<u8>),
    n: int,
)
    requires
        0 <= n <= table.len(),
        forall|i: int| 0 <= i < table.len() ==> (#[trigger] table[i]).rx.len() <= 8192,
    ensures
        model::overdue_acks(table, local_ip, now, n).contains(x) <==> exists|i: int|
            0 <= i < n && 0 < (#[trigger] table[i]).delayed_ack_deadline <= now
                && table[i].remote_ip == x.1 && x.0 == acknowledgement(
                table[i],
                table[i].rcv_nxt as int,
                table[i].rx.len(),
                local_ip,
                table[i].remote_ip,
            ),
    decreases n,
{
    if n > 0 {
        lemma_overdue_acks(table, local_ip, now, x, n - 1);
        let t = table[n - 1];
        let before = model::overdue_acks(table, local_ip, now, n - 1);
        let all = model::overdue_acks(table, local_ip, now, n);
        let item = (model::ack_bytes(t, local_ip, t.remote_ip), t.remote_ip);
        assert(item.0 == acknowledgement(
            t,
            t.rcv_nxt as int,
            t.rx.len(),
            local_ip,
            t.remote_ip,
        ));
        if all.contains(x) {
            let k = choose|k: int| 0 <= k < all.len() && all[k] == x;
            if k < before.len() {
                assert(before[k] == x);
            } else {
                assert(0 < table[n - 1].delayed_ack_deadline <= now);
            }
        }
        if exists|i: int|
            0 <= i < n && 0 < (#[trigger] table[i]).delayed_ack_deadline <= now
                && table[i].remote_ip == x.1 && x.0 == acknowledgement(
                table[i],
                table[i].rcv_nxt as int,
                table[i].rx.len(),
                local_ip,
                table[i].remote_ip,
            ) {
            let i = choose|i: int|
                0 <= i < n && 0 < (#[trigger] table[i]).delayed_ack_deadline <= now
                    && table[i].remote_ip == x.1 && x.0 == acknowledgement(
                    table[i],
                    table[i].rcv_nxt as int,
                    table[i].rx.len(),
                    local_ip,
                    table[i].remote_ip,
                );
            if i < n - 1 {
                let k = choose|k: int| 0 <= k < before.len() && before[k] == x;
                assert(all[k] == x);
            } else {
                assert(all[before.len() as int] == x);
            }
        }
    }
}

} // verus!
