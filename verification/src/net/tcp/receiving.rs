//! What a connection makes of the segments that reach it, by what they carry and where.

use vstd::prelude::*;

use crate::net::tcp::laws;
use crate::net::tcp::model;
use crate::net::tcp::model::{Counters, OutOfOrderModel, State, TcbModel};
use crate::net::tcp::segment;
use crate::net::tcp::segment::SegmentView;

verus! {

/// The sequence number `n` positions past `a`, round the circle of 32-bit numbers.
pub open spec fn past(a: u32, n: int) -> int {
    (a + n) % 0x1_0000_0000
}

/// How many positions `b` lies ahead of `a`, round the circle of 32-bit numbers.
pub open spec fn ahead(a: u32, b: u32) -> int {
    (b - a) % 0x1_0000_0000
}

/// The segment without data that acknowledges everything before `ack`, sent by connection `t`
/// with `unread` bytes in its receive buffer.
pub open spec fn acknowledgement(
    t: TcbModel,
    ack: int,
    unread: nat,
    local_ip: Seq<u8>,
    remote_ip: Seq<u8>,
) -> Seq<u8> {
    segment::encode(
        local_ip,
        remote_ip,
        SegmentView {
            src_port: t.local_port,
            dst_port: t.remote_port,
            seq: t.snd_nxt,
            ack: ack as u32,
            flags: 0x10,
            window: (8192 - unread) as u16,
            payload: Seq::empty(),
        },
    )
}

/// What the acknowledgement in a segment cannot touch.
pub open spec fn same_receiver(a: TcbModel, b: TcbModel) -> bool {
    &&& a.state == b.state
    &&& a.local_port == b.local_port
    &&& a.remote_port == b.remote_port
    &&& a.remote_ip == b.remote_ip
    &&& a.snd_nxt == b.snd_nxt
    &&& a.snd_buf == b.snd_buf
    &&& a.rcv_nxt == b.rcv_nxt
    &&& a.irs == b.irs
    &&& a.iss == b.iss
    &&& a.rx == b.rx
    &&& a.ooo == b.ooo
    &&& a.unacked_segs == b.unacked_segs
    &&& a.delayed_ack_deadline == b.delayed_ack_deadline
    &&& a.nodelay == b.nodelay
    &&& a.time_wait_deadline == b.time_wait_deadline
}

/// A segment with data or a close, once its acknowledgement has been processed.
proof fn lemma_reaches_data(
    t: TcbModel,
    c: Counters,
    local_ip: Seq<u8>,
    remote_ip: Seq<u8>,
    s: SegmentView,
    now: u64,
) -> (t1: TcbModel)
    requires
        t.state == State::Established,
        s.payload.len() > 0 || s.flags & 0x01 != 0,
    ensures
        same_receiver(t1, t),
        model::step(t, c, local_ip, remote_ip, s, now) == model::after_established_data(
            t1,
            c,
            local_ip,
            remote_ip,
            s,
            now,
        ),
{
    let f = s.flags;
    assert(f & 0x01 != 0 ==> f & (0x02u8 | 0x01u8) != 0) by (bit_vector);
    let (t1, fast) = model::after_ack(t, s, now);
    assert(!fast);
    t1
}

/// What is ahead of the stream, in the order of sequence numbers.
proof fn lemma_ahead(r: u32, seq: u32, n: nat)
    requires
        0 < ahead(r, seq),
        ahead(r, seq) + n < 0x8000_0000,
    ensures
        !model::seq_leq(seq, r),
        !model::seq_leq(model::advance(seq, n), r),
        model::advance(seq, n) != r,
{
    assert(seq.wrapping_sub(r) == ahead(r, seq));
    assert(model::advance(seq, n).wrapping_sub(r) == ahead(r, seq) + n);
}

/// What is behind the stream, in the order of sequence numbers.
proof fn lemma_behind(r: u32, seq: u32, n: nat)
    requires
        n <= ahead(seq, r) < 0x8000_0000,
    ensures
        model::seq_leq(model::advance(seq, n), r),
{
    assert(r.wrapping_sub(model::advance(seq, n)) == ahead(seq, r) - n);
}

/// With nothing held, data that continues the stream and fits is appended and nothing else
/// happens to it.
proof fn lemma_in_order(t: TcbModel, c: Counters, seq: u32, payload: Seq<u8>, d: int)
    requires
        t.ooo.len() == 0,
        0 <= d < payload.len() < 0x8000_0000,
        past(seq, d) == t.rcv_nxt,
        t.rx.len() + payload.len() - d <= 8192,
    ensures
        ({
            let (after, counters, accept) = model::after_data(t, c, seq, payload);
            &&& same_receiver(
                after,
                TcbModel {
                    rx: t.rx + payload.skip(d),
                    rcv_nxt: past(seq, payload.len() as int) as u32,
                    ..t
                },
            )
            &&& after.rcv_nxt == past(seq, payload.len() as int)
            &&& after.snd_una == t.snd_una
            &&& counters == c
            &&& accept is InOrderDelayable
        }),
{
    assert(t.rcv_nxt.wrapping_sub(seq) == d);
    let end = model::advance(seq, payload.len());
    assert(end == past(seq, payload.len() as int));
    let fresh = payload.skip(d);
    let s = TcbModel { rx: t.rx + fresh, rcv_nxt: end, ..t };
    assert(forall|i: int| !model::is_first_continuing(s, i));
    reveal(Seq::filter);
    assert(model::drained(s).0.ooo =~= t.ooo);
}

#[verifier::spinoff_prover]
#[verifier::rlimit(100)]
proof fn lemma_close_taken(
    t: TcbModel,
    c: Counters,
    local_ip: Seq<u8>,
    remote_ip: Seq<u8>,
    s: SegmentView,
    now: u64,
    d: int,
)
    requires
        s.flags & 0x01 != 0,
        t.ooo.len() == 0,
        0 <= d <= s.payload.len() < 0x8000_0000,
        past(s.seq, d) == t.rcv_nxt,
        t.rx.len() + s.payload.len() - d <= 8192,
    ensures
        ({
            let o = model::after_established_data(t, c, local_ip, remote_ip, s, now);
            &&& o.tcb.state == State::CloseWait
            &&& o.tcb.rcv_nxt == past(s.seq, s.payload.len() as int + 1)
            &&& o.tcb.rx == t.rx + s.payload.skip(d)
            &&& o.tcb.delayed_ack_deadline == 0
            &&& o.tcb.unacked_segs == 0
            &&& o.reply == Some(
                acknowledgement(
                    t,
                    past(s.seq, s.payload.len() as int + 1),
                    o.tcb.rx.len(),
                    local_ip,
                    remote_ip,
                ),
            )
        }),
{
    lemma_past(s.seq, s.payload.len());
    if d < s.payload.len() {
        lemma_in_order(t, c, s.seq, s.payload, d);
    } else {
        assert(s.payload.skip(d) =~= Seq::empty());
        assert(t.rx + s.payload.skip(d) =~= t.rx);
        laws::sequence_order(t.rcv_nxt, t.rcv_nxt, 0);
        if s.payload.len() > 0 {
            assert(model::after_data(t, c, s.seq, s.payload) == (t, c, model::Accept::AckNow));
        }
    }
}

proof fn lemma_past(seq: u32, n: nat)
    ensures
        model::advance(seq, n) == past(seq, n as int),
        model::advance(seq, n).wrapping_add(1) == past(seq, n as int + 1),
{
}

proof fn lemma_data_taken(
    t: TcbModel,
    c: Counters,
    local_ip: Seq<u8>,
    remote_ip: Seq<u8>,
    s: SegmentView,
    now: u64,
    d: int,
)
    requires
        t.state == State::Established,
        s.flags & 0x01 == 0,
        t.ooo.len() == 0,
        0 <= d < s.payload.len() < 0x8000_0000,
        past(s.seq, d) == t.rcv_nxt,
        t.rx.len() + s.payload.len() - d <= 8192,
        now + 5 <= u64::MAX,
    ensures
        ({
            let o = model::after_established_data(t, c, local_ip, remote_ip, s, now);
            &&& o.tcb.state == State::Established
            &&& o.tcb.rcv_nxt == past(s.seq, s.payload.len() as int)
            &&& o.tcb.rx == t.rx + s.payload.skip(d)
            &&& o.tcb.ooo.len() == 0
            &&& if t.unacked_segs == 0 {
                &&& o.reply is None
                &&& o.tcb.unacked_segs == 1
                &&& t.delayed_ack_deadline == 0 ==> o.tcb.delayed_ack_deadline == now + 5
                &&& t.delayed_ack_deadline != 0 ==> o.tcb.delayed_ack_deadline
                    == t.delayed_ack_deadline
            } else {
                &&& o.reply == Some(
                    acknowledgement(
                        t,
                        past(s.seq, s.payload.len() as int),
                        o.tcb.rx.len(),
                        local_ip,
                        remote_ip,
                    ),
                )
                &&& o.tcb.unacked_segs == 0
                &&& o.tcb.delayed_ack_deadline == 0
            }
        }),
{
    lemma_in_order(t, c, s.seq, s.payload, d);
}

proof fn lemma_gap_kept(
    t: TcbModel,
    c: Counters,
    local_ip: Seq<u8>,
    remote_ip: Seq<u8>,
    s: SegmentView,
    now: u64,
)
    requires
        !model::seq_leq(s.seq, t.rcv_nxt),
        !model::seq_leq(model::advance(s.seq, s.payload.len()), t.rcv_nxt),
        model::advance(s.seq, s.payload.len()) != t.rcv_nxt,
        t.rx.len() <= 8192,
    ensures
        ({
            let o = model::after_established_data(t, c, local_ip, remote_ip, s, now);
            let held = OutOfOrderModel { seq: s.seq, data: s.payload };
            &&& o.tcb.state == t.state
            &&& o.tcb.rcv_nxt == t.rcv_nxt
            &&& o.tcb.rx == t.rx
            &&& o.reply == if s.payload.len() > 0 {
                Some(
                    acknowledgement(t, t.rcv_nxt as int, t.rx.len(), local_ip, remote_ip),
                )
            } else {
                None
            }
            &&& o.tcb.ooo == if s.payload.len() > 0 && model::worth_holding(t, s.seq, s.payload) {
                t.ooo.push(held)
            } else {
                t.ooo
            }
        }),
{
}

proof fn lemma_old_kept(
    t: TcbModel,
    c: Counters,
    local_ip: Seq<u8>,
    remote_ip: Seq<u8>,
    s: SegmentView,
    now: u64,
)
    requires
        s.flags & 0x01 == 0,
        s.payload.len() > 0,
        model::seq_leq(model::advance(s.seq, s.payload.len()), t.rcv_nxt),
        t.rx.len() <= 8192,
    ensures
        ({
            let o = model::after_established_data(t, c, local_ip, remote_ip, s, now);
            &&& o.tcb.state == t.state
            &&& o.tcb.rcv_nxt == t.rcv_nxt
            &&& o.tcb.rx == t.rx
            &&& o.tcb.ooo == t.ooo
            &&& o.reply == Some(
                acknowledgement(t, t.rcv_nxt as int, t.rx.len(), local_ip, remote_ip),
            )
        }),
{
}

proof fn lemma_covers(o: OutOfOrderModel, seq: u32, n: nat)
    ensures
        model::covers(o, seq, model::advance(seq, n)) == all_within(seq, n, o),
{
    assert(seq.wrapping_sub(o.seq) == ahead(o.seq, seq));
    assert(model::held_end(o).wrapping_sub(model::advance(seq, n)) == (o.seq + o.data.len() - seq
        - n) % 0x1_0000_0000);
}

/// The peer's last data and its close arrive in one segment, and both are taken, however much
/// data there is: the part not yet received is appended, the position behind it is that of the
/// close, and the acknowledgement of both goes out at once. `d` bytes of the segment have been
/// received before.
pub proof fn last_data_and_close_are_taken(
    t: TcbModel,
    c: Counters,
    local_ip: Seq<u8>,
    remote_ip: Seq<u8>,
    s: SegmentView,
    now: u64,
    d: int,
)
    requires
        t.state == State::Established,
        s.flags & 0x10 != 0,
        s.flags & 0x01 != 0,
        t.ooo.len() == 0,
        0 <= d <= s.payload.len() < 0x8000_0000,
        past(s.seq, d) == t.rcv_nxt,
        t.rx.len() + s.payload.len() - d <= 8192,
    ensures
        ({
            let o = model::step(t, c, local_ip, remote_ip, s, now);
            &&& o.tcb.state == State::CloseWait
            &&& o.tcb.rcv_nxt == past(s.seq, s.payload.len() as int + 1)
            &&& o.tcb.rx == t.rx + s.payload.skip(d)
            &&& o.tcb.delayed_ack_deadline == 0
            &&& o.tcb.unacked_segs == 0
            &&& o.reply == Some(
                acknowledgement(
                    t,
                    past(s.seq, s.payload.len() as int + 1),
                    o.tcb.rx.len(),
                    local_ip,
                    remote_ip,
                ),
            )
        }),
{
    let t1 = lemma_reaches_data(t, c, local_ip, remote_ip, s, now);
    lemma_close_taken(t1, c, local_ip, remote_ip, s, now, d);
}

/// A close behind a gap is not taken yet: the stream stays where it is, and where data came with
/// it the acknowledgement repeats what is missing.
pub proof fn close_behind_a_gap_waits(
    t: TcbModel,
    c: Counters,
    local_ip: Seq<u8>,
    remote_ip: Seq<u8>,
    s: SegmentView,
    now: u64,
)
    requires
        t.state == State::Established,
        s.flags & 0x01 != 0,
        0 < ahead(t.rcv_nxt, s.seq),
        ahead(t.rcv_nxt, s.seq) + s.payload.len() < 0x8000_0000,
        t.rx.len() <= 8192,
    ensures
        ({
            let o = model::step(t, c, local_ip, remote_ip, s, now);
            &&& o.tcb.state == State::Established
            &&& o.tcb.rcv_nxt == t.rcv_nxt
            &&& o.tcb.rx == t.rx
            &&& o.reply == if s.payload.len() > 0 {
                Some(
                    acknowledgement(t, t.rcv_nxt as int, t.rx.len(), local_ip, remote_ip),
                )
            } else {
                None
            }
        }),
{
    let t1 = lemma_reaches_data(t, c, local_ip, remote_ip, s, now);
    lemma_ahead(t.rcv_nxt, s.seq, s.payload.len());
    lemma_gap_kept(t1, c, local_ip, remote_ip, s, now);
}

/// Data that continues the stream is received: the part that is new is appended and counted, and
/// nothing else of the stream changes. The first such segment is acknowledged within five ticks,
/// the second at once. `d` bytes of the segment have been received before.
pub proof fn data_in_order_is_received(
    t: TcbModel,
    c: Counters,
    local_ip: Seq<u8>,
    remote_ip: Seq<u8>,
    s: SegmentView,
    now: u64,
    d: int,
)
    requires
        t.state == State::Established,
        s.flags & 0x01 == 0,
        t.ooo.len() == 0,
        0 <= d < s.payload.len() < 0x8000_0000,
        past(s.seq, d) == t.rcv_nxt,
        t.rx.len() + s.payload.len() - d <= 8192,
        now + 5 <= u64::MAX,
    ensures
        ({
            let o = model::step(t, c, local_ip, remote_ip, s, now);
            &&& o.tcb.state == State::Established
            &&& o.tcb.rcv_nxt == past(s.seq, s.payload.len() as int)
            &&& o.tcb.rx == t.rx + s.payload.skip(d)
            &&& o.tcb.ooo.len() == 0
            &&& if t.unacked_segs == 0 {
                &&& o.reply is None
                &&& o.tcb.unacked_segs == 1
                &&& t.delayed_ack_deadline == 0 ==> o.tcb.delayed_ack_deadline == now + 5
                &&& t.delayed_ack_deadline != 0 ==> o.tcb.delayed_ack_deadline
                    == t.delayed_ack_deadline
            } else {
                &&& o.reply == Some(
                    acknowledgement(
                        t,
                        past(s.seq, s.payload.len() as int),
                        o.tcb.rx.len(),
                        local_ip,
                        remote_ip,
                    ),
                )
                &&& o.tcb.unacked_segs == 0
                &&& o.tcb.delayed_ack_deadline == 0
            }
        }),
{
    let t1 = lemma_reaches_data(t, c, local_ip, remote_ip, s, now);
    lemma_data_taken(t1, c, local_ip, remote_ip, s, now, d);
}

/// Data received before is not received again, and is acknowledged again at once: the peer has
/// not seen the acknowledgement.
pub proof fn old_data_is_acknowledged_again(
    t: TcbModel,
    c: Counters,
    local_ip: Seq<u8>,
    remote_ip: Seq<u8>,
    s: SegmentView,
    now: u64,
)
    requires
        t.state == State::Established,
        s.flags & 0x01 == 0,
        0 < s.payload.len() <= ahead(s.seq, t.rcv_nxt) < 0x8000_0000,
        t.rx.len() <= 8192,
    ensures
        ({
            let o = model::step(t, c, local_ip, remote_ip, s, now);
            &&& o.tcb.state == State::Established
            &&& o.tcb.rcv_nxt == t.rcv_nxt
            &&& o.tcb.rx == t.rx
            &&& o.tcb.ooo == t.ooo
            &&& o.reply == Some(
                acknowledgement(t, t.rcv_nxt as int, t.rx.len(), local_ip, remote_ip),
            )
        }),
{
    let t1 = lemma_reaches_data(t, c, local_ip, remote_ip, s, now);
    lemma_behind(t.rcv_nxt, s.seq, s.payload.len());
    lemma_old_kept(t1, c, local_ip, remote_ip, s, now);
}

/// Data ahead of the stream is held, unless all of it is held already or sixteen segments are;
/// the stream does not change, and the acknowledgement repeats at once what is missing.
pub proof fn data_behind_a_gap_is_held(
    t: TcbModel,
    c: Counters,
    local_ip: Seq<u8>,
    remote_ip: Seq<u8>,
    s: SegmentView,
    now: u64,
)
    requires
        t.state == State::Established,
        s.payload.len() > 0,
        0 < ahead(t.rcv_nxt, s.seq),
        ahead(t.rcv_nxt, s.seq) + s.payload.len() < 0x8000_0000,
        t.rx.len() <= 8192,
    ensures
        ({
            let o = model::step(t, c, local_ip, remote_ip, s, now);
            let held = OutOfOrderModel { seq: s.seq, data: s.payload };
            &&& o.tcb.rcv_nxt == t.rcv_nxt
            &&& o.tcb.rx == t.rx
            &&& o.reply == Some(
                acknowledgement(t, t.rcv_nxt as int, t.rx.len(), local_ip, remote_ip),
            )
            &&& o.tcb.ooo == t.ooo || o.tcb.ooo == t.ooo.push(held)
            &&& t.ooo.len() < 16 && (forall|i: int|
                0 <= i < t.ooo.len() ==> !all_within(
                    s.seq,
                    s.payload.len(),
                    #[trigger] t.ooo[i],
                )) ==> o.tcb.ooo == t.ooo.push(held)
            &&& t.ooo.len() >= 16 || (exists|i: int|
                0 <= i < t.ooo.len() && all_within(
                    s.seq,
                    s.payload.len(),
                    #[trigger] t.ooo[i],
                )) ==> o.tcb.ooo == t.ooo
        }),
{
    let t1 = lemma_reaches_data(t, c, local_ip, remote_ip, s, now);
    lemma_ahead(t.rcv_nxt, s.seq, s.payload.len());
    lemma_gap_kept(t1, c, local_ip, remote_ip, s, now);
    if t.ooo.len() < 16 && (forall|i: int|
        0 <= i < t.ooo.len() ==> !all_within(s.seq, s.payload.len(), #[trigger] t.ooo[i])) {
        let end = model::advance(s.seq, s.payload.len());
        assert forall|i: int| 0 <= i < t.ooo.len() implies !model::covers(
            #[trigger] t.ooo[i],
            s.seq,
            end,
        ) by {
            lemma_covers(t.ooo[i], s.seq, s.payload.len());
        }
    }
    if exists|i: int|
        0 <= i < t.ooo.len() && all_within(s.seq, s.payload.len(), #[trigger] t.ooo[i]) {
        let i = choose|i: int|
            0 <= i < t.ooo.len() && all_within(s.seq, s.payload.len(), #[trigger] t.ooo[i]);
        lemma_covers(t.ooo[i], s.seq, s.payload.len());
        assert(model::covers(t.ooo[i], s.seq, model::advance(s.seq, s.payload.len())));
    }
}

/// Whether the `n` bytes from `seq` on lie within a held segment.
pub open spec fn all_within(seq: u32, n: nat, o: OutOfOrderModel) -> bool {
    &&& ahead(o.seq, seq) < 0x8000_0000
    &&& (o.seq + o.data.len() - seq - n) % 0x1_0000_0000 < 0x8000_0000
}

/// A held segment that begins where the data received ends is delivered with it.
proof fn lemma_held_follows(b: TcbModel, c: Counters, first: Seq<u8>, second: Seq<u8>, at: u32)
    requires
        first.len() > 0,
        second.len() > 0,
        b.rx.len() + first.len() + second.len() <= 8192,
        at == past(b.rcv_nxt, first.len() as int),
        b.ooo == seq![OutOfOrderModel { seq: at, data: second }],
    ensures
        ({
            let (after, counters, accept) = model::after_data(b, c, b.rcv_nxt, first);
            &&& after.rx == b.rx + first + second
            &&& after.rcv_nxt == past(b.rcv_nxt, (first.len() + second.len()) as int)
            &&& after.ooo.len() == 0
            &&& accept is AckNow
        }),
{
    let r = b.rcv_nxt;
    let end = past(r, (first.len() + second.len()) as int) as u32;
    assert(first.skip(0) =~= first);
    assert(model::advance(r, first.len()) == at);
    assert(model::advance(at, second.len()) == end);
    let held = OutOfOrderModel { seq: at, data: second };
    let s = TcbModel { rx: b.rx + first, rcv_nxt: at, ..b };
    assert(model::held_end(held) == end);
    assert(model::touches(held, at));
    assert(model::part_from(held, at) =~= second);
    assert(s.ooo[0] == held);
    assert(model::is_first_continuing(s, 0));
    let i = choose|i: int| model::is_first_continuing(s, i);
    assert(i == 0);
    let u = model::spliced(s, 0);
    assert(u.ooo.len() == 0);
    assert(forall|j: int| !model::is_first_continuing(u, j));
    reveal(Seq::filter);
    assert(model::drained(u).0.ooo.len() == 0);
    assert(model::drained(s) == (model::drained(u).0, true));
}

/// Two stretches of the stream that arrive one after the other are received one after the other.
pub proof fn stretches_add_up(t: TcbModel, c: Counters, first: Seq<u8>, second: Seq<u8>, at: u32)
    requires
        t.ooo.len() == 0,
        first.len() > 0,
        second.len() > 0,
        t.rx.len() + first.len() + second.len() <= 8192,
        at == past(t.rcv_nxt, first.len() as int),
    ensures
        ({
            let a = model::after_data(t, c, t.rcv_nxt, first);
            let ab = model::after_data(a.0, c, at, second);
            &&& ab.0.rx == t.rx + first + second
            &&& ab.0.rcv_nxt == past(t.rcv_nxt, (first.len() + second.len()) as int)
            &&& ab.0.ooo.len() == 0
        }),
{
    let r = t.rcv_nxt;
    assert(first.skip(0) =~= first);
    assert(second.skip(0) =~= second);
    lemma_in_order(t, c, r, first, 0);
    let a = model::after_data(t, c, r, first).0;
    lemma_in_order(a, c, at, second, 0);
}

proof fn lemma_held_first(t: TcbModel, c: Counters, second: Seq<u8>, at: u32)
    requires
        t.ooo.len() == 0,
        0 < ahead(t.rcv_nxt, at) <= 8192,
        0 < second.len() <= 8192,
    ensures
        ({
            let b = model::after_data(t, c, at, second);
            &&& b.0.ooo == seq![OutOfOrderModel { seq: at, data: second }]
            &&& b.0.rx == t.rx
            &&& b.0.rcv_nxt == t.rcv_nxt
            &&& b.2 is AckNow
        }),
{
    lemma_ahead(t.rcv_nxt, at, second.len());
    let held = OutOfOrderModel { seq: at, data: second };
    assert(t.ooo.push(held) =~= seq![held]);
}

/// Two stretches of the stream that arrive in the wrong order leave the same bytes received as in
/// the right one, and nothing held: the second is held until the first is there, and both
/// arrivals are acknowledged at once.
pub proof fn swapped_stretches_are_put_in_order(
    t: TcbModel,
    c: Counters,
    first: Seq<u8>,
    second: Seq<u8>,
    at: u32,
)
    requires
        t.ooo.len() == 0,
        first.len() > 0,
        second.len() > 0,
        t.rx.len() + first.len() + second.len() <= 8192,
        at == past(t.rcv_nxt, first.len() as int),
    ensures
        ({
            let b = model::after_data(t, c, at, second);
            let ba = model::after_data(b.0, c, t.rcv_nxt, first);
            &&& b.0.rx == t.rx
            &&& b.2 is AckNow
            &&& ba.0.rx == t.rx + first + second
            &&& ba.0.rcv_nxt == past(t.rcv_nxt, (first.len() + second.len()) as int)
            &&& ba.0.ooo.len() == 0
            &&& ba.2 is AckNow
        }),
{
    lemma_held_first(t, c, second, at);
    let b = model::after_data(t, c, at, second).0;
    lemma_held_follows(b, c, first, second, at);
}

/// Whether a held segment has bytes at the next expected position `r` and room for them is left.
pub open spec fn deliverable(o: OutOfOrderModel, r: u32, room: int) -> bool {
    &&& ahead(o.seq, r) < o.data.len()
    &&& o.data.len() - ahead(o.seq, r) <= room
}

/// Nothing is held back and nothing held is lost: once data has been received, no held segment
/// remains that continues the stream and fits, and one that is no longer held has been received
/// to its end.
pub proof fn held_data_is_delivered(t: TcbModel, c: Counters, seq: u32, payload: Seq<u8>, d: int)
    requires
        0 <= d < payload.len() < 0x8000_0000,
        past(seq, d) == t.rcv_nxt,
        t.rx.len() + payload.len() - d <= 8192,
        forall|i: int| 0 <= i < t.ooo.len() ==> (#[trigger] t.ooo[i]).data.len() < 0x8000_0000,
    ensures
        ({
            let after = model::after_data(t, c, seq, payload).0;
            &&& forall|i: int|
                0 <= i < after.ooo.len() ==> !deliverable(
                    #[trigger] after.ooo[i],
                    after.rcv_nxt,
                    8192 - after.rx.len(),
                )
            &&& forall|i: int|
                0 <= i < after.ooo.len() ==> t.ooo.contains(#[trigger] after.ooo[i])
        }),
{
    assert(t.rcv_nxt.wrapping_sub(seq) == d);
    let end = model::advance(seq, payload.len());
    assert(end == past(seq, payload.len() as int));
    let s = TcbModel { rx: t.rx + payload.skip(d), rcv_nxt: end, ..t };
    lemma_drained_delivers(s);
}

proof fn lemma_drained_delivers(t: TcbModel)
    requires
        t.rx.len() <= 8192,
        forall|i: int| 0 <= i < t.ooo.len() ==> (#[trigger] t.ooo[i]).data.len() < 0x8000_0000,
    ensures
        ({
            let after = model::drained(t).0;
            &&& forall|i: int|
                0 <= i < after.ooo.len() ==> !deliverable(
                    #[trigger] after.ooo[i],
                    after.rcv_nxt,
                    8192 - after.rx.len(),
                )
            &&& forall|i: int|
                0 <= i < after.ooo.len() ==> t.ooo.contains(#[trigger] after.ooo[i])
        }),
    decreases t.ooo.len(),
{
    broadcast use vstd::seq_lib::group_filter_ensures;

    if exists|i: int| model::is_first_continuing(t, i) {
        let i = choose|i: int| model::is_first_continuing(t, i);
        let s = model::spliced(t, i);
        assert forall|j: int| 0 <= j < s.ooo.len() implies t.ooo.contains(#[trigger] s.ooo[j]) by {
            if j == i {
                assert(s.ooo[j] == t.ooo[t.ooo.len() - 1]);
            } else {
                assert(s.ooo[j] == t.ooo[j]);
            }
        }
        lemma_drained_delivers(s);
        let after = model::drained(s).0;
        assert forall|j: int| 0 <= j < after.ooo.len() implies t.ooo.contains(
            #[trigger] after.ooo[j],
        ) by {
            let k = choose|k: int| 0 <= k < s.ooo.len() && s.ooo[k] == after.ooo[j];
            assert(t.ooo.contains(s.ooo[k]));
        }
    } else {
        let p = model::ahead_of(t.rcv_nxt);
        let kept = t.ooo.filter(p);
        assert forall|j: int| 0 <= j < kept.len() implies t.ooo.contains(#[trigger] kept[j])
            && !deliverable(kept[j], t.rcv_nxt, 8192 - t.rx.len()) by {
            let o = kept[j];
            lemma_filtered(t.ooo, p, j);
            let k = choose|k: int| 0 <= k < t.ooo.len() && t.ooo[k] == o;
            lemma_none_continues(t, k);
            assert(!model::continues(t, t.ooo[k]));
            let off = t.rcv_nxt.wrapping_sub(o.seq);
            assert(off == ahead(o.seq, t.rcv_nxt));
            if off < o.data.len() {
                assert(model::held_end(o).wrapping_sub(t.rcv_nxt) == o.data.len() - off);
            }
        }
    }
}

/// What a filter leaves was there.
pub(crate) proof fn lemma_filtered<A>(q: Seq<A>, p: spec_fn(A) -> bool, j: int)
    requires
        0 <= j < q.filter(p).len(),
    ensures
        q.contains(q.filter(p)[j]),
    decreases q.len(),
{
    reveal(Seq::filter);
    let shorter = q.drop_last().filter(p);
    if j < shorter.len() {
        lemma_filtered(q.drop_last(), p, j);
        let k = choose|k: int| 0 <= k < q.drop_last().len() && q.drop_last()[k] == shorter[j];
        assert(q[k] == shorter[j]);
    } else {
        assert(q[q.len() - 1] == q.last());
    }
}

proof fn lemma_none_continues(t: TcbModel, k: int)
    requires
        !exists|i: int| model::is_first_continuing(t, i),
        0 <= k < t.ooo.len(),
    ensures
        forall|j: int| 0 <= j <= k ==> !model::continues(t, #[trigger] t.ooo[j]),
    decreases k,
{
    if k > 0 {
        lemma_none_continues(t, k - 1);
    }
    if model::continues(t, t.ooo[k]) {
        assert(model::is_first_continuing(t, k));
    }
}

} // verus!
