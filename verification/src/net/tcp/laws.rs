//! What the connection model guarantees across operations.

use vstd::prelude::*;

use crate::net::tcp::model;
use crate::net::tcp::model::{
    Counters, OutOfOrderModel, State, TcbModel, TcpModel, MSS, RCV_WINDOW_MAX,
};
use crate::net::tcp::segment;

verus! {

/// The sequence order is reflexive and antisymmetric, and does not depend on where the circle of
/// sequence numbers starts: shifting both numbers leaves their order alone, across a wrap too.
pub proof fn sequence_order(a: u32, b: u32, d: u32)
    ensures
        model::seq_leq(a, a),
        !model::seq_lt(a, a),
        model::seq_leq(a, b) && model::seq_leq(b, a) ==> a == b,
        model::seq_leq(a.wrapping_add(d), b.wrapping_add(d)) == model::seq_leq(a, b),
{
}

/// Advancing by one count and then another is advancing by their sum.
pub proof fn advances_add_up(a: u32, m: nat, n: nat)
    ensures
        model::advance(model::advance(a, m), n) == model::advance(a, m + n),
        model::advance(a, 0) == a,
        model::advance(a, 1) == a.wrapping_add(1),
{
}

/// No data segment overruns a window: it carries at most one maximum segment, and what is in
/// flight after it fits both the peer's window and the congestion window, unless it is the
/// one-byte probe of a closed window.
pub proof fn chunk_fits_windows(t: TcbModel, local_ip: Seq<u8>, n: nat, now: u64)
    requires
        model::next_chunk(t) == Some(n),
    ensures
        0 < n <= MSS,
        n <= t.snd_buf.len(),
        ({
            let after = model::after_chunk(t, local_ip, n, now);
            &&& model::in_flight(after) == model::in_flight(t) + n
            &&& {
                ||| model::in_flight(after) <= t.snd_wnd && model::in_flight(after) <= t.cwnd
                ||| t.snd_wnd == 0 && model::in_flight(t) == 0 && n == 1
            }
        }),
{
}

/// Flushing keeps what is in flight within both windows; only the probe of a closed window goes
/// beyond, by one byte.
pub proof fn flush_fits_windows(t: TcbModel, local_ip: Seq<u8>, now: u64)
    requires
        model::in_flight(t) <= t.snd_wnd,
        model::in_flight(t) <= t.cwnd,
    ensures
        ({
            let after = model::flushed(t, local_ip, now).0;
            &&& after.snd_wnd == t.snd_wnd
            &&& after.cwnd == t.cwnd
            &&& {
                ||| model::in_flight(after) <= t.snd_wnd && model::in_flight(after) <= t.cwnd
                ||| t.snd_wnd == 0 && model::in_flight(after) <= 1
            }
        }),
    decreases t.snd_buf.len(),
{
    match model::next_chunk(t) {
        Some(n) => {
            chunk_fits_windows(t, local_ip, n, now);
            let after = model::after_chunk(t, local_ip, n, now);
            if t.snd_wnd == 0 {
                assert(model::in_flight(after) == 1);
                assert(model::next_chunk(after) is None);
                assert(model::flushed(after, local_ip, now).0 == after);
            } else {
                flush_fits_windows(after, local_ip, now);
            }
        },
        None => {},
    }
}

/// The payloads of segments, one after the other.
pub open spec fn payloads(segs: Seq<Seq<u8>>) -> Seq<u8>
    decreases segs.len(),
{
    if segs.len() == 0 {
        Seq::empty()
    } else {
        segment::decode(segs[0]).payload + payloads(segs.skip(1))
    }
}

/// The segments carry consecutive stretches of the stream, the first at `seq`.
pub open spec fn consecutive(segs: Seq<Seq<u8>>, seq: u32) -> bool
    decreases segs.len(),
{
    segs.len() > 0 ==> {
        let first = segment::decode(segs[0]);
        &&& first.seq == seq
        &&& consecutive(segs.skip(1), model::advance(seq, first.payload.len()))
    }
}

/// The next data segment carries the next queued bytes, at the next sequence number.
proof fn lemma_chunk_arrives(t: TcbModel, local_ip: Seq<u8>, n: nat, now: u64)
    requires
        model::next_chunk(t) == Some(n),
    ensures
        ({
            let next = model::after_chunk(t, local_ip, n, now);
            let s = segment::decode(model::data_bytes(t, local_ip, n));
            &&& 0 < n <= t.snd_buf.len()
            &&& s.payload == t.snd_buf.take(n as int)
            &&& s.payload.len() == n
            &&& s.seq == t.snd_nxt
            &&& next.snd_nxt == model::advance(t.snd_nxt, n)
            &&& next.snd_una == t.snd_una
            &&& next.snd_buf == t.snd_buf.skip(n as int)
        }),
{
    chunk_fits_windows(t, local_ip, n, now);
    let sent = model::own_segment(
        t,
        t.snd_nxt,
        t.rcv_nxt,
        segment::PSH_ACK,
        t.snd_buf.take(n as int),
    );
    segment::segment_round_trip(local_ip, t.remote_ip, sent);
}

/// A segment in front of consecutive ones, with the bytes that come before theirs.
proof fn lemma_prepended(
    bytes: Seq<u8>,
    rest: Seq<Seq<u8>>,
    seq: u32,
    queued: Seq<u8>,
    n: nat,
    left: Seq<u8>,
    next: u32,
)
    requires
        n <= queued.len(),
        segment::decode(bytes).payload == queued.take(n as int),
        segment::decode(bytes).seq == seq,
        payloads(rest) + left == queued.skip(n as int),
        consecutive(rest, model::advance(seq, n)),
        next == model::advance(model::advance(seq, n), payloads(rest).len()),
    ensures
        payloads(seq![bytes] + rest) + left == queued,
        consecutive(seq![bytes] + rest, seq),
        next == model::advance(seq, payloads(seq![bytes] + rest).len()),
{
    let segs = seq![bytes] + rest;
    assert(segs.skip(1) =~= rest);
    assert(segs[0] == bytes);
    let chunk = queued.take(n as int);
    assert(payloads(segs) == chunk + payloads(rest));
    assert(payloads(segs) + left =~= chunk + (payloads(rest) + left));
    assert(chunk + queued.skip(n as int) =~= queued);
    advances_add_up(seq, n, payloads(rest).len());
}

/// Flushing loses and reorders nothing: what was queued is what the segments carry, in order and
/// numbered consecutively from the next sequence number, followed by what stays queued.
pub proof fn flush_keeps_the_stream(t: TcbModel, local_ip: Seq<u8>, now: u64)
    ensures
        ({
            let (after, segs) = model::flushed(t, local_ip, now);
            &&& payloads(segs) + after.snd_buf == t.snd_buf
            &&& consecutive(segs, t.snd_nxt)
            &&& after.snd_nxt == model::advance(t.snd_nxt, payloads(segs).len())
            &&& after.snd_una == t.snd_una
        }),
    decreases t.snd_buf.len(),
{
    match model::next_chunk(t) {
        Some(n) => {
            let next = model::after_chunk(t, local_ip, n, now);
            let (after, rest) = model::flushed(next, local_ip, now);
            lemma_chunk_arrives(t, local_ip, n, now);
            flush_keeps_the_stream(next, local_ip, now);
            lemma_prepended(
                model::data_bytes(t, local_ip, n),
                rest,
                t.snd_nxt,
                t.snd_buf,
                n,
                after.snd_buf,
                after.snd_nxt,
            );
        },
        None => {
            assert(payloads(Seq::empty()) + t.snd_buf =~= t.snd_buf);
            advances_add_up(t.snd_nxt, 0, 0);
        },
    }
}

/// `data` is the stretch of `stream` that starts at sequence number `seq`.
pub open spec fn carries(stream: spec_fn(u32) -> u8, seq: u32, data: Seq<u8>) -> bool {
    forall|i: int| 0 <= i < data.len() ==> #[trigger] data[i] == stream(model::advance(seq, i as nat))
}

/// Every held segment is a stretch of `stream`.
pub open spec fn holds_stream(stream: spec_fn(u32) -> u8, ooo: Seq<OutOfOrderModel>) -> bool {
    forall|i: int| 0 <= i < ooo.len() ==> carries(stream, (#[trigger] ooo[i]).seq, ooo[i].data)
}

/// `after` has received the stretch of `stream` that follows what `before` had.
pub open spec fn extends_stream(stream: spec_fn(u32) -> u8, before: TcbModel, after: TcbModel) -> bool {
    &&& before.rx.len() <= after.rx.len()
    &&& after.rx.take(before.rx.len() as int) == before.rx
    &&& after.rcv_nxt == model::advance(
        before.rcv_nxt,
        (after.rx.len() - before.rx.len()) as nat,
    )
    &&& carries(stream, before.rcv_nxt, after.rx.skip(before.rx.len() as int))
    &&& holds_stream(stream, after.ooo)
}

/// The tail of a stretch is a stretch.
proof fn lemma_tail_carries(stream: spec_fn(u32) -> u8, seq: u32, data: Seq<u8>, r: u32)
    requires
        carries(stream, seq, data),
        r.wrapping_sub(seq) <= data.len(),
    ensures
        carries(stream, r, data.skip(r.wrapping_sub(seq) as int)),
        model::advance(r, data.skip(r.wrapping_sub(seq) as int).len()) == model::advance(
            seq,
            data.len(),
        ),
{
    let k = r.wrapping_sub(seq) as nat;
    assert(model::advance(seq, k) == r);
    assert forall|i: int| 0 <= i < data.skip(k as int).len() implies #[trigger] data.skip(
        k as int,
    )[i] == stream(model::advance(r, i as nat)) by {
        assert(data.skip(k as int)[i] == data[k + i]);
        advances_add_up(seq, k, i as nat);
        assert(data[(k + i) as int] == stream(model::advance(seq, (k + i) as nat)));
    }
    advances_add_up(seq, k, (data.len() - k) as nat);
}

/// Extending twice is extending.
proof fn lemma_extends_twice(
    stream: spec_fn(u32) -> u8,
    a: TcbModel,
    b: TcbModel,
    c: TcbModel,
)
    requires
        extends_stream(stream, a, b),
        extends_stream(stream, b, c),
    ensures
        extends_stream(stream, a, c),
{
    let m = (b.rx.len() - a.rx.len()) as nat;
    let n = (c.rx.len() - b.rx.len()) as nat;
    advances_add_up(a.rcv_nxt, m, n);
    assert(c.rx.take(a.rx.len() as int) =~= c.rx.take(b.rx.len() as int).take(a.rx.len() as int));
    let tail = c.rx.skip(a.rx.len() as int);
    assert forall|i: int| 0 <= i < tail.len() implies #[trigger] tail[i] == stream(
        model::advance(a.rcv_nxt, i as nat),
    ) by {
        if i < m {
            assert(tail[i] == c.rx.take(b.rx.len() as int)[a.rx.len() + i]);
            assert(tail[i] == b.rx.skip(a.rx.len() as int)[i]);
        } else {
            assert(tail[i] == c.rx.skip(b.rx.len() as int)[i - m]);
            advances_add_up(a.rcv_nxt, m, (i - m) as nat);
        }
    }
}

/// Splicing held segments in extends the stream.
proof fn lemma_drained_extends(stream: spec_fn(u32) -> u8, t: TcbModel)
    requires
        holds_stream(stream, t.ooo),
    ensures
        extends_stream(stream, t, model::drained(t).0),
    decreases t.ooo.len(),
{
    let r = t.rcv_nxt;
    if exists|i: int| model::is_first_continuing(t, i) {
        let i = choose|i: int| model::is_first_continuing(t, i);
        let o = t.ooo[i];
        let s = model::spliced(t, i);
        assert(r.wrapping_sub(o.seq) < o.data.len());
        lemma_tail_carries(stream, o.seq, o.data, r);
        assert(s.rx.take(t.rx.len() as int) =~= t.rx);
        assert(s.rx.skip(t.rx.len() as int) =~= o.data.skip(r.wrapping_sub(o.seq) as int));
        assert forall|j: int| 0 <= j < s.ooo.len() implies carries(
            stream,
            (#[trigger] s.ooo[j]).seq,
            s.ooo[j].data,
        ) by {
            if j == i {
                assert(s.ooo[j] == t.ooo[t.ooo.len() - 1]);
            } else {
                assert(s.ooo[j] == t.ooo[j]);
            }
        }
        assert(extends_stream(stream, t, s));
        lemma_drained_extends(stream, s);
        lemma_extends_twice(stream, t, s, model::drained(s).0);
    } else {
        advances_add_up(r, 0, 0);
        assert(t.rx.take(t.rx.len() as int) =~= t.rx);
        assert(t.rx.skip(t.rx.len() as int) =~= Seq::empty());
        lemma_filter_holds(stream, t.ooo, r);
    }
}

/// Dropping held segments leaves the others alone.
proof fn lemma_filter_holds(stream: spec_fn(u32) -> u8, q: Seq<OutOfOrderModel>, r: u32)
    requires
        holds_stream(stream, q),
    ensures
        holds_stream(stream, q.filter(model::ahead_of(r))),
    decreases q.len(),
{
    reveal(Seq::filter);
    if q.len() > 0 {
        let p = model::ahead_of(r);
        let shorter = q.drop_last().filter(p);
        assert forall|i: int| 0 <= i < q.drop_last().len() implies carries(
            stream,
            (#[trigger] q.drop_last()[i]).seq,
            q.drop_last()[i].data,
        ) by {
            assert(q.drop_last()[i] == q[i]);
        }
        lemma_filter_holds(stream, q.drop_last(), r);
        assert(q.last() == q[q.len() - 1]);
        assert forall|i: int| 0 <= i < q.filter(p).len() implies carries(
            stream,
            (#[trigger] q.filter(p)[i]).seq,
            q.filter(p)[i].data,
        ) by {
            if i < shorter.len() {
                assert(q.filter(p)[i] == shorter[i]);
            }
        }
    }
}

/// Reassembly is faithful: whatever order segments of one stream arrive in, overlapping or
/// repeated, what the connection has received is the stream in order, without gaps, and the next
/// expected sequence number counts it exactly.
pub proof fn reassembly_is_faithful(
    stream: spec_fn(u32) -> u8,
    t: TcbModel,
    c: Counters,
    seq: u32,
    payload: Seq<u8>,
)
    requires
        holds_stream(stream, t.ooo),
        carries(stream, seq, payload),
    ensures
        extends_stream(stream, t, model::after_data(t, c, seq, payload).0),
{
    let r = t.rcv_nxt;
    let end = model::advance(seq, payload.len());
    advances_add_up(r, 0, 0);
    assert(t.rx.take(t.rx.len() as int) =~= t.rx);
    assert(t.rx.skip(t.rx.len() as int) =~= Seq::empty());
    if model::seq_leq(end, r) {
    } else if model::seq_leq(seq, r) {
        assert(r.wrapping_sub(seq) < payload.len());
        let fresh = payload.skip(r.wrapping_sub(seq) as int);
        if fresh.len() <= model::free_space(t) {
            lemma_tail_carries(stream, seq, payload, r);
            let s = TcbModel { rx: t.rx + fresh, rcv_nxt: end, ..t };
            assert(s.rx.take(t.rx.len() as int) =~= t.rx);
            assert(s.rx.skip(t.rx.len() as int) =~= fresh);
            assert(extends_stream(stream, t, s));
            lemma_drained_extends(stream, s);
            lemma_extends_twice(stream, t, s, model::drained(s).0);
        }
    } else if model::worth_holding(t, seq, payload) {
        let ooo = t.ooo.push(OutOfOrderModel { seq, data: payload });
        assert forall|i: int| 0 <= i < ooo.len() implies carries(
            stream,
            (#[trigger] ooo[i]).seq,
            ooo[i].data,
        ) by {
            if i < t.ooo.len() {
                assert(ooo[i] == t.ooo[i]);
            }
        }
    }
}

/// The receive buffer never exceeds its size, so the window advertised is the room there is.
pub proof fn receive_buffer_is_bounded(t: TcbModel, c: Counters, seq: u32, payload: Seq<u8>)
    requires
        t.rx.len() <= RCV_WINDOW_MAX,
    ensures
        model::after_data(t, c, seq, payload).0.rx.len() <= RCV_WINDOW_MAX,
        model::window_for(model::after_data(t, c, seq, payload).0.rx.len())
            + model::after_data(t, c, seq, payload).0.rx.len() == RCV_WINDOW_MAX,
{
    let end = model::advance(seq, payload.len());
    if !model::seq_leq(end, t.rcv_nxt) && model::seq_leq(seq, t.rcv_nxt) {
        let fresh = payload.skip(t.rcv_nxt.wrapping_sub(seq) as int);
        if fresh.len() <= model::free_space(t) {
            lemma_drained_fits(TcbModel { rx: t.rx + fresh, rcv_nxt: end, ..t });
        }
    }
}

/// Draining adds no more than fits.
proof fn lemma_drained_fits(t: TcbModel)
    requires
        t.rx.len() <= RCV_WINDOW_MAX,
    ensures
        model::drained(t).0.rx.len() <= RCV_WINDOW_MAX,
    decreases t.ooo.len(),
{
    if exists|i: int| model::is_first_continuing(t, i) {
        let i = choose|i: int| model::is_first_continuing(t, i);
        lemma_drained_fits(model::spliced(t, i));
    }
}

/// Data that does not fit is refused whole: nothing of it is kept, and the refusal is
/// acknowledged at once.
pub proof fn excess_data_is_refused(t: TcbModel, c: Counters, seq: u32, payload: Seq<u8>)
    requires
        model::seq_leq(seq, t.rcv_nxt),
        !model::seq_leq(model::advance(seq, payload.len()), t.rcv_nxt),
        payload.len() - t.rcv_nxt.wrapping_sub(seq) > model::free_space(t),
    ensures
        model::after_data(t, c, seq, payload) == (t, c, model::Accept::AckNow),
{
    assert(t.rcv_nxt.wrapping_sub(seq) < payload.len());
}

/// At most sixteen segments are held behind a gap.
pub proof fn held_segments_are_bounded(t: TcbModel, c: Counters, seq: u32, payload: Seq<u8>)
    requires
        t.ooo.len() <= model::MAX_OOO_SEGMENTS,
    ensures
        model::after_data(t, c, seq, payload).0.ooo.len() <= model::MAX_OOO_SEGMENTS,
{
    let end = model::advance(seq, payload.len());
    if !model::seq_leq(end, t.rcv_nxt) && model::seq_leq(seq, t.rcv_nxt) {
        let fresh = payload.skip(t.rcv_nxt.wrapping_sub(seq) as int);
        lemma_drained_shrinks(TcbModel { rx: t.rx + fresh, rcv_nxt: end, ..t });
    }
}

/// Draining never holds more than before.
proof fn lemma_drained_shrinks(t: TcbModel)
    ensures
        model::drained(t).0.ooo.len() <= t.ooo.len(),
    decreases t.ooo.len(),
{
    if exists|i: int| model::is_first_continuing(t, i) {
        let i = choose|i: int| model::is_first_continuing(t, i);
        lemma_drained_shrinks(model::spliced(t, i));
    } else {
        lemma_filter_shrinks(t.ooo, t.rcv_nxt);
    }
}

/// Filtering never makes a sequence longer.
proof fn lemma_filter_shrinks(q: Seq<OutOfOrderModel>, r: u32)
    ensures
        q.filter(model::ahead_of(r)).len() <= q.len(),
    decreases q.len(),
{
    reveal(Seq::filter);
    if q.len() > 0 {
        lemma_filter_shrinks(q.drop_last(), r);
    }
}

/// The third duplicate acknowledgement resends the oldest unacknowledged segment at once, and
/// enters fast recovery with the congestion window at half the flight plus three segments.
pub proof fn third_duplicate_resends(
    t: TcbModel,
    c: Counters,
    local_ip: Seq<u8>,
    remote_ip: Seq<u8>,
    s: segment::SegmentView,
    now: u64,
)
    requires
        t.state == State::Established,
        t.dup_acks == 2,
        t.retransmit.len() > 0,
        s.has(segment::ACK),
        model::is_duplicate_ack(t, s),
    ensures
        ({
            let o = model::step(t, c, local_ip, remote_ip, s, now);
            &&& o.reply == Some(t.retransmit[0].segment)
            &&& o.tcb.in_fast_recovery
            &&& o.tcb.cwnd == model::halved_flight(model::in_flight(t)) + 3 * MSS
            &&& o.tcb.rx == t.rx
        }),
{
}

/// A connection that never hears back is given up: a segment overdue after the last permitted
/// resend closes the connection and is not sent again.
pub proof fn silent_peer_is_given_up(t: TcbModel, now: u64)
    requires
        t.retransmit.len() > 0,
        t.retransmit[0].tries >= model::MAX_RETRIES,
        now >= t.retransmit[0].deadline,
    ensures
        model::tick_one(t, now).0.state == State::Closed,
        model::tick_one(t, now).0.retransmit.len() == 0,
        model::tick_one(t, now).1 is None,
{
}

/// What is sent is what is received: the next data segment, arriving where it is expected and
/// fits, appends exactly the bytes it was cut from, and leaves the two ends agreeing on the next
/// sequence number, ready for the next segment.
pub proof fn data_is_delivered(
    a: TcbModel,
    b: TcbModel,
    c: Counters,
    a_ip: Seq<u8>,
    n: nat,
    now: u64,
)
    requires
        model::next_chunk(a) == Some(n),
        a.snd_nxt == b.rcv_nxt,
        b.ooo.len() == 0,
        n <= model::free_space(b),
    ensures
        ({
            let s = segment::decode(model::data_bytes(a, a_ip, n));
            let received = model::after_data(b, c, s.seq, s.payload).0;
            &&& received.rx == b.rx + a.snd_buf.take(n as int)
            &&& received.rcv_nxt == model::after_chunk(a, a_ip, n, now).snd_nxt
            &&& received.ooo.len() == 0
        }),
{
    chunk_fits_windows(a, a_ip, n, now);
    let sent = model::own_segment(
        a,
        a.snd_nxt,
        a.rcv_nxt,
        segment::PSH_ACK,
        a.snd_buf.take(n as int),
    );
    segment::segment_round_trip(a_ip, a.remote_ip, sent);
    let end = model::advance(a.snd_nxt, n);
    let fresh = sent.payload.skip(0);
    assert(fresh =~= sent.payload);
    let s = TcbModel { rx: b.rx + fresh, rcv_nxt: end, ..b };
    assert(forall|i: int| !model::is_first_continuing(s, i));
    reveal(Seq::filter);
    assert(model::drained(s).0.rx == s.rx);
}

/// The two ends of one connection, each having acknowledged everything the other sent.
pub open spec fn in_step(a: TcbModel, b: TcbModel) -> bool {
    &&& a.snd_nxt == b.rcv_nxt
    &&& b.snd_nxt == a.rcv_nxt
    &&& a.snd_una == a.snd_nxt
    &&& b.snd_una == b.snd_nxt
}

/// What the segment `bytes` is when it arrives.
pub open spec fn arrives(bytes: Option<Seq<u8>>) -> segment::SegmentView {
    segment::decode(bytes.unwrap())
}

/// After an entry that matches is stored where none matched before, it is the one found.
proof fn lemma_find_stored(table: Seq<TcbModel>, p: spec_fn(TcbModel) -> bool, i: int, t: TcbModel)
    requires
        model::find(table, p) is None,
        0 <= i < table.len(),
        p(t),
    ensures
        model::find(table.update(i, t), p) == Some(i),
{
    let after = table.update(i, t);
    lemma_none_matches(table, p);
    assert(forall|j: int| 0 <= j < i ==> after[j] == table[j]);
    assert(model::is_first(after, p, i));
    let c = choose|c: int| model::is_first(after, p, c);
    assert(model::is_first(after, p, c));
    if c < i {
        assert(after[c] == table[c]);
    } else if i < c {
        assert(!p(after[i]));
    }
}

/// The same for an entry appended.
proof fn lemma_find_appended(table: Seq<TcbModel>, p: spec_fn(TcbModel) -> bool, t: TcbModel)
    requires
        model::find(table, p) is None,
        p(t),
    ensures
        model::find(table.push(t), p) == Some(table.len() as int),
{
    let after = table.push(t);
    let i = table.len() as int;
    lemma_none_matches(table, p);
    assert(forall|j: int| 0 <= j < i ==> after[j] == table[j]);
    assert(model::is_first(after, p, i));
    let c = choose|c: int| model::is_first(after, p, c);
    assert(model::is_first(after, p, c));
    if c < i {
        assert(after[c] == table[c]);
    }
}

/// Where nothing is found, nothing matches.
pub(crate) proof fn lemma_none_matches(table: Seq<TcbModel>, p: spec_fn(TcbModel) -> bool)
    requires
        model::find(table, p) is None,
    ensures
        forall|j: int| 0 <= j < table.len() ==> !p(#[trigger] table[j]),
{
    assert forall|j: int| 0 <= j < table.len() implies !p(#[trigger] table[j]) by {
        lemma_no_first(table, p, j);
    }
}

/// Without a first match, no position up to `j` matches.
proof fn lemma_no_first(table: Seq<TcbModel>, p: spec_fn(TcbModel) -> bool, j: int)
    requires
        model::find(table, p) is None,
        0 <= j < table.len(),
    ensures
        forall|k: int| 0 <= k <= j ==> !p(#[trigger] table[k]),
    decreases j,
{
    if j > 0 {
        lemma_no_first(table, p, j - 1);
    }
    if p(table[j]) {
        assert(model::is_first(table, p, j));
    }
}

/// A found entry matches, and is in the table.
proof fn lemma_found(table: Seq<TcbModel>, p: spec_fn(TcbModel) -> bool)
    requires
        model::find(table, p) is Some,
    ensures
        model::is_first(table, p, model::find(table, p).unwrap()),
{
}

/// There is one listener on a port, and no second: asking for one gives one, and asking again
/// changes nothing.
pub proof fn listener_is_unique(m: TcpModel, port: u16)
    requires
        model::tcp_ok(m),
    ensures
        ({
            let after = model::listening(m, port);
            let found = model::find(after.connections, model::listens_on(port));
            &&& model::tcp_ok(after)
            &&& model::listening(after, port) == after
            &&& found is Some
            &&& forall|j: int|
                0 <= j < after.connections.len() && model::listens_on(port)(
                    #[trigger] after.connections[j],
                ) ==> found == Some(j)
        }),
{
    let p = model::listens_on(port);
    let after = model::listening(m, port);
    if model::find(m.connections, p) is None {
        lemma_none_matches(m.connections, p);
        lemma_find_appended(m.connections, p, model::listener(port));
    }
    lemma_found(after.connections, p);
    let i = model::find(after.connections, p).unwrap();
    assert forall|j: int| 0 <= j < after.connections.len() && p(
        #[trigger] after.connections[j],
    ) implies i == j by {
        assert(p(after.connections[i]));
    }
}

/// A SYN to a listener, of a connection not known yet, uses the listener up: it becomes the
/// connection, none is left on the port, and the answer acknowledges the SYN and offers the
/// whole receive buffer.
pub proof fn syn_uses_up_the_listener(
    m: TcpModel,
    local_ip: Seq<u8>,
    remote_ip: Seq<u8>,
    s: segment::SegmentView,
    now: u64,
)
    requires
        model::tcp_ok(m),
        model::find(
            m.connections,
            model::owns_segment(remote_ip, s.src_port, s.dst_port),
        ) is None,
        model::find(m.connections, model::listens_on(s.dst_port)) is Some,
        s.has(segment::SYN),
        !s.has(segment::ACK),
    ensures
        ({
            let i = model::find(m.connections, model::listens_on(s.dst_port)).unwrap();
            let (after, reply) = model::on_segment(m, local_ip, remote_ip, s, now);
            &&& after.connections == m.connections.update(i, after.connections[i])
            &&& after.connections[i].state == State::SynReceived
            &&& model::find(
                after.connections,
                model::owns_segment(remote_ip, s.src_port, s.dst_port),
            ) == Some(i)
            &&& model::find(after.connections, model::listens_on(s.dst_port)) is None
            &&& reply == Some(
                segment::encode(
                    local_ip,
                    remote_ip,
                    (segment::SegmentView {
                        src_port: s.dst_port,
                        dst_port: s.src_port,
                        seq: m.next_isn,
                        ack: s.seq.wrapping_add(1),
                        flags: segment::SYN_ACK,
                        window: RCV_WINDOW_MAX as u16,
                        payload: Seq::empty(),
                    }),
                ),
            )
        }),
{
    let p = model::listens_on(s.dst_port);
    let owns = model::owns_segment(remote_ip, s.src_port, s.dst_port);
    lemma_found(m.connections, p);
    let i = model::find(m.connections, p).unwrap();
    let t = model::syn_received(m.connections[i], remote_ip, s, m.next_isn);
    let after = m.connections.update(i, t);
    assert(p(m.connections[i]));
    assert(model::entry_ok(m.connections[i]));
    lemma_find_stored(m.connections, owns, i, t);
    assert forall|j: int| !model::is_first(after, p, j) by {
        if 0 <= j < after.len() && p(after[j]) {
            assert(j != i);
            assert(after[j] == m.connections[j]);
            if i < j {
                assert(m.connections[i].local_port != m.connections[j].local_port);
            } else {
                assert(m.connections[j].local_port != m.connections[i].local_port);
            }
        }
    }
}

/// The three-way handshake: an active open answered by a listener takes three segments, after
/// which both ends are established and in step. `client` and `server` are the tables of two
/// hosts that do not know of this connection yet.
pub proof fn three_way_handshake(
    client: TcpModel,
    server: TcpModel,
    client_ip: Seq<u8>,
    server_ip: Seq<u8>,
    client_port: u16,
    server_port: u16,
    listener: int,
    now: u64,
)
    requires
        model::find(
            client.connections,
            model::owns_segment(server_ip, server_port, client_port),
        ) is None,
        model::find(
            server.connections,
            model::owns_segment(client_ip, client_port, server_port),
        ) is None,
        model::find(server.connections, model::listens_on(server_port)) == Some(listener),
    ensures
        ({
            let opened = model::syn_sent(client_port, server_port, server_ip, client.next_isn);
            let syn = segment::encode(
                client_ip,
                server_ip,
                model::own_segment(opened, opened.iss, 0, segment::SYN, Seq::empty()),
            );
            let client1 = TcpModel { connections: client.connections.push(opened), ..client };
            let (server1, syn_ack) = model::on_segment(
                server,
                server_ip,
                client_ip,
                segment::decode(syn),
                now,
            );
            let (client2, ack) = model::on_segment(
                client1,
                client_ip,
                server_ip,
                arrives(syn_ack),
                now,
            );
            let (server2, silence) = model::on_segment(
                server1,
                server_ip,
                client_ip,
                arrives(ack),
                now,
            );
            let c = client2.connections[client.connections.len() as int];
            let s = server2.connections[listener];
            &&& syn_ack is Some
            &&& ack is Some
            &&& silence is None
            &&& c.state == State::Established
            &&& s.state == State::Established
            &&& in_step(c, s)
            &&& s.remote_ip == client_ip
            &&& s.remote_port == client_port
            &&& s.local_port == server_port
        }),
{
    segment::flag_facts();
    let opened = model::syn_sent(client_port, server_port, server_ip, client.next_isn);
    let syn_view = model::own_segment(opened, opened.iss, 0, segment::SYN, Seq::empty());
    segment::segment_round_trip(client_ip, server_ip, syn_view);
    let syn = segment::encode(client_ip, server_ip, syn_view);
    let at_server = model::owns_segment(client_ip, client_port, server_port);
    let at_client = model::owns_segment(server_ip, server_port, client_port);
    let client1 = TcpModel { connections: client.connections.push(opened), ..client };
    lemma_find_appended(client.connections, at_client, opened);
    let (server1, syn_ack) = model::on_segment(
        server,
        server_ip,
        client_ip,
        segment::decode(syn),
        now,
    );
    let half = model::syn_received(
        server.connections[listener],
        client_ip,
        segment::decode(syn),
        server.next_isn,
    );
    assert(0 <= listener < server.connections.len());
    assert(server1.connections == server.connections.update(listener, half));
    lemma_find_stored(server.connections, at_server, listener, half);
    let syn_ack_view = model::own_segment(
        half,
        half.iss,
        half.rcv_nxt,
        segment::SYN_ACK,
        Seq::empty(),
    );
    segment::segment_round_trip(server_ip, client_ip, syn_ack_view);
    let (client2, ack) = model::on_segment(
        client1,
        client_ip,
        server_ip,
        arrives(syn_ack),
        now,
    );
    let n = client.connections.len() as int;
    assert(client1.connections[n] == opened);
    let open = model::on_syn_sent(
        opened,
        client.counters,
        client_ip,
        server_ip,
        arrives(syn_ack),
    ).tcb;
    assert(open.state == State::Established);
    assert(client2.connections[n] == open);
    let ack_view = model::own_segment(
        open,
        open.snd_nxt,
        open.rcv_nxt,
        segment::ACK,
        Seq::empty(),
    );
    segment::segment_round_trip(client_ip, server_ip, ack_view);
    assert(server1.connections[listener] == half);
}

/// An established end that has nothing outstanding takes an in-order FIN: it acknowledges the FIN
/// and awaits its own side's close.
proof fn lemma_takes_fin(
    t: TcbModel,
    c: Counters,
    local_ip: Seq<u8>,
    remote_ip: Seq<u8>,
    s: segment::SegmentView,
    now: u64,
)
    requires
        t.state == State::Established,
        t.snd_una == t.snd_nxt,
        s.has(segment::ACK),
        s.has(segment::FIN),
        s.ack == t.snd_nxt,
        s.seq == t.rcv_nxt,
        s.payload.len() == 0,
    ensures
        ({
            let o = model::step(t, c, local_ip, remote_ip, s, now);
            &&& o.tcb == model::nothing_owed(
                TcbModel {
                    snd_wnd: s.window as u32,
                    rcv_nxt: t.rcv_nxt.wrapping_add(1),
                    state: State::CloseWait,
                    ..t
                },
            )
            &&& o.reply == Some(model::ack_bytes(o.tcb, local_ip, remote_ip))
        }),
{
    advances_add_up(s.seq, 0, 0);
}

/// The acknowledgement of our FIN, which is all that is outstanding.
proof fn lemma_fin_acked(
    t: TcbModel,
    c: Counters,
    local_ip: Seq<u8>,
    remote_ip: Seq<u8>,
    s: segment::SegmentView,
    now: u64,
)
    requires
        t.state == State::FinWait1 || t.state == State::LastAck,
        model::in_flight(t) == 1,
        s.has(segment::ACK),
        !s.has(segment::FIN),
        s.ack == t.snd_nxt,
    ensures
        ({
            let o = model::step(t, c, local_ip, remote_ip, s, now);
            &&& o.reply is None
            &&& o.tcb.state == if t.state == State::FinWait1 {
                State::FinWait2
            } else {
                State::Closed
            }
            &&& o.tcb.snd_una == t.snd_nxt
            &&& o.tcb.snd_nxt == t.snd_nxt
            &&& o.tcb.rcv_nxt == t.rcv_nxt
            &&& o.tcb.rx == t.rx
            &&& o.tcb.local_port == t.local_port
            &&& o.tcb.remote_port == t.remote_port
            &&& o.tcb.remote_ip == t.remote_ip
        }),
{
    let t1 = TcbModel { snd_wnd: s.window as u32, ..t };
    assert(model::acks_new_data(t1, s));
    assert(!model::is_duplicate_ack(t1, s));
}

/// The peer's FIN after ours has been acknowledged.
proof fn lemma_both_finished(
    t: TcbModel,
    c: Counters,
    local_ip: Seq<u8>,
    remote_ip: Seq<u8>,
    s: segment::SegmentView,
    now: u64,
)
    requires
        t.state == State::FinWait2,
        t.snd_una == t.snd_nxt,
        s.has(segment::ACK),
        s.has(segment::FIN),
        s.ack == t.snd_nxt,
        s.seq == t.rcv_nxt,
        model::clock_ok(now),
    ensures
        ({
            let o = model::step(t, c, local_ip, remote_ip, s, now);
            &&& o.tcb.state == State::TimeWait
            &&& o.tcb.time_wait_deadline == now + model::TIME_WAIT_TICKS
            &&& o.tcb.snd_nxt == t.snd_nxt
            &&& o.tcb.rcv_nxt == t.rcv_nxt.wrapping_add(1)
            &&& o.reply == Some(model::ack_bytes(o.tcb, local_ip, remote_ip))
        }),
{
}

/// The orderly close: when one end of an established connection in step closes and then the
/// other, the FIN of each is acknowledged, the passive closer ends closed, and the active closer
/// lingers until its time is up and is closed by the clock.
pub proof fn orderly_close(
    a: TcbModel,
    b: TcbModel,
    c: Counters,
    a_ip: Seq<u8>,
    b_ip: Seq<u8>,
    now: u64,
    later: u64,
)
    requires
        a.state == State::Established,
        b.state == State::Established,
        in_step(a, b),
        a.remote_ip == b_ip,
        b.remote_ip == a_ip,
        model::clock_ok(now),
        later >= now + model::TIME_WAIT_TICKS,
    ensures
        ({
            let a1 = model::after_close(a, a_ip, State::FinWait1, now);
            let o2 = model::step(
                b,
                c,
                b_ip,
                a_ip,
                segment::decode(model::fin_bytes(a, a_ip)),
                now,
            );
            let o3 = model::step(a1, c, a_ip, b_ip, arrives(o2.reply), now);
            let b4 = model::after_close(o2.tcb, b_ip, State::LastAck, now);
            let o5 = model::step(
                o3.tcb,
                c,
                a_ip,
                b_ip,
                segment::decode(model::fin_bytes(o2.tcb, b_ip)),
                now,
            );
            let o6 = model::step(b4, c, b_ip, a_ip, arrives(o5.reply), now);
            &&& a1.state == State::FinWait1
            &&& o2.tcb.state == State::CloseWait
            &&& o2.reply is Some
            &&& o3.tcb.state == State::FinWait2
            &&& o3.reply is None
            &&& b4.state == State::LastAck
            &&& o5.tcb.state == State::TimeWait
            &&& o5.reply is Some
            &&& o6.tcb.state == State::Closed
            &&& model::tick_one(o5.tcb, later).0.state == State::Closed
        }),
{
    segment::flag_facts();
    advances_add_up(a.snd_nxt, 1, 0);
    advances_add_up(b.snd_nxt, 1, 0);
    let fin_a = model::own_segment(a, a.snd_nxt, a.rcv_nxt, segment::FIN_ACK, Seq::empty());
    segment::segment_round_trip(a_ip, b_ip, fin_a);
    let a1 = model::after_close(a, a_ip, State::FinWait1, now);
    let s2 = segment::decode(model::fin_bytes(a, a_ip));
    let o2 = model::step(b, c, b_ip, a_ip, s2, now);
    lemma_takes_fin(b, c, b_ip, a_ip, s2, now);
    let b2 = o2.tcb;
    let ack_b = model::own_segment(b2, b2.snd_nxt, b2.rcv_nxt, segment::ACK, Seq::empty());
    segment::segment_round_trip(b_ip, a_ip, ack_b);
    let s3 = arrives(o2.reply);
    let o3 = model::step(a1, c, a_ip, b_ip, s3, now);
    lemma_fin_acked(a1, c, a_ip, b_ip, s3, now);
    let a3 = o3.tcb;
    let b4 = model::after_close(b2, b_ip, State::LastAck, now);
    let fin_b = model::own_segment(b2, b2.snd_nxt, b2.rcv_nxt, segment::FIN_ACK, Seq::empty());
    segment::segment_round_trip(b_ip, a_ip, fin_b);
    let s5 = segment::decode(model::fin_bytes(b2, b_ip));
    let o5 = model::step(a3, c, a_ip, b_ip, s5, now);
    lemma_both_finished(a3, c, a_ip, b_ip, s5, now);
    let a5 = o5.tcb;
    let ack_a = model::own_segment(a5, a5.snd_nxt, a5.rcv_nxt, segment::ACK, Seq::empty());
    segment::segment_round_trip(a_ip, b_ip, ack_a);
    let s6 = arrives(o5.reply);
    lemma_fin_acked(b4, c, b_ip, a_ip, s6, now);
}

} // verus!
