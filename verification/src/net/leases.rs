//! What a DHCP server's message tells us, by the options it is made of, and what becomes of it.

use vstd::prelude::*;

use crate::bytes;
use crate::net::dhcp;
use crate::net::dhcp::ReplyView;
use crate::net::jobs::StepView;
use crate::net::lookup;
use crate::net::lookup::DhcpExchangeView;
use crate::net::stack::StackModel;

verus! {

/// An option of a message: its code and its value. Code zero is a byte of padding.
pub type Item = (u8, Seq<u8>);

/// How an option is written: padding is a single byte, any other is its code, the length of its
/// value and the value.
pub open spec fn item_bytes(o: Item) -> Seq<u8> {
    if o.0 == 0 {
        seq![0u8]
    } else {
        seq![o.0, o.1.len() as u8] + o.1
    }
}

/// Options one behind the other.
pub open spec fn items_bytes(os: Seq<Item>) -> Seq<u8>
    decreases os.len(),
{
    if os.len() == 0 {
        Seq::empty()
    } else {
        item_bytes(os[0]) + items_bytes(os.skip(1))
    }
}

/// Whether options can be written: their values are at most 255 bytes long, and none has the
/// code that ends the list.
pub open spec fn writable(os: Seq<Item>) -> bool {
    forall|i: int| 0 <= i < os.len() ==> (#[trigger] os[i]).0 != 255 && os[i].1.len() <= 255
}

/// Whether `h` is what stands before the options in a message of a server in the exchange `xid`
/// that gives us the address `ip`.
pub open spec fn is_head(h: Seq<u8>, xid: u32, ip: Seq<u8>) -> bool {
    &&& h.len() == 240
    &&& h[0] == 2
    &&& h[4] * 0x100_0000 + h[5] * 0x1_0000 + h[6] * 0x100 + h[7] == xid
    &&& h.subrange(16, 20) == ip
    &&& h[236] == 99 && h[237] == 130 && h[238] == 83 && h[239] == 99
}

/// Whether nothing follows the options, or the code that ends them.
pub open spec fn is_end(tail: Seq<u8>) -> bool {
    tail.len() == 0 || tail[0] == 255
}

/// Whether option `i` is the last of its code.
pub open spec fn is_last(os: Seq<Item>, i: int) -> bool {
    &&& 0 <= i < os.len()
    &&& forall|j: int| i < j < os.len() ==> (#[trigger] os[j]).0 != os[i].0
}

/// Whether no option has the code `code`.
pub open spec fn is_absent(os: Seq<Item>, code: u8) -> bool {
    forall|j: int| 0 <= j < os.len() ==> (#[trigger] os[j]).0 != code
}

/// The reply `r` after the options `os`, one by one.
spec fn told(r: ReplyView, os: Seq<Item>) -> ReplyView
    decreases os.len(),
{
    if os.len() == 0 {
        r
    } else if os[0].0 == 0 {
        told(r, os.skip(1))
    } else {
        told(dhcp::with_option(r, os[0].0, os[0].1), os.skip(1))
    }
}

/// Reading the options from `pos` on takes them one by one up to the end of the list.
proof fn lemma_told(r: ReplyView, s: Seq<u8>, pos: int, os: Seq<Item>, tail: Seq<u8>)
    requires
        writable(os),
        is_end(tail),
        0 <= pos <= s.len(),
        s.skip(pos) == items_bytes(os) + tail,
    ensures
        dhcp::with_options(r, s, pos) == Some(told(r, os)),
    decreases os.len(),
{
    let rest = s.skip(pos);
    if os.len() == 0 {
        assert(rest =~= tail);
        if tail.len() > 0 {
            assert(rest[0] == s[pos]);
        }
    } else {
        let o = os[0];
        let behind = items_bytes(os.skip(1)) + tail;
        assert(rest =~= item_bytes(o) + behind);
        assert forall|i: int| 0 <= i < os.skip(1).len() implies (#[trigger] os.skip(1)[i]).0 != 255
            && os.skip(1)[i].1.len() <= 255 by {
            assert(os.skip(1)[i] == os[i + 1]);
        }
        assert(rest[0] == s[pos]);
        assert(o.0 != 255);
        if o.0 == 0 {
            assert(s.skip(pos + 1) =~= rest.skip(1));
            assert(rest.skip(1) =~= behind);
            lemma_told(r, s, pos + 1, os.skip(1), tail);
        } else {
            let n = o.1.len() as int;
            assert(rest[1] == s[pos + 1]);
            assert(s[pos + 1] == n);
            let end = pos + 2 + n;
            assert(s.skip(end) =~= rest.skip(2 + n));
            assert(rest.skip(2 + n) =~= behind);
            assert(s.subrange(pos + 2, end) =~= rest.subrange(2, 2 + n));
            assert(rest.subrange(2, 2 + n) =~= o.1);
            lemma_told(dhcp::with_option(r, o.0, o.1), s, end, os.skip(1), tail);
        }
    }
}

/// What no option speaks of stays as it was.
proof fn lemma_untold(r: ReplyView, os: Seq<Item>)
    ensures
        told(r, os).your_ip == r.your_ip,
        is_absent(os, 53) ==> told(r, os).msg_type == r.msg_type,
        is_absent(os, 54) ==> told(r, os).server_id == r.server_id,
        is_absent(os, 1) ==> told(r, os).subnet_mask == r.subnet_mask,
        is_absent(os, 3) ==> told(r, os).router == r.router,
        is_absent(os, 6) ==> told(r, os).dns == r.dns,
        is_absent(os, 51) ==> told(r, os).lease_secs == r.lease_secs,
    decreases os.len(),
{
    if os.len() > 0 {
        let next = if os[0].0 == 0 {
            r
        } else {
            dhcp::with_option(r, os[0].0, os[0].1)
        };
        lemma_untold(next, os.skip(1));
        assert forall|code: u8| is_absent(os, code) implies #[trigger] is_absent(
            os.skip(1),
            code,
        ) && os[0].0 != code by {
            assert forall|j: int| 0 <= j < os.skip(1).len() implies (#[trigger] os.skip(1)[j]).0
                != code by {
                assert(os.skip(1)[j] == os[j + 1]);
            }
        }
        assert(is_absent(os, 53) ==> is_absent(os.skip(1), 53));
        assert(is_absent(os, 54) ==> is_absent(os.skip(1), 54));
        assert(is_absent(os, 1) ==> is_absent(os.skip(1), 1));
        assert(is_absent(os, 3) ==> is_absent(os.skip(1), 3));
        assert(is_absent(os, 6) ==> is_absent(os.skip(1), 6));
        assert(is_absent(os, 51) ==> is_absent(os.skip(1), 51));
    }
}

/// Whether `r` holds what the option `o` says. An option of a known code whose value has not the
/// length that the code asks for says that there is nothing, or says nothing.
pub open spec fn holds_item(r: ReplyView, o: Item) -> bool {
    &&& o.0 == 53 && o.1.len() == 1 ==> r.msg_type == o.1[0]
    &&& o.0 == 54 && o.1.len() == 4 ==> r.server_id == o.1
    &&& o.0 == 1 && o.1.len() >= 4 ==> r.subnet_mask == Some(o.1.subrange(0, 4))
    &&& o.0 == 1 && o.1.len() < 4 ==> r.subnet_mask is None
    &&& o.0 == 3 && o.1.len() >= 4 ==> r.router == Some(o.1.subrange(0, 4))
    &&& o.0 == 3 && o.1.len() < 4 ==> r.router is None
    &&& o.0 == 6 && o.1.len() >= 4 ==> r.dns == Some(o.1.subrange(0, 4))
    &&& o.0 == 6 && o.1.len() < 4 ==> r.dns is None
    &&& o.0 == 51 && o.1.len() == 4 ==> r.lease_secs == Some(
        (o.1[0] * 0x100_0000 + o.1[1] * 0x1_0000 + o.1[2] * 0x100 + o.1[3]) as u32,
    )
}

/// The last option of a code counts.
proof fn lemma_last_counts(r: ReplyView, os: Seq<Item>, i: int)
    requires
        is_last(os, i),
    ensures
        holds_item(told(r, os), os[i]),
    decreases os.len(),
{
    let o = os[0];
    let next = if o.0 == 0 {
        r
    } else {
        dhcp::with_option(r, o.0, o.1)
    };
    if i > 0 {
        assert(os.skip(1)[i - 1] == os[i]);
        assert forall|j: int| i - 1 < j < os.skip(1).len() implies (#[trigger] os.skip(1)[j]).0
            != os[i].0 by {
            assert(os.skip(1)[j] == os[j + 1]);
        }
        lemma_last_counts(next, os.skip(1), i - 1);
    } else {
        lemma_untold(next, os.skip(1));
        assert(is_absent(os.skip(1), o.0)) by {
            assert forall|j: int| 0 <= j < os.skip(1).len() implies (#[trigger] os.skip(1)[j]).0
                != o.0 by {
                assert(os.skip(1)[j] == os[j + 1]);
            }
        }
        assert(holds_item(next, o)) by {
            assert(o.1.len() >= 4 ==> o.1.take(4) =~= o.1.subrange(0, 4));
        }
    }
}

/// A server's message is understood option by option, wherever padding stands and whatever
/// follows the end of the list: the reply holds the address of the fixed part, what the last
/// option of each known code says, and nothing where there is no such option. `t` is the option
/// that states the message type.
pub proof fn reply_holds_its_options(
    head: Seq<u8>,
    xid: u32,
    ip: Seq<u8>,
    os: Seq<Item>,
    tail: Seq<u8>,
    t: int,
    i: int,
)
    requires
        is_head(head, xid, ip),
        writable(os),
        is_end(tail),
        is_last(os, t),
        os[t].0 == 53,
        os[t].1.len() == 1,
        os[t].1[0] != 0,
        is_last(os, i),
    ensures
        ({
            &&& dhcp::reply_in(head + items_bytes(os) + tail, xid) matches Some(r)
            &&& r.your_ip == ip
            &&& r.msg_type == os[t].1[0]
            &&& holds_item(r, os[i])
            &&& is_absent(os, 54) ==> r.server_id == seq![0u8, 0u8, 0u8, 0u8]
            &&& is_absent(os, 1) ==> r.subnet_mask is None
            &&& is_absent(os, 3) ==> r.router is None
            &&& is_absent(os, 6) ==> r.dns is None
            &&& is_absent(os, 51) ==> r.lease_secs is None
        }),
{
    let s = head + items_bytes(os) + tail;
    let r = dhcp::bare_reply(s.subrange(16, 20));
    lemma_head(head, xid, ip, items_bytes(os) + tail);
    assert(s =~= head + (items_bytes(os) + tail));
    assert(s.skip(240) =~= items_bytes(os) + tail);
    lemma_told(r, s, 240, os, tail);
    lemma_untold(r, os);
    lemma_last_counts(r, os, t);
    lemma_last_counts(r, os, i);
    assert(bytes::zeros(4) =~= seq![0u8, 0u8, 0u8, 0u8]);
}

/// The fixed part makes the message a reply.
proof fn lemma_head(head: Seq<u8>, xid: u32, ip: Seq<u8>, rest: Seq<u8>)
    requires
        is_head(head, xid, ip),
    ensures
        dhcp::is_reply(head + rest, xid),
        (head + rest).subrange(16, 20) == ip,
{
    let s = head + rest;
    assert(s.subrange(236, 240) =~= dhcp::cookie());
    assert(s.subrange(16, 20) =~= ip);
    assert(s[4] == head[4] && s[5] == head[5] && s[6] == head[6] && s[7] == head[7]);
}

/// A message whose last option announces more bytes than there are is refused.
pub proof fn cut_off_option_is_refused(
    head: Seq<u8>,
    xid: u32,
    ip: Seq<u8>,
    os: Seq<Item>,
    code: u8,
    announced: u8,
    part: Seq<u8>,
)
    requires
        is_head(head, xid, ip),
        writable(os),
        code != 0,
        code != 255,
        part.len() < announced,
    ensures
        dhcp::reply_in(head + items_bytes(os) + seq![code, announced] + part, xid) is None,
        dhcp::reply_in(head + items_bytes(os) + seq![code], xid) is None,
{
    let end = seq![code, announced] + part;
    let s = head + items_bytes(os) + seq![code, announced] + part;
    lemma_head(head, xid, ip, items_bytes(os) + end);
    assert(s =~= head + (items_bytes(os) + end));
    assert(s.skip(240) =~= items_bytes(os) + end);
    lemma_cut_off(dhcp::bare_reply(s.subrange(16, 20)), s, 240, os, end);
    let one = seq![code];
    let short = head + items_bytes(os) + one;
    lemma_head(head, xid, ip, items_bytes(os) + one);
    assert(short =~= head + (items_bytes(os) + one));
    assert(short.skip(240) =~= items_bytes(os) + one);
    lemma_cut_off(dhcp::bare_reply(short.subrange(16, 20)), short, 240, os, one);
}

/// Options that end in one that is cut off cannot be read.
proof fn lemma_cut_off(r: ReplyView, s: Seq<u8>, pos: int, os: Seq<Item>, end: Seq<u8>)
    requires
        writable(os),
        end.len() >= 1,
        end[0] != 0,
        end[0] != 255,
        end.len() == 1 || end.len() < 2 + end[1],
        0 <= pos <= s.len(),
        s.skip(pos) == items_bytes(os) + end,
    ensures
        dhcp::with_options(r, s, pos) is None,
    decreases os.len(),
{
    let rest = s.skip(pos);
    if os.len() == 0 {
        assert(rest =~= end);
        assert(rest[0] == s[pos]);
        if end.len() > 1 {
            assert(rest[1] == s[pos + 1]);
        }
    } else {
        let o = os[0];
        let behind = items_bytes(os.skip(1)) + end;
        assert(rest =~= item_bytes(o) + behind);
        assert forall|i: int| 0 <= i < os.skip(1).len() implies (#[trigger] os.skip(1)[i]).0 != 255
            && os.skip(1)[i].1.len() <= 255 by {
            assert(os.skip(1)[i] == os[i + 1]);
        }
        assert(rest[0] == s[pos]);
        assert(o.0 != 255);
        if o.0 == 0 {
            assert(s.skip(pos + 1) =~= rest.skip(1));
            assert(rest.skip(1) =~= behind);
            lemma_cut_off(r, s, pos + 1, os.skip(1), end);
        } else {
            let n = o.1.len() as int;
            assert(rest[1] == s[pos + 1]);
            assert(s[pos + 1] == n);
            assert(s.skip(pos + 2 + n) =~= rest.skip(2 + n));
            assert(rest.skip(2 + n) =~= behind);
            assert(s.subrange(pos + 2, pos + 2 + n) =~= rest.subrange(2, 2 + n));
            assert(rest.subrange(2, 2 + n) =~= o.1);
            lemma_cut_off(dhcp::with_option(r, o.0, o.1), s, pos + 2 + n, os.skip(1), end);
        }
    }
}

/// A message that does not state its type is no reply, nor is one that is too short, not from a
/// server, of another exchange or without the cookie.
pub proof fn other_messages_are_no_replies(
    head: Seq<u8>,
    xid: u32,
    ip: Seq<u8>,
    os: Seq<Item>,
    tail: Seq<u8>,
    s: Seq<u8>,
)
    requires
        is_head(head, xid, ip),
        writable(os),
        is_end(tail),
        is_absent(os, 53),
        ({
            ||| s.len() < 240
            ||| s[0] != 2
            ||| s[4] * 0x100_0000 + s[5] * 0x1_0000 + s[6] * 0x100 + s[7] != xid
            ||| s[236] != 99
            ||| s[237] != 130
            ||| s[238] != 83
            ||| s[239] != 99
        }),
    ensures
        dhcp::reply_in(head + items_bytes(os) + tail, xid) is None,
        dhcp::reply_in(s, xid) is None,
{
    let whole = head + items_bytes(os) + tail;
    let r = dhcp::bare_reply(whole.subrange(16, 20));
    lemma_head(head, xid, ip, items_bytes(os) + tail);
    assert(whole =~= head + (items_bytes(os) + tail));
    assert(whole.skip(240) =~= items_bytes(os) + tail);
    lemma_told(r, whole, 240, os, tail);
    lemma_untold(r, os);
    if s.len() >= 240 {
        let c = s.subrange(236, 240);
        assert(c[0] == s[236] && c[1] == s[237] && c[2] == s[238] && c[3] == s[239]);
    }
}

/// A client message, byte by byte: the fixed part with the transaction id, the broadcast flag
/// and our MAC address, and nothing else but zeros, then the cookie and the type.
pub open spec fn is_client_message(s: Seq<u8>, typ: u8, xid: u32, mac: Seq<u8>) -> bool {
    &&& s.len() >= 243
    &&& s.subrange(0, 4) == seq![1u8, 1u8, 6u8, 0u8]
    &&& s[4] * 0x100_0000 + s[5] * 0x1_0000 + s[6] * 0x100 + s[7] == xid
    &&& s[10] == 0x80
    &&& s.subrange(28, 34) == mac
    &&& forall|k: int|
        8 <= k < 236 && k != 10 && !(28 <= k < 34) ==> #[trigger] s[k] == 0
    &&& s.subrange(236, 243) == seq![99u8, 130u8, 83u8, 99u8, 53u8, 1u8, typ]
}

/// The discover and the request are client messages. Both ask for the mask, the router and the
/// DNS server; the request names the address and the server first.
pub proof fn client_messages_are_laid_out(xid: u32, mac: Seq<u8>, ip: Seq<u8>, server: Seq<u8>)
    requires
        mac.len() == 6,
        ip.len() == 4,
        server.len() == 4,
    ensures
        is_client_message(dhcp::discover_bytes(xid, mac), 1, xid, mac),
        dhcp::discover_bytes(xid, mac).skip(243) == seq![55u8, 3u8, 1u8, 3u8, 6u8, 255u8],
        is_client_message(dhcp::request_bytes(xid, mac, ip, server), 3, xid, mac),
        dhcp::request_bytes(xid, mac, ip, server).skip(243) == seq![50u8, 4u8] + ip + seq![
            54u8,
            4u8,
        ] + server + seq![55u8, 3u8, 1u8, 3u8, 6u8, 255u8],
{
    let d = dhcp::discover_bytes(xid, mac);
    let r = dhcp::request_bytes(xid, mac, ip, server);
    let b = bytes::be32_bytes(xid);
    bytes::be32_round_trip(xid);
    lemma_client_base(1, xid, mac, dhcp::param_request() + seq![255u8]);
    assert(d =~= dhcp::base_bytes(1, xid, mac, bytes::zeros(4)) + (dhcp::param_request() + seq![
        255u8,
    ]));
    assert(d.skip(243) =~= seq![55u8, 3u8, 1u8, 3u8, 6u8, 255u8]);
    let rest = seq![50u8, 4u8] + ip + seq![54u8, 4u8] + server + dhcp::param_request() + seq![
        255u8,
    ];
    lemma_client_base(3, xid, mac, rest);
    assert(r =~= dhcp::base_bytes(3, xid, mac, bytes::zeros(4)) + rest);
    assert(r.skip(243) =~= seq![50u8, 4u8] + ip + seq![54u8, 4u8] + server + seq![
        55u8,
        3u8,
        1u8,
        3u8,
        6u8,
        255u8,
    ]);
}

/// The base of a client message is laid out so.
proof fn lemma_client_base(typ: u8, xid: u32, mac: Seq<u8>, rest: Seq<u8>)
    requires
        mac.len() == 6,
    ensures
        is_client_message(
            dhcp::base_bytes(typ, xid, mac, bytes::zeros(4)) + rest,
            typ,
            xid,
            mac,
        ),
{
    let s = dhcp::base_bytes(typ, xid, mac, bytes::zeros(4)) + rest;
    let b = bytes::be32_bytes(xid);
    let f = bytes::be16_bytes(0x8000);
    bytes::be32_round_trip(xid);
    assert(s[4] == b[0] && s[5] == b[1] && s[6] == b[2] && s[7] == b[3]);
    assert(s[10] == f[0] && s[11] == f[1]);
    assert(s.subrange(0, 4) =~= seq![1u8, 1u8, 6u8, 0u8]);
    assert(s.subrange(28, 34) =~= mac);
    assert(s.subrange(236, 243) =~= seq![99u8, 130u8, 83u8, 99u8, 53u8, 1u8, typ]);
}

/// An offer is requested of the server that made it: the next message asks that server for that
/// address, and is sent at once.
pub proof fn offer_is_requested(m: StackModel, job: DhcpExchangeView, r: ReplyView)
    requires
        m.mac.len() == 6,
        job.want == 2,
        m.stats.dhcp_delivered != job.seen,
        dhcp::reply_in(m.last_dhcp, job.xid) == Some(r),
        r.msg_type == 2,
        r.your_ip.len() == 4,
        r.server_id.len() == 4,
    ensures
        ({
            let (after, next, step) = lookup::configuring(m, job);
            &&& after == m
            &&& next.want == 5
            &&& next.xid == job.xid
            &&& next.seen == m.stats.dhcp_delivered
            &&& is_client_message(next.message, 3, job.xid, m.mac)
            &&& next.message.subrange(243, 255) == seq![50u8, 4u8] + r.your_ip + seq![54u8, 4u8]
                + r.server_id
            &&& step == StepView::<()>::Wait(seq![lookup::dhcp_frame(m.mac, next.message)])
        }),
{
    client_messages_are_laid_out(job.xid, m.mac, r.your_ip, r.server_id);
    let s = dhcp::request_bytes(job.xid, m.mac, r.your_ip, r.server_id);
    assert(s.subrange(243, 255) =~= s.skip(243).take(12));
    assert(s.skip(243).take(12) =~= seq![50u8, 4u8] + r.your_ip + seq![54u8, 4u8] + r.server_id);
    assert(0u32 % 300u32 == 0);
}

/// An acknowledgement ends the exchange: what it names is in force, what it does not name stays,
/// and nothing else changes.
pub proof fn acknowledgement_is_put_in_force(m: StackModel, job: DhcpExchangeView, r: ReplyView)
    requires
        job.want == 5,
        m.stats.dhcp_delivered != job.seen,
        dhcp::reply_in(m.last_dhcp, job.xid) == Some(r),
        r.msg_type == 5,
    ensures
        ({
            let (after, next, step) = lookup::configuring(m, job);
            &&& step == StepView::<()>::Done(Some(()))
            &&& after.ip == r.your_ip
            &&& after.dhcp_server == r.server_id
            &&& after.dhcp_configured
            &&& after.gateway == (if r.router is Some { r.router.unwrap() } else { m.gateway })
            &&& after.dns == (if r.dns is Some { r.dns.unwrap() } else { m.dns })
            &&& after.mask == (if r.subnet_mask is Some { r.subnet_mask.unwrap() } else { m.mask })
            &&& after.lease_secs == (if r.lease_secs is Some { r.lease_secs.unwrap() } else { 0 })
            &&& after == (StackModel {
                ip: after.ip,
                dhcp_server: after.dhcp_server,
                gateway: after.gateway,
                dns: after.dns,
                mask: after.mask,
                lease_secs: after.lease_secs,
                dhcp_configured: true,
                ..m
            })
        }),
{
}

/// While the reply that a leg waits for has not come, the message of the leg is broadcast every
/// 300 steps, and after 3000 steps the exchange fails. The stack stays as it is.
pub proof fn exchange_repeats_and_gives_up(m: StackModel, job: DhcpExchangeView)
    requires
        m.stats.dhcp_delivered == job.seen || dhcp::reply_in(m.last_dhcp, job.xid) is None
            || dhcp::reply_in(m.last_dhcp, job.xid).unwrap().msg_type != job.want,
    ensures
        ({
            let (after, next, step) = lookup::configuring(m, job);
            &&& after == m
            &&& next.message == job.message && next.want == job.want && next.xid == job.xid
            &&& next.seen == m.stats.dhcp_delivered
            &&& job.attempt >= 3000 ==> step == StepView::<()>::Done(None)
            &&& job.attempt < 3000 ==> next.attempt == job.attempt + 1
            &&& job.attempt < 3000 && job.attempt % 300 == 0 ==> step == StepView::<()>::Wait(
                seq![lookup::dhcp_frame(m.mac, job.message)],
            )
            &&& job.attempt < 3000 && job.attempt % 300 != 0 ==> step == StepView::<()>::Wait(
                Seq::empty(),
            )
        }),
{
}

} // verus!
