//! What a DNS response says, record by record, and what is made of it.

use vstd::prelude::*;

use crate::bytes;
use crate::net::dns;

verus! {

/// Whether `n` is a name as messages hold it: labels, each behind its length, up to a zero byte
/// or a pointer to the rest.
pub open spec fn is_wire_name(n: Seq<u8>) -> bool
    decreases n.len(),
{
    &&& n.len() > 0
    &&& {
        ||| n.len() == 1 && n[0] == 0
        ||| n.len() == 2 && n[0] >= 0xC0
        ||| 1 <= n[0] <= 63 && n[0] < n.len() && is_wire_name(n.skip(1 + n[0]))
    }
}

/// A question: a name, a type and a class.
pub struct Question {
    pub name: Seq<u8>,
    pub kind: u16,
    pub class: u16,
}

/// A record: a name, a type, a class, a lifetime and its data.
pub struct Record {
    pub name: Seq<u8>,
    pub kind: u16,
    pub class: u16,
    pub ttl: u32,
    pub data: Seq<u8>,
}

/// The bytes of questions.
pub open spec fn question_bytes(qs: Seq<Question>) -> Seq<u8>
    decreases qs.len(),
{
    if qs.len() == 0 {
        Seq::empty()
    } else {
        let q = qs[0];
        q.name + bytes::be16_bytes(q.kind) + bytes::be16_bytes(q.class) + question_bytes(
            qs.skip(1),
        )
    }
}

/// The bytes of records.
pub open spec fn record_bytes(rs: Seq<Record>) -> Seq<u8>
    decreases rs.len(),
{
    if rs.len() == 0 {
        Seq::empty()
    } else {
        one_record(rs[0]) + record_bytes(rs.skip(1))
    }
}

/// The bytes of a record.
pub open spec fn one_record(r: Record) -> Seq<u8> {
    r.name + bytes::be16_bytes(r.kind) + bytes::be16_bytes(r.class) + bytes::be32_bytes(r.ttl)
        + bytes::be16_bytes(r.data.len() as u16) + r.data
}

/// A message: the header with its counts, the questions, the answers, and what else follows.
pub open spec fn message(
    id: u16,
    flags: u16,
    qs: Seq<Question>,
    rs: Seq<Record>,
    others: (u16, u16),
    rest: Seq<u8>,
) -> Seq<u8> {
    header(id, flags, qs.len() as u16, rs.len() as u16, others) + question_bytes(qs)
        + record_bytes(rs) + rest
}

/// The twelve bytes of a header: the id, the flags and the sizes of the four sections.
pub open spec fn header(id: u16, flags: u16, questions: u16, answers: u16, others: (u16, u16)) -> Seq<
    u8,
> {
    bytes::be16_bytes(id) + bytes::be16_bytes(flags) + bytes::be16_bytes(questions)
        + bytes::be16_bytes(answers) + bytes::be16_bytes(others.0) + bytes::be16_bytes(others.1)
}

/// Whether questions and records can be written.
pub open spec fn well_formed(qs: Seq<Question>, rs: Seq<Record>) -> bool {
    &&& qs.len() <= 0xFFFF
    &&& rs.len() <= 0xFFFF
    &&& forall|i: int| 0 <= i < qs.len() ==> is_wire_name((#[trigger] qs[i]).name)
    &&& forall|i: int|
        0 <= i < rs.len() ==> is_wire_name((#[trigger] rs[i]).name) && rs[i].data.len() <= 0xFFFF
}

/// Whether a record gives an IPv4 address.
pub open spec fn gives_address(r: Record) -> bool {
    r.kind == 1 && r.data.len() == 4
}

proof fn lemma_name_skipped(s: Seq<u8>, at: int, n: Seq<u8>)
    requires
        is_wire_name(n),
        0 <= at,
        at + n.len() <= s.len(),
        s.subrange(at, at + n.len()) == n,
    ensures
        dns::name_end(s, at) == Some(at + n.len()),
    decreases n.len(),
{
    assert(s[at] == n[0]);
    if n.len() == 1 && n[0] == 0 {
    } else if n.len() == 2 && n[0] >= 0xC0 {
    } else {
        let k = 1 + n[0];
        assert(s.subrange(at + k, at + n.len()) =~= n.skip(k));
        lemma_name_skipped(s, at + k, n.skip(k));
    }
}

proof fn lemma_be16_at(s: Seq<u8>, at: int, x: u16)
    requires
        0 <= at,
        at + 2 <= s.len(),
        s.subrange(at, at + 2) == bytes::be16_bytes(x),
    ensures
        bytes::be16(s, at) == x,
{
    let t = s.subrange(at, at + 2);
    assert(t[0] == s[at] && t[1] == s[at + 1]);
    bytes::be16_round_trip(x);
}

proof fn lemma_questions_skipped(s: Seq<u8>, at: int, qs: Seq<Question>)
    requires
        forall|i: int| 0 <= i < qs.len() ==> is_wire_name((#[trigger] qs[i]).name),
        0 <= at,
        at + question_bytes(qs).len() <= s.len(),
        s.subrange(at, at + question_bytes(qs).len()) == question_bytes(qs),
    ensures
        dns::questions_end(s, at, qs.len() as int) == Some(at + question_bytes(qs).len()),
    decreases qs.len(),
{
    if qs.len() > 0 {
        let q = qs[0];
        let all = question_bytes(qs);
        let n = q.name.len() as int;
        let rest = question_bytes(qs.skip(1));
        assert(all.len() == n + 4 + rest.len());
        assert(s.subrange(at, at + n) =~= q.name) by {
            assert(s.subrange(at, at + all.len()).subrange(0, n) =~= all.subrange(0, n));
            assert(all.subrange(0, n) =~= q.name);
            assert(s.subrange(at, at + all.len()).subrange(0, n) =~= s.subrange(at, at + n));
        }
        lemma_name_skipped(s, at, q.name);
        let next = at + n + 4;
        assert(s.subrange(next, next + rest.len()) =~= rest) by {
            assert(s.subrange(at, at + all.len()).subrange(n + 4, all.len() as int) =~= all.subrange(
                n + 4,
                all.len() as int,
            ));
            assert(all.subrange(n + 4, all.len() as int) =~= rest);
            assert(s.subrange(at, at + all.len()).subrange(n + 4, all.len() as int) =~= s.subrange(
                next,
                next + rest.len(),
            ));
        }
        assert forall|i: int| 0 <= i < qs.skip(1).len() implies is_wire_name(
            (#[trigger] qs.skip(1)[i]).name,
        ) by {
            assert(qs.skip(1)[i] == qs[i + 1]);
        }
        lemma_questions_skipped(s, next, qs.skip(1));
    }
}

/// A stretch of a stretch.
proof fn lemma_part(s: Seq<u8>, at: int, all: Seq<u8>, i: int, j: int, part: Seq<u8>)
    requires
        0 <= at,
        at + all.len() <= s.len(),
        s.subrange(at, at + all.len()) == all,
        0 <= i <= j <= all.len(),
        all.subrange(i, j) == part,
    ensures
        s.subrange(at + i, at + j) == part,
{
    assert(s.subrange(at, at + all.len()).subrange(i, j) =~= s.subrange(at + i, at + j));
}

/// What reading one record comes to: its address if it gives one, and else what the records
/// behind it give.
proof fn lemma_record_read(s: Seq<u8>, at: int, r: Record, n: int)
    requires
        is_wire_name(r.name),
        r.data.len() <= 0xFFFF,
        0 <= at,
        at + one_record(r).len() <= s.len(),
        s.subrange(at, at + one_record(r).len()) == one_record(r),
        n > 0,
    ensures
        dns::first_address(s, at, n) == if gives_address(r) {
            Some(r.data)
        } else {
            dns::first_address(s, at + one_record(r).len(), n - 1)
        },
{
    let all = one_record(r);
    let m = r.name.len() as int;
    let len = r.data.len() as int;
    assert(all.len() == m + 10 + len);
    assert(all.subrange(0, m) =~= r.name);
    lemma_part(s, at, all, 0, m, r.name);
    lemma_name_skipped(s, at, r.name);
    assert(all.subrange(m, m + 2) =~= bytes::be16_bytes(r.kind));
    lemma_part(s, at, all, m, m + 2, bytes::be16_bytes(r.kind));
    lemma_be16_at(s, at + m, r.kind);
    assert(all.subrange(m + 8, m + 10) =~= bytes::be16_bytes(len as u16));
    lemma_part(s, at, all, m + 8, m + 10, bytes::be16_bytes(len as u16));
    lemma_be16_at(s, at + m + 8, len as u16);
    assert(all.subrange(m + 10, m + 10 + len) =~= r.data);
    lemma_part(s, at, all, m + 10, m + 10 + len, r.data);
}

/// The first record that gives an address is the one whose address is found, whatever stands
/// before and behind it; without such a record none is found.
proof fn lemma_records_read(s: Seq<u8>, at: int, rs: Seq<Record>, i: int)
    requires
        forall|k: int|
            0 <= k < rs.len() ==> is_wire_name((#[trigger] rs[k]).name) && rs[k].data.len()
                <= 0xFFFF,
        0 <= at,
        at + record_bytes(rs).len() <= s.len(),
        s.subrange(at, at + record_bytes(rs).len()) == record_bytes(rs),
        0 <= i <= rs.len(),
        forall|k: int| 0 <= k < i ==> !gives_address(#[trigger] rs[k]),
        i < rs.len() ==> gives_address(rs[i]),
    ensures
        dns::first_address(s, at, rs.len() as int) == if i < rs.len() {
            Some(rs[i].data)
        } else {
            None
        },
    decreases rs.len(),
{
    if rs.len() > 0 {
        let all = record_bytes(rs);
        let one = one_record(rs[0]);
        let rest = record_bytes(rs.skip(1));
        assert(all.subrange(0, one.len() as int) =~= one);
        assert(all.subrange(one.len() as int, all.len() as int) =~= rest);
        lemma_part(s, at, all, 0, one.len() as int, one);
        lemma_part(s, at, all, one.len() as int, all.len() as int, rest);
        lemma_record_read(s, at, rs[0], rs.len() as int);
        if i > 0 {
            assert forall|k: int| 0 <= k < rs.skip(1).len() implies is_wire_name(
                (#[trigger] rs.skip(1)[k]).name,
            ) && rs.skip(1)[k].data.len() <= 0xFFFF by {
                assert(rs.skip(1)[k] == rs[k + 1]);
            }
            assert forall|k: int| 0 <= k < i - 1 implies !gives_address(
                #[trigger] rs.skip(1)[k],
            ) by {
                assert(rs.skip(1)[k] == rs[k + 1]);
            }
            if i < rs.len() {
                assert(rs.skip(1)[i - 1] == rs[i]);
            }
            lemma_records_read(s, at + one.len(), rs.skip(1), i - 1);
        }
    }
}

proof fn lemma_header_read(
    s: Seq<u8>,
    id: u16,
    flags: u16,
    questions: u16,
    answers: u16,
    others: (u16, u16),
)
    requires
        s.len() >= 12,
        s.subrange(0, 12) == header(id, flags, questions, answers, others),
    ensures
        bytes::be16(s, 0) == id,
        bytes::be16(s, 2) == flags,
        bytes::be16(s, 4) == questions,
        bytes::be16(s, 6) == answers,
{
    let h = header(id, flags, questions, answers, others);
    assert(h.len() == 12);
    assert(h.subrange(0, 2) =~= bytes::be16_bytes(id));
    assert(h.subrange(2, 4) =~= bytes::be16_bytes(flags));
    assert(h.subrange(4, 6) =~= bytes::be16_bytes(questions));
    assert(h.subrange(6, 8) =~= bytes::be16_bytes(answers));
    lemma_part(s, 0, h, 0, 2, bytes::be16_bytes(id));
    lemma_part(s, 0, h, 2, 4, bytes::be16_bytes(flags));
    lemma_part(s, 0, h, 4, 6, bytes::be16_bytes(questions));
    lemma_part(s, 0, h, 6, 8, bytes::be16_bytes(answers));
    lemma_be16_at(s, 0, id);
    lemma_be16_at(s, 2, flags);
    lemma_be16_at(s, 4, questions);
    lemma_be16_at(s, 6, answers);
}

/// The header of a message reads as its fields, and the sections follow it.
proof fn lemma_message(
    id: u16,
    flags: u16,
    qs: Seq<Question>,
    rs: Seq<Record>,
    others: (u16, u16),
    rest: Seq<u8>,
)
    requires
        well_formed(qs, rs),
    ensures
        ({
            let s = message(id, flags, qs, rs, others, rest);
            let a = 12 + question_bytes(qs).len();
            &&& s.len() == a + record_bytes(rs).len() + rest.len()
            &&& bytes::be16(s, 0) == id
            &&& bytes::be16(s, 2) == flags
            &&& bytes::be16(s, 4) == qs.len()
            &&& bytes::be16(s, 6) == rs.len()
            &&& s.subrange(12, a as int) == question_bytes(qs)
            &&& s.subrange(a as int, (a + record_bytes(rs).len()) as int) == record_bytes(rs)
        }),
{
    let s = message(id, flags, qs, rs, others, rest);
    let a = 12 + question_bytes(qs).len() as int;
    let h = header(id, flags, qs.len() as u16, rs.len() as u16, others);
    assert(h.len() == 12);
    assert(s.subrange(0, 12) =~= h);
    lemma_header_read(s, id, flags, qs.len() as u16, rs.len() as u16, others);
    assert(s.subrange(12, a) =~= question_bytes(qs));
    assert(s.subrange(a, a + record_bytes(rs).len()) =~= record_bytes(rs));
}

/// A response gives the address of its first record of type A with four bytes of data, however
/// many questions and answers it has, and whatever stands before and behind that record.
pub proof fn first_address_record_is_found(
    id: u16,
    flags: u16,
    qs: Seq<Question>,
    rs: Seq<Record>,
    others: (u16, u16),
    rest: Seq<u8>,
    i: int,
)
    requires
        well_formed(qs, rs),
        flags >= 0x8000,
        flags % 16 == 0,
        0 <= i < rs.len(),
        rs[i].kind == 1,
        rs[i].data.len() == 4,
        forall|k: int|
            0 <= k < i ==> (#[trigger] rs[k]).kind != 1 || rs[k].data.len() != 4,
    ensures
        dns::response_address(message(id, flags, qs, rs, others, rest), id) == Some(rs[i].data),
{
    let s = message(id, flags, qs, rs, others, rest);
    lemma_message(id, flags, qs, rs, others, rest);
    lemma_questions_skipped(s, 12, qs);
    lemma_records_read(s, 12 + question_bytes(qs).len() as int, rs, i);
}

/// A response without a record of type A with four bytes of data gives no address.
pub proof fn without_address_record_none_is_found(
    id: u16,
    flags: u16,
    qs: Seq<Question>,
    rs: Seq<Record>,
    others: (u16, u16),
    rest: Seq<u8>,
)
    requires
        well_formed(qs, rs),
        forall|k: int|
            0 <= k < rs.len() ==> (#[trigger] rs[k]).kind != 1 || rs[k].data.len() != 4,
    ensures
        dns::response_address(message(id, flags, qs, rs, others, rest), id) is None,
{
    let s = message(id, flags, qs, rs, others, rest);
    lemma_message(id, flags, qs, rs, others, rest);
    lemma_questions_skipped(s, 12, qs);
    lemma_records_read(s, 12 + question_bytes(qs).len() as int, rs, rs.len() as int);
}

/// No address is taken from what is not an error-free response to the query: another id, a
/// query, a response code other than zero, or less than a header.
pub proof fn other_messages_give_nothing(s: Seq<u8>, id: u16)
    requires
        s.len() < 12 || s[0] * 256 + s[1] != id || s[2] < 0x80 || s[3] % 16 != 0,
    ensures
        dns::response_address(s, id) is None,
{
}

/// An address that is found is four bytes of the message.
pub proof fn found_address_is_in_the_message(s: Seq<u8>, id: u16) -> (at: int)
    requires
        dns::response_address(s, id) is Some,
    ensures
        12 <= at,
        at + 4 <= s.len(),
        dns::response_address(s, id) == Some(s.subrange(at, at + 4)),
        s[at - 2] == 0 && s[at - 1] == 4,
        s[at - 10] == 0 && s[at - 9] == 1,
{
    let n = bytes::be16(s, 4) as int;
    let p = dns::questions_end(s, 12, n).unwrap();
    lemma_questions_forward(s, 12, n);
    lemma_address_at(s, p, bytes::be16(s, 6) as int)
}

proof fn lemma_name_forward(s: Seq<u8>, pos: int)
    requires
        0 <= pos,
        dns::name_end(s, pos) is Some,
    ensures
        pos < dns::name_end(s, pos).unwrap() <= s.len(),
    decreases s.len() - pos,
{
    if pos < s.len() && s[pos] != 0 && s[pos] < 64 && pos + 1 + s[pos] <= s.len() {
        lemma_name_forward(s, pos + 1 + s[pos]);
    }
}

proof fn lemma_questions_forward(s: Seq<u8>, pos: int, n: int)
    requires
        0 <= pos,
        dns::questions_end(s, pos, n) is Some,
    ensures
        pos <= dns::questions_end(s, pos, n).unwrap(),
    decreases n,
{
    if n > 0 {
        lemma_name_forward(s, pos);
        lemma_questions_forward(s, dns::name_end(s, pos).unwrap() + 4, n - 1);
    }
}

proof fn lemma_address_at(s: Seq<u8>, pos: int, n: int) -> (at: int)
    requires
        12 <= pos,
        dns::first_address(s, pos, n) is Some,
    ensures
        12 <= at,
        at + 4 <= s.len(),
        dns::first_address(s, pos, n) == Some(s.subrange(at, at + 4)),
        s[at - 2] == 0 && s[at - 1] == 4,
        s[at - 10] == 0 && s[at - 9] == 1,
    decreases n,
{
    lemma_name_forward(s, pos);
    let p = dns::name_end(s, pos).unwrap();
    let len = bytes::be16(s, p + 8) as int;
    if bytes::be16(s, p) == 1 && len == 4 {
        p + 10
    } else {
        lemma_address_at(s, p + 10 + len, n - 1)
    }
}

/// The labels of a name, one after the other, in the form that messages hold, and the zero byte
/// that ends them.
pub open spec fn wire_labels(labels: Seq<Seq<u8>>) -> Seq<u8>
    decreases labels.len(),
{
    if labels.len() == 0 {
        seq![0u8]
    } else {
        seq![labels[0].len() as u8] + labels[0] + wire_labels(labels.skip(1))
    }
}

/// Labels with dots between them.
pub open spec fn dotted(labels: Seq<Seq<u8>>) -> Seq<u8>
    decreases labels.len(),
{
    if labels.len() == 0 {
        Seq::empty()
    } else if labels.len() == 1 {
        labels[0]
    } else {
        labels[0] + seq![0x2Eu8] + dotted(labels.skip(1))
    }
}

/// Whether labels can be written: each has one to 63 bytes, none of them a dot.
pub open spec fn good_labels(labels: Seq<Seq<u8>>) -> bool {
    forall|i: int|
        0 <= i < labels.len() ==> 1 <= (#[trigger] labels[i]).len() <= 63 && !labels[i].contains(
            0x2Eu8,
        )
}

/// A query asks for exactly the name: for labels with dots between them it holds the id, the
/// wish for recursion, one question, and in it the labels, type A and class IN.
pub proof fn query_asks_for_the_name(id: u16, labels: Seq<Seq<u8>>)
    requires
        labels.len() > 0,
        good_labels(labels),
    ensures
        dns::query_bytes(id, dotted(labels)) == Some(
            bytes::be16_bytes(id) + seq![1u8, 0u8, 0u8, 1u8, 0u8, 0u8, 0u8, 0u8, 0u8, 0u8]
                + wire_labels(labels) + seq![0u8, 1u8, 0u8, 1u8],
        ),
{
    let name = dotted(labels);
    assert(name.subrange(0, name.len() as int) =~= name);
    lemma_labels_encoded(name, 0, labels);
    assert(labels[0].len() > 0);
    assert(name.len() > 0);
    let want = bytes::be16_bytes(id) + seq![1u8, 0u8, 0u8, 1u8, 0u8, 0u8, 0u8, 0u8, 0u8, 0u8]
        + wire_labels(labels) + seq![0u8, 1u8, 0u8, 1u8];
    assert(dns::query_bytes(id, name).unwrap() =~= want);
}

proof fn lemma_labels_encoded(name: Seq<u8>, i: int, labels: Seq<Seq<u8>>)
    requires
        0 <= i <= name.len(),
        labels.len() > 0,
        good_labels(labels),
        name.subrange(i, name.len() as int) == dotted(labels),
    ensures
        dns::encoded_labels(name, i) == Some(wire_labels(labels)),
    decreases labels.len(),
{
    let first = labels[0];
    let n = name.len() as int;
    let tail = name.subrange(i, n);
    let k = first.len() as int;
    assert(tail.len() == n - i);
    if labels.len() == 1 {
        assert(tail == first);
    } else {
        assert(tail == first + seq![0x2Eu8] + dotted(labels.skip(1)));
    }
    assert(tail.len() >= k);
    assert forall|j: int| i <= j < i + k implies name[j] != 0x2Eu8 by {
        assert(tail[j - i] == name[j]);
        assert(first[j - i] == tail[j - i]);
        assert(first.contains(first[j - i]));
    }
    assert(name.subrange(i, i + k) =~= first) by {
        assert forall|j: int| 0 <= j < k implies name.subrange(i, i + k)[j] == first[j] by {
            assert(tail[j] == name[i + j]);
        }
    }
    if labels.len() > 1 {
        assert(tail[k] == 0x2Eu8);
        assert(name[i + k] == tail[k]);
    }
    lemma_label_ends(name, i, i + k);
    if labels.len() == 1 {
        assert(wire_labels(labels.skip(1)) =~= seq![0u8]);
    } else {
        let more = labels.skip(1);
        assert(name.subrange(i + k + 1, n) =~= dotted(more)) by {
            assert(tail.subrange(k + 1, tail.len() as int) =~= dotted(more));
            assert(tail.subrange(k + 1, tail.len() as int) =~= name.subrange(i + k + 1, n));
        }
        assert forall|j: int| 0 <= j < more.len() implies 1 <= (#[trigger] more[j]).len() <= 63
            && !more[j].contains(0x2Eu8) by {
            assert(more[j] == labels[j + 1]);
        }
        lemma_labels_encoded(name, i + k + 1, more);
    }
}

proof fn lemma_label_ends(name: Seq<u8>, i: int, end: int)
    requires
        0 <= i <= end <= name.len(),
        forall|j: int| i <= j < end ==> name[j] != 0x2Eu8,
        end < name.len() ==> name[end] == 0x2Eu8,
    ensures
        dns::label_end(name, i) == end,
    decreases end - i,
{
    if i < end {
        lemma_label_ends(name, i + 1, end);
    }
}

/// A name with a label that no length byte can state cannot be asked for, and neither can an
/// empty name or one that begins with a dot.
pub proof fn bad_names_are_refused(id: u16, name: Seq<u8>)
    requires
        name.len() == 0 || name[0] == 0x2E || (name.len() >= 64 && forall|j: int|
            0 <= j < 64 ==> name[j] != 0x2Eu8),
    ensures
        dns::query_bytes(id, name) is None,
{
    if name.len() > 0 && name[0] != 0x2E {
        lemma_label_at_least(name, 0, 64);
    }
}

proof fn lemma_label_at_least(name: Seq<u8>, i: int, end: int)
    requires
        0 <= i <= end <= name.len(),
        forall|j: int| i <= j < end ==> name[j] != 0x2Eu8,
    ensures
        end <= dns::label_end(name, i) <= name.len(),
    decreases name.len() - i,
{
    if i < end {
        lemma_label_at_least(name, i + 1, end);
    } else if i < name.len() && name[i] != 0x2E {
        lemma_label_at_least(name, i + 1, i + 1);
    }
}

} // verus!
