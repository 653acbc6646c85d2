//! DNS: queries for the IPv4 address of a host name, and the answers to them.

use vstd::prelude::*;

use crate::bytes;
use crate::bytes::{append, append_be16, read_array4, read_be16};

verus! {

/// The UDP port of a DNS server.
pub const DNS_PORT: u16 = 53;

/// The record and question type of an IPv4 host address.
pub const TYPE_A: u16 = 1;

/// The Internet class.
pub const CLASS_IN: u16 = 1;

/// The fixed DNS header length.
pub const HEADER_LEN: usize = 12;

/// The flags of a query: standard, recursion desired.
pub const FLAG_RECURSION_DESIRED: u16 = 0x0100;

/// The longest label that a length byte can state.
pub const MAX_LABEL: usize = 63;

/// The byte that separates the labels of a host name.
pub const DOT: u8 = 46;

/// The position of the first dot at or after `i`, or the end of `name`.
pub open spec fn label_end(name: Seq<u8>, i: int) -> int
    decreases name.len() - i,
{
    if i >= name.len() || name[i] == DOT {
        i
    } else {
        label_end(name, i + 1)
    }
}

/// The labels of `name` from `i` on in wire format: each behind its length, then a zero. `None`
/// if one is longer than a length byte can state, or is empty and not the last: a trailing dot
/// stands for the root.
pub open spec fn encoded_labels(name: Seq<u8>, i: int) -> Option<Seq<u8>>
    decreases name.len() - i,
    when 0 <= i <= name.len()
    via label_end_decreases
{
    let end = label_end(name, i);
    let label = name.subrange(i, end);
    if end == i {
        if end == name.len() {
            Some(seq![0u8])
        } else {
            None
        }
    } else if label.len() > MAX_LABEL {
        None
    } else {
        let first = seq![label.len() as u8] + label;
        if end == name.len() {
            Some(first + seq![0u8])
        } else {
            match encoded_labels(name, end + 1) {
                Some(rest) => Some(first + rest),
                None => None,
            }
        }
    }
}

#[via_fn]
proof fn label_end_decreases(name: Seq<u8>, i: int) {
    lemma_label_end(name, i);
}

/// A label ends within the name, and holds no dot.
proof fn lemma_label_end(name: Seq<u8>, i: int)
    requires
        0 <= i <= name.len(),
    ensures
        i <= label_end(name, i) <= name.len(),
        label_end(name, i) < name.len() ==> name[label_end(name, i)] == DOT,
    decreases name.len() - i,
{
    if i < name.len() && name[i] != DOT {
        lemma_label_end(name, i + 1);
    }
}

/// A label that has no dot before `j` ends where the label at `j` ends.
proof fn lemma_label_extends(name: Seq<u8>, i: int, j: int)
    requires
        0 <= i <= j <= name.len(),
        forall|k: int| i <= k < j ==> name[k] != DOT,
    ensures
        label_end(name, i) == label_end(name, j),
    decreases j - i,
{
    if i < j {
        lemma_label_extends(name, i + 1, j);
    }
}

/// The query for the address of `name`, if the name can be encoded.
pub open spec fn query_bytes(id: u16, name: Seq<u8>) -> Option<Seq<u8>> {
    if name.len() == 0 {
        None
    } else {
        match encoded_labels(name, 0) {
            Some(labels) => Some(
                query_header(id) + labels + bytes::be16_bytes(TYPE_A) + bytes::be16_bytes(
                    CLASS_IN,
                ),
            ),
            None => None,
        }
    }
}

/// The header of a query: the id, the flags, and one question.
pub open spec fn query_header(id: u16) -> Seq<u8> {
    bytes::be16_bytes(id) + bytes::be16_bytes(FLAG_RECURSION_DESIRED) + bytes::be16_bytes(1)
        + bytes::be16_bytes(0) + bytes::be16_bytes(0) + bytes::be16_bytes(0)
}

/// Appends the wire format of `name` to `out`. Returns `false` if it has a label that cannot be
/// represented, in which case what was appended is of no use.
fn encode_name(name: &[u8], out: &mut Vec<u8>) -> (ok: bool)
    ensures
        ok <==> encoded_labels(name@, 0) is Some,
        ok ==> final(out)@ == old(out)@ + encoded_labels(name@, 0).unwrap(),
{
    let n: usize = name.len();
    let mut i: usize = 0;
    let ghost mut done: Seq<u8> = Seq::empty();
    assert(out@ =~= old(out)@ + done);
    loop
        invariant
            n == name@.len(),
            i <= n,
            out@ == old(out)@ + done,
            encoded_labels(name@, 0) is Some <==> encoded_labels(name@, i as int) is Some,
            encoded_labels(name@, 0) matches Some(all) ==> all == done + encoded_labels(
                name@,
                i as int,
            ).unwrap(),
        decreases n - i,
    {
        let mut end: usize = i;
        proof {
            lemma_label_end(name@, i as int);
        }
        while end < n && name[end] != DOT
            invariant
                n == name@.len(),
                i <= end <= n,
                forall|k: int| i <= k < end ==> name@[k] != DOT,
            decreases n - end,
        {
            end = end + 1;
        }
        proof {
            lemma_label_extends(name@, i as int, end as int);
        }
        assert(end == label_end(name@, i as int));
        if end == i {
            if end == n {
                out.push(0);
                assert(out@ =~= old(out)@ + (done + seq![0u8]));
                return true;
            }
            return false;
        }
        let label: &[u8] = &name[i..end];
        if label.len() > MAX_LABEL {
            return false;
        }
        out.push(label.len() as u8);
        append(out, label);
        let ghost first = seq![label@.len() as u8] + label@;
        assert(out@ =~= old(out)@ + (done + first));
        if end == n {
            out.push(0);
            assert(out@ =~= old(out)@ + (done + (first + seq![0u8])));
            return true;
        }
        proof {
            if encoded_labels(name@, end + 1) is Some {
                let rest = encoded_labels(name@, end + 1).unwrap();
                assert(done + (first + rest) =~= (done + first) + rest);
            }
            done = done + first;
        }
        i = end + 1;
    }
}

/// Builds a DNS query for the address of `hostname`: `None` exactly for an empty name and for
/// one with a label that cannot be represented.
pub fn build_query(id: u16, hostname: &str) -> (query: Option<Vec<u8>>)
    ensures
        query is Some <==> query_bytes(id, bytes::str_bytes(hostname)) is Some,
        query matches Some(q) ==> q@ == query_bytes(id, bytes::str_bytes(hostname)).unwrap(),
{
    let name: &[u8] = hostname.as_bytes();
    if name.len() == 0 {
        return None;
    }
    let mut query: Vec<u8> = Vec::new();
    append_be16(&mut query, id);
    append_be16(&mut query, FLAG_RECURSION_DESIRED);
    append_be16(&mut query, 1);
    append_be16(&mut query, 0);
    append_be16(&mut query, 0);
    append_be16(&mut query, 0);
    assert(query@ =~= query_header(id));
    if !encode_name(name, &mut query) {
        return None;
    }
    append_be16(&mut query, TYPE_A);
    append_be16(&mut query, CLASS_IN);
    Some(query)
}

/// The position after the name at `pos`: past its zero byte, or past a compression pointer,
/// which ends a name. `None` if the name runs off the buffer or uses a reserved tag.
pub open spec fn name_end(s: Seq<u8>, pos: int) -> Option<int>
    decreases s.len() - pos,
{
    if pos >= s.len() {
        None
    } else if s[pos] == 0 {
        Some(pos + 1)
    } else if s[pos] >= 192 {
        if pos + 1 < s.len() {
            Some(pos + 2)
        } else {
            None
        }
    } else if s[pos] < 64 && pos + 1 + s[pos] <= s.len() {
        name_end(s, pos + 1 + s[pos])
    } else {
        None
    }
}

/// Skips the name at `pos`.
fn skip_name(buf: &[u8], pos: usize) -> (end: Option<usize>)
    requires
        pos <= buf@.len(),
    ensures
        match end {
            Some(e) => name_end(buf@, pos as int) == Some(e as int) && pos < e <= buf@.len(),
            None => name_end(buf@, pos as int) is None,
        },
{
    let n: usize = buf.len();
    let mut at: usize = pos;
    while at < n
        invariant
            n == buf@.len(),
            pos <= at <= n,
            name_end(buf@, pos as int) == name_end(buf@, at as int),
        decreases n - at,
    {
        let len: u8 = buf[at];
        if len == 0 {
            return Some(at + 1);
        } else if len >= 192 {
            if n - at < 2 {
                return None;
            }
            return Some(at + 2);
        } else if len < 64 {
            if n - at < 1 + len as usize {
                return None;
            }
            at = at + 1 + len as usize;
        } else {
            return None;
        }
    }
    None
}

/// The position after `n` questions from `pos` on: each is a name, a type and a class.
pub open spec fn questions_end(s: Seq<u8>, pos: int, n: int) -> Option<int>
    decreases n,
{
    if n <= 0 {
        Some(pos)
    } else {
        match name_end(s, pos) {
            Some(p) => if p + 4 > s.len() {
                None
            } else {
                questions_end(s, p + 4, n - 1)
            },
            None => None,
        }
    }
}

/// The first IPv4 address among `n` answer records from `pos` on. Each is a name, a type, a
/// class, a lifetime, a length and that many bytes of data.
pub open spec fn first_address(s: Seq<u8>, pos: int, n: int) -> Option<Seq<u8>>
    decreases n,
{
    if n <= 0 {
        None
    } else {
        match name_end(s, pos) {
            Some(p) => {
                if p + 10 > s.len() {
                    None
                } else {
                    let len = bytes::be16(s, p + 8) as int;
                    if p + 10 + len > s.len() {
                        None
                    } else if bytes::be16(s, p) == TYPE_A && len == 4 {
                        Some(s.subrange(p + 10, p + 14))
                    } else {
                        first_address(s, p + 10 + len, n - 1)
                    }
                }
            },
            None => None,
        }
    }
}

/// Whether the message is an error-free response with this id.
pub open spec fn is_response(s: Seq<u8>, id: u16) -> bool {
    &&& s.len() >= HEADER_LEN
    &&& bytes::be16(s, 0) == id
    &&& bytes::be16(s, 2) >= 0x8000
    &&& bytes::be16(s, 2) % 16 == 0
}

/// The address that a response gives.
pub open spec fn response_address(s: Seq<u8>, id: u16) -> Option<Seq<u8>> {
    if !is_response(s, id) {
        None
    } else {
        match questions_end(s, HEADER_LEN as int, bytes::be16(s, 4) as int) {
            Some(p) => first_address(s, p, bytes::be16(s, 6) as int),
            None => None,
        }
    }
}

/// Parses a DNS response to the query `expected_id` and returns the first IPv4 address that it
/// answers with, if there is one.
pub fn parse_response(buf: &[u8], expected_id: u16) -> (address: Option<[u8; 4]>)
    ensures
        match address {
            Some(a) => response_address(buf@, expected_id) == Some(a@),
            None => response_address(buf@, expected_id) is None,
        },
{
    let n: usize = buf.len();
    if n < HEADER_LEN {
        return None;
    }
    let id: u16 = read_be16(buf, 0);
    let flags: u16 = read_be16(buf, 2);
    if id != expected_id || flags < 0x8000 || flags % 16 != 0 {
        return None;
    }
    let mut questions: u16 = read_be16(buf, 4);
    let mut answers: u16 = read_be16(buf, 6);
    let mut pos: usize = HEADER_LEN;
    while questions > 0
        invariant
            n == buf@.len(),
            pos <= n,
            questions_end(buf@, HEADER_LEN as int, bytes::be16(buf@, 4) as int) == questions_end(
                buf@,
                pos as int,
                questions as int,
            ),
            is_response(buf@, expected_id),
            answers == bytes::be16(buf@, 6),
        decreases questions,
    {
        match skip_name(buf, pos) {
            Some(end) => {
                if n - end < 4 {
                    return None;
                }
                pos = end + 4;
            },
            None => {
                return None;
            },
        }
        questions = questions - 1;
    }
    while answers > 0
        invariant
            n == buf@.len(),
            pos <= n,
            response_address(buf@, expected_id) == first_address(
                buf@,
                pos as int,
                answers as int,
            ),
        decreases answers,
    {
        match skip_name(buf, pos) {
            Some(end) => {
                if n - end < 10 {
                    return None;
                }
                let typ: u16 = read_be16(buf, end);
                let len: usize = read_be16(buf, end + 8) as usize;
                let data: usize = end + 10;
                if n - data < len {
                    return None;
                }
                if typ == TYPE_A && len == 4 {
                    return Some(read_array4(buf, data));
                }
                pos = data + len;
            },
            None => {
                return None;
            },
        }
        answers = answers - 1;
    }
    None
}

/// Skipping steps over exactly the encoded name: whatever stands around it, the position after
/// the name is where what follows it starts.
pub proof fn encoded_name_is_skipped(before: Seq<u8>, name: Seq<u8>, i: int, after: Seq<u8>)
    requires
        0 <= i <= name.len(),
        encoded_labels(name, i) is Some,
    ensures
        name_end(before + encoded_labels(name, i).unwrap() + after, before.len() as int) == Some(
            (before.len() + encoded_labels(name, i).unwrap().len()) as int,
        ),
    decreases name.len() - i,
{
    lemma_label_end(name, i);
    let end = label_end(name, i);
    let label = name.subrange(i, end);
    let all = encoded_labels(name, i).unwrap();
    let s = before + all + after;
    let at = before.len() as int;
    if end > i {
        let first = seq![label.len() as u8] + label;
        assert(s[at] == label.len() as u8);
        if end == name.len() {
            assert(all == first + seq![0u8]);
            assert(s[at + first.len()] == 0u8);
            assert(name_end(s, (at + first.len()) as int) == Some((at + first.len() + 1) as int));
        } else {
            let rest = encoded_labels(name, end + 1).unwrap();
            encoded_name_is_skipped(before + first, name, end + 1, after);
            assert((before + first) + rest + after =~= s);
        }
    } else {
        assert(s[at] == 0u8);
    }
}

/// The response to a query that echoes its question and answers with one address: the header
/// turned into an error-free response with one answer, the question, and a record whose name
/// points back to the question.
pub open spec fn answer_bytes(id: u16, flags: u16, labels: Seq<u8>, ttl: u32, address: Seq<u8>) -> Seq<u8> {
    bytes::be16_bytes(id) + bytes::be16_bytes(flags) + bytes::be16_bytes(1) + bytes::be16_bytes(1)
        + bytes::be16_bytes(0) + bytes::be16_bytes(0) + labels + bytes::be16_bytes(TYPE_A)
        + bytes::be16_bytes(CLASS_IN) + seq![0xC0u8, 12u8] + bytes::be16_bytes(TYPE_A)
        + bytes::be16_bytes(CLASS_IN) + bytes::be32_bytes(ttl) + bytes::be16_bytes(4) + address
}

/// An answered query gives the address: parsing the response with the query's id finds it, and
/// with any other id finds nothing.
pub proof fn answer_is_found(
    id: u16,
    other: u16,
    flags: u16,
    name: Seq<u8>,
    ttl: u32,
    address: Seq<u8>,
)
    requires
        encoded_labels(name, 0) is Some,
        flags >= 0x8000,
        flags % 16 == 0,
        address.len() == 4,
        other != id,
    ensures
        response_address(
            answer_bytes(id, flags, encoded_labels(name, 0).unwrap(), ttl, address),
            id,
        ) == Some(address),
        response_address(
            answer_bytes(id, flags, encoded_labels(name, 0).unwrap(), ttl, address),
            other,
        ) is None,
{
    let labels = encoded_labels(name, 0).unwrap();
    let s = answer_bytes(id, flags, labels, ttl, address);
    let header = bytes::be16_bytes(id) + bytes::be16_bytes(flags) + bytes::be16_bytes(1)
        + bytes::be16_bytes(1) + bytes::be16_bytes(0) + bytes::be16_bytes(0);
    let tail = bytes::be16_bytes(TYPE_A) + bytes::be16_bytes(CLASS_IN) + seq![0xC0u8, 12u8]
        + bytes::be16_bytes(TYPE_A) + bytes::be16_bytes(CLASS_IN) + bytes::be32_bytes(ttl)
        + bytes::be16_bytes(4) + address;
    assert(s =~= header + labels + tail);
    bytes::be16_round_trip(id);
    bytes::be16_round_trip(flags);
    bytes::be16_round_trip(1);
    bytes::be16_round_trip(4);
    assert(header.len() == 12);
    assert(s[0] == header[0] && s[1] == header[1] && s[2] == header[2] && s[3] == header[3] && s[4]
        == header[4] && s[5] == header[5] && s[6] == header[6] && s[7] == header[7]);
    assert(bytes::be16(s, 0) == id && bytes::be16(s, 2) == flags && bytes::be16(s, 4) == 1
        && bytes::be16(s, 6) == 1);
    encoded_name_is_skipped(header, name, 0, tail);
    let q = 12 + labels.len();
    assert(name_end(s, 12) == Some(q as int));
    assert(tail.len() == 20);
    assert(s.len() == q + 20);
    let record = (q + 4) as int;
    assert(questions_end(s, 12, 1) == Some(record)) by {
        assert(questions_end(s, record, 0) == Some(record));
    }
    assert(s[record] == tail[4] && tail[4] == 0xC0u8);
    assert(name_end(s, record) == Some(record + 2));
    assert(s[record + 2] == tail[6] && s[record + 3] == tail[7]);
    assert(bytes::be16(s, record + 2) == TYPE_A);
    assert(s[record + 10] == tail[14] && s[record + 11] == tail[15]);
    assert(bytes::be16(s, record + 10) == 4);
    assert(s.subrange(record + 12, record + 16) =~= address);
}

} // verus!
