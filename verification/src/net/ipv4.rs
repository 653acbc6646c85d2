//! IPv4: a 20-byte header without options, never fragmented, and the Internet checksum.

use vstd::prelude::*;

use crate::bytes;
use crate::bytes::{append, append_be16, read_array4, read_be16};

verus! {

/// IP protocol number for ICMP.
pub const PROTO_ICMP: u8 = 1;

/// The IPv4 header length emitted here (no options).
pub const HEADER_LEN: usize = 20;

/// The sum of the 16-bit big-endian words of `s` from offset `i` on; a trailing odd byte is the
/// high byte of a word whose low byte is zero.
pub open spec fn word_sum(s: Seq<u8>, i: int) -> int
    decreases s.len() - i,
{
    if i >= s.len() {
        0
    } else if i + 1 == s.len() {
        s[i] * 256
    } else {
        s[i] * 256 + s[i + 1] + word_sum(s, i + 2)
    }
}

/// `n` reduced to 16 bits by adding the carries back in: the representative of `n` modulo
/// `0xFFFF` in `1..=0xFFFF`, and zero for zero.
pub open spec fn fold_carries(n: int) -> int {
    if n == 0 {
        0
    } else {
        (n - 1) % 0xFFFF + 1
    }
}

/// The Internet checksum of `s`: the complement of the folded word sum.
pub open spec fn internet_checksum(s: Seq<u8>) -> u16 {
    (0xFFFF - fold_carries(word_sum(s, 0))) as u16
}

/// Folding never leaves 16 bits and is unchanged by adding a further word first.
proof fn fold_add(n: int, w: int)
    requires
        0 <= n,
        0 <= w <= 0xFFFF,
    ensures
        0 <= fold_carries(n) <= 0xFFFF,
        fold_carries(n) + w <= 0xFFFF ==> fold_carries(n + w) == fold_carries(n) + w,
        fold_carries(n) + w > 0xFFFF ==> fold_carries(n + w) == fold_carries(n) + w - 0xFFFF,
{
}

/// Word sums are non-negative.
proof fn word_sum_nonneg(s: Seq<u8>, i: int)
    ensures
        word_sum(s, i) >= 0,
    decreases s.len() - i,
{
    if i + 1 < s.len() {
        word_sum_nonneg(s, i + 2);
    }
}

/// Replacing the word at the even distance `k - i` changes the word sum by the difference of
/// the two words.
proof fn word_sum_replace(s: Seq<u8>, t: Seq<u8>, i: int, k: int)
    requires
        s.len() == t.len(),
        0 <= i <= k,
        k + 2 <= s.len(),
        (k - i) % 2 == 0,
        forall|j: int| 0 <= j < s.len() && j != k && j != k + 1 ==> s[j] == t[j],
    ensures
        word_sum(t, i) == word_sum(s, i) - bytes::be16(s, k) + bytes::be16(t, k),
    decreases k - i,
{
    if i < k {
        word_sum_replace(s, t, i + 2, k);
    } else {
        word_sum_same(s, t, i + 2);
    }
}

/// Word sums depend only on the bytes from the offset on.
proof fn word_sum_same(s: Seq<u8>, t: Seq<u8>, i: int)
    requires
        s.len() == t.len(),
        forall|j: int| i <= j < s.len() ==> s[j] == t[j],
    ensures
        word_sum(s, i) == word_sum(t, i),
    decreases s.len() - i,
{
    if i + 1 < s.len() {
        word_sum_same(s, t, i + 2);
    }
}

/// A message verifies: with its checksum stored at the even offset `k`, where the field was zero
/// when the checksum was computed, the checksum of the whole is zero.
pub proof fn stored_checksum_verifies(s: Seq<u8>, k: int)
    requires
        0 <= k,
        k + 2 <= s.len(),
        k % 2 == 0,
        bytes::be16(s, k) == 0,
    ensures
        internet_checksum(store_be16(s, k, internet_checksum(s))) == 0,
{
    stored_equivalent_verifies(s, k, internet_checksum(s));
}

/// The same for either of the two representations of a zero checksum, `0x0000` and `0xFFFF`.
pub proof fn stored_equivalent_verifies(s: Seq<u8>, k: int, stored: u16)
    requires
        0 <= k,
        k + 2 <= s.len(),
        k % 2 == 0,
        bytes::be16(s, k) == 0,
        stored == internet_checksum(s) || (internet_checksum(s) == 0 && stored == 0xFFFF),
    ensures
        internet_checksum(store_be16(s, k, stored)) == 0,
{
    let t = store_be16(s, k, stored);
    let sum = word_sum(s, 0);
    word_sum_nonneg(s, 0);
    word_sum_replace(s, t, 0, k);
    bytes::be16_round_trip(stored);
    assert(bytes::be16(t, k) == stored);
    assert(word_sum(t, 0) == sum + stored);
    fold_add(sum, 0);
    assert((sum + stored) % 0xFFFF == 0);
    assert(fold_carries(sum + stored) == 0xFFFF);
}

/// `s` with `x` stored big-endian at offset `k`.
pub open spec fn store_be16(s: Seq<u8>, k: int, x: u16) -> Seq<u8> {
    s.update(k, (x / 256) as u8).update(k + 1, (x % 256) as u8)
}

/// The Internet checksum of `data`.
pub fn checksum(data: &[u8]) -> (ck: u16)
    ensures
        ck == internet_checksum(data@),
{
    let mut sum: u32 = 0;
    let mut i: usize = 0;
    let n: usize = data.len();
    while n >= 2 && i <= n - 2
        invariant
            n == data@.len(),
            i <= n,
            i % 2 == 0,
            sum == fold_carries(word_sum(data@, 0) - word_sum(data@, i as int)),
            0 <= word_sum(data@, 0) - word_sum(data@, i as int),
            sum <= 0xFFFF,
        decreases n - i,
    {
        let word: u32 = read_be16(data, i) as u32;
        proof {
            fold_add(word_sum(data@, 0) - word_sum(data@, i as int), word as int);
        }
        sum = sum + word;
        if sum > 0xFFFF {
            sum = sum - 0xFFFF;
        }
        i = i + 2;
    }
    if i < n {
        let word: u32 = data[i] as u32 * 256;
        proof {
            fold_add(word_sum(data@, 0) - word_sum(data@, i as int), word as int);
        }
        sum = sum + word;
        if sum > 0xFFFF {
            sum = sum - 0xFFFF;
        }
    }
    (0xFFFF - sum) as u16
}

/// Stores `x` big-endian at offset `k` of `buf`.
pub fn put_be16(buf: &mut Vec<u8>, k: usize, x: u16)
    requires
        k + 2 <= old(buf)@.len(),
    ensures
        final(buf)@ == store_be16(old(buf)@, k as int, x),
{
    assert(k + 2 <= buf.len());
    buf[k] = (x / 256) as u8;
    buf[k + 1] = (x % 256) as u8;
}

/// A parsed IPv4 packet. The payload ends where the header's total length says, so padding past
/// the packet is excluded.
pub struct Ipv4Packet<'a> {
    pub protocol: u8,
    pub src: [u8; 4],
    pub dst: [u8; 4],
    pub payload: &'a [u8],
}

/// The header length that the first byte of a packet states.
pub open spec fn stated_header_len(s: Seq<u8>) -> int {
    s[0] % 16 * 4
}

/// Whether `s` starts with a version-4 header of at least five words that it holds completely.
pub open spec fn is_ipv4(s: Seq<u8>) -> bool {
    &&& s.len() >= HEADER_LEN
    &&& s[0] / 16 == 4
    &&& stated_header_len(s) >= 20
    &&& s.len() >= stated_header_len(s)
}

/// Where the payload ends: at the stated total length, but neither before the header's end nor
/// past the buffer's.
pub open spec fn payload_end(s: Seq<u8>) -> int {
    let total = bytes::be16(s, 2) as int;
    let bounded = if total < s.len() {
        total
    } else {
        s.len() as int
    };
    if bounded < stated_header_len(s) {
        stated_header_len(s)
    } else {
        bounded
    }
}

impl<'a> Ipv4Packet<'a> {
    /// Parses an IPv4 packet: `None` exactly when the buffer does not start with a complete
    /// version-4 header. The checksum is not checked.
    pub fn parse(buf: &'a [u8]) -> (packet: Option<Ipv4Packet<'a>>)
        ensures
            packet is Some <==> is_ipv4(buf@),
            packet matches Some(p) ==> {
                &&& p.protocol == buf@[9]
                &&& p.src@ == buf@.subrange(12, 16)
                &&& p.dst@ == buf@.subrange(16, 20)
                &&& p.payload@ == buf@.subrange(stated_header_len(buf@), payload_end(buf@))
            },
    {
        if buf.len() < HEADER_LEN {
            return None;
        }
        let version: u8 = buf[0] / 16;
        let words: usize = (buf[0] % 16) as usize;
        if version != 4 || words < 5 {
            return None;
        }
        let header_len: usize = words * 4;
        if buf.len() < header_len {
            return None;
        }
        let total_len: usize = read_be16(buf, 2) as usize;
        let bounded: usize = if total_len < buf.len() {
            total_len
        } else {
            buf.len()
        };
        let end: usize = if bounded < header_len {
            header_len
        } else {
            bounded
        };
        Some(
            Ipv4Packet {
                protocol: buf[9],
                src: read_array4(buf, 12),
                dst: read_array4(buf, 16),
                payload: &buf[header_len..end],
            },
        )
    }
}

/// A header for a packet of `total_len` bytes, with a zero checksum field: version 4, five
/// words, Don't Fragment, time to live 64. The length field holds the low 16 bits.
pub open spec fn header_bytes(src: Seq<u8>, dst: Seq<u8>, protocol: u8, total_len: int) -> Seq<u8> {
    seq![0x45u8, 0u8] + bytes::be16_bytes((total_len % 0x1_0000) as u16) + seq![
        0u8,
        0u8,
        0x40u8,
        0u8,
        64u8,
        protocol,
        0u8,
        0u8,
    ] + src + dst
}

/// The packet with these fields.
pub open spec fn packet_bytes(src: Seq<u8>, dst: Seq<u8>, protocol: u8, payload: Seq<u8>) -> Seq<
    u8,
> {
    let header = header_bytes(src, dst, protocol, HEADER_LEN + payload.len());
    store_be16(header, 10, internet_checksum(header)) + payload
}

/// Builds an IPv4 packet: a 20-byte header with its checksum, followed by `payload`.
#[verifier::spinoff_prover]
#[verifier::rlimit(40)]
pub fn build(src: [u8; 4], dst: [u8; 4], protocol: u8, payload: &[u8]) -> (packet: Vec<u8>)
    ensures
        packet@ == packet_bytes(src@, dst@, protocol, payload@),
{
    let total_len: usize = HEADER_LEN + payload.len() % 0x1_0000;
    let mut packet: Vec<u8> = Vec::new();
    packet.push(0x45);
    packet.push(0);
    assert(packet@ =~= seq![0x45u8, 0u8]);
    append_be16(&mut packet, (total_len % 0x1_0000) as u16);
    let middle: [u8; 8] = [0, 0, 0x40, 0, 64, protocol, 0, 0];
    assert(middle@ =~= seq![0u8, 0u8, 0x40u8, 0u8, 64u8, protocol, 0u8, 0u8]);
    append(&mut packet, &middle);
    append(&mut packet, &src);
    append(&mut packet, &dst);
    assert(packet@ == header_bytes(src@, dst@, protocol, HEADER_LEN + payload@.len()));
    let ck: u16 = checksum(&packet);
    put_be16(&mut packet, 10, ck);
    append(&mut packet, payload);
    packet
}

/// The header of a built packet verifies, and parsing the packet gives back its fields: the
/// protocol, both addresses and, where the length fits its field, the payload.
pub proof fn packet_round_trip(src: Seq<u8>, dst: Seq<u8>, protocol: u8, payload: Seq<u8>)
    requires
        src.len() == 4,
        dst.len() == 4,
        HEADER_LEN + payload.len() <= 0xFFFF,
    ensures
        internet_checksum(packet_bytes(src, dst, protocol, payload).take(20)) == 0,
        is_ipv4(packet_bytes(src, dst, protocol, payload)),
        packet_bytes(src, dst, protocol, payload)[9] == protocol,
        packet_bytes(src, dst, protocol, payload).subrange(12, 16) == src,
        packet_bytes(src, dst, protocol, payload).subrange(16, 20) == dst,
        stated_header_len(packet_bytes(src, dst, protocol, payload)) == 20,
        packet_bytes(src, dst, protocol, payload).subrange(
            20,
            payload_end(packet_bytes(src, dst, protocol, payload)),
        ) == payload,
{
    let p = packet_bytes(src, dst, protocol, payload);
    let total = (HEADER_LEN + payload.len()) as u16;
    let header = header_bytes(src, dst, protocol, total as int);
    stored_checksum_verifies(header, 10);
    assert(p.take(20) =~= store_be16(header, 10, internet_checksum(header)));
    bytes::be16_round_trip(total);
    assert(p[2] == bytes::be16_bytes(total)[0] && p[3] == bytes::be16_bytes(total)[1]);
    assert(bytes::be16(p, 2) == total);
    assert(p.subrange(12, 16) =~= src);
    assert(p.subrange(16, 20) =~= dst);
    assert(p.subrange(20, payload_end(p)) =~= payload);
}

} // verus!
