//! ARP: resolving IPv4 addresses to MAC addresses, and the cache of what has been learned.

use std::collections::BTreeMap;

use vstd::prelude::*;

use crate::bytes;
use crate::bytes::{append, append_be16, read_array4, read_array6, read_be16, read_be32, same_ip};
use crate::net::ether::MacAddr;

verus! {

/// Hardware type: Ethernet.
pub const HTYPE_ETHERNET: u16 = 1;

/// Protocol type: IPv4.
pub const PTYPE_IPV4: u16 = 0x0800;

/// The length of a MAC address.
pub const HLEN_ETHERNET: u8 = 6;

/// The length of an IPv4 address.
pub const PLEN_IPV4: u8 = 4;

/// ARP operation: a request.
pub const OPER_REQUEST: u16 = 1;

/// ARP operation: a reply.
pub const OPER_REPLY: u16 = 2;

/// The fixed ARP packet length for IPv4 over Ethernet.
pub const PACKET_LEN: usize = 28;

/// A parsed ARP packet for IPv4 over Ethernet.
pub struct ArpPacket {
    /// [`OPER_REQUEST`] or [`OPER_REPLY`].
    pub oper: u16,
    /// The sender's MAC address.
    pub sha: MacAddr,
    /// The sender's IPv4 address.
    pub spa: [u8; 4],
    /// The target's MAC address; zero in a request.
    pub tha: MacAddr,
    /// The target's IPv4 address.
    pub tpa: [u8; 4],
}

/// Whether `s` starts with an ARP packet for IPv4 over Ethernet.
pub open spec fn is_arp(s: Seq<u8>) -> bool {
    &&& s.len() >= PACKET_LEN
    &&& bytes::be16(s, 0) == HTYPE_ETHERNET
    &&& bytes::be16(s, 2) == PTYPE_IPV4
    &&& s[4] == HLEN_ETHERNET
    &&& s[5] == PLEN_IPV4
}

impl ArpPacket {
    /// Parses an ARP packet: `None` exactly for one that is too short or not for IPv4 over
    /// Ethernet.
    pub fn parse(buf: &[u8]) -> (packet: Option<ArpPacket>)
        ensures
            packet is Some <==> is_arp(buf@),
            packet matches Some(p) ==> {
                &&& p.oper == bytes::be16(buf@, 6)
                &&& p.sha@ == buf@.subrange(8, 14)
                &&& p.spa@ == buf@.subrange(14, 18)
                &&& p.tha@ == buf@.subrange(18, 24)
                &&& p.tpa@ == buf@.subrange(24, 28)
            },
    {
        if buf.len() < PACKET_LEN {
            return None;
        }
        if read_be16(buf, 0) != HTYPE_ETHERNET || read_be16(buf, 2) != PTYPE_IPV4 || buf[4]
            != HLEN_ETHERNET || buf[5] != PLEN_IPV4 {
            return None;
        }
        Some(
            ArpPacket {
                oper: read_be16(buf, 6),
                sha: read_array6(buf, 8),
                spa: read_array4(buf, 14),
                tha: read_array6(buf, 18),
                tpa: read_array4(buf, 24),
            },
        )
    }
}

/// The packet with these fields.
pub open spec fn packet_bytes(
    oper: u16,
    sha: Seq<u8>,
    spa: Seq<u8>,
    tha: Seq<u8>,
    tpa: Seq<u8>,
) -> Seq<u8> {
    bytes::be16_bytes(HTYPE_ETHERNET) + bytes::be16_bytes(PTYPE_IPV4) + seq![
        HLEN_ETHERNET,
        PLEN_IPV4,
    ] + bytes::be16_bytes(oper) + sha + spa + tha + tpa
}

/// Builds an ARP packet.
fn build(oper: u16, sha: MacAddr, spa: [u8; 4], tha: MacAddr, tpa: [u8; 4]) -> (packet: Vec<u8>)
    ensures
        packet@ == packet_bytes(oper, sha@, spa@, tha@, tpa@),
{
    let mut packet: Vec<u8> = Vec::new();
    append_be16(&mut packet, HTYPE_ETHERNET);
    append_be16(&mut packet, PTYPE_IPV4);
    packet.push(HLEN_ETHERNET);
    packet.push(PLEN_IPV4);
    append_be16(&mut packet, oper);
    append(&mut packet, &sha);
    append(&mut packet, &spa);
    append(&mut packet, &tha);
    append(&mut packet, &tpa);
    assert(packet@ =~= packet_bytes(oper, sha@, spa@, tha@, tpa@));
    packet
}

/// Builds an ARP request for the owner of `target_ip`.
pub fn build_request(our_mac: MacAddr, our_ip: [u8; 4], target_ip: [u8; 4]) -> (packet: Vec<u8>)
    ensures
        packet@ == packet_bytes(OPER_REQUEST, our_mac@, our_ip@, bytes::zeros(6), target_ip@),
{
    let unknown: MacAddr = [0, 0, 0, 0, 0, 0];
    assert(unknown@ =~= bytes::zeros(6));
    build(OPER_REQUEST, our_mac, our_ip, unknown, target_ip)
}

/// Builds an ARP reply that tells `target_ip` at `target_mac` our address.
pub fn build_reply(
    our_mac: MacAddr,
    our_ip: [u8; 4],
    target_mac: MacAddr,
    target_ip: [u8; 4],
) -> (packet: Vec<u8>)
    ensures
        packet@ == packet_bytes(OPER_REPLY, our_mac@, our_ip@, target_mac@, target_ip@),
{
    build(OPER_REPLY, our_mac, our_ip, target_mac, target_ip)
}

/// A built packet parses back to its fields.
pub proof fn packet_round_trip(
    oper: u16,
    sha: Seq<u8>,
    spa: Seq<u8>,
    tha: Seq<u8>,
    tpa: Seq<u8>,
)
    requires
        sha.len() == 6,
        spa.len() == 4,
        tha.len() == 6,
        tpa.len() == 4,
    ensures
        ({
            let p = packet_bytes(oper, sha, spa, tha, tpa);
            &&& is_arp(p)
            &&& p.len() == PACKET_LEN
            &&& bytes::be16(p, 6) == oper
            &&& p.subrange(8, 14) == sha
            &&& p.subrange(14, 18) == spa
            &&& p.subrange(18, 24) == tha
            &&& p.subrange(24, 28) == tpa
        }),
{
    let p = packet_bytes(oper, sha, spa, tha, tpa);
    bytes::be16_round_trip(oper);
    bytes::be16_round_trip(HTYPE_ETHERNET);
    bytes::be16_round_trip(PTYPE_IPV4);
    let b0 = bytes::be16_bytes(HTYPE_ETHERNET);
    let b2 = bytes::be16_bytes(PTYPE_IPV4);
    let b6 = bytes::be16_bytes(oper);
    assert(p[0] == b0[0] && p[1] == b0[1] && p[2] == b2[0] && p[3] == b2[1] && p[6] == b6[0]
        && p[7] == b6[1]);
    assert(p.subrange(8, 14) =~= sha);
    assert(p.subrange(14, 18) =~= spa);
    assert(p.subrange(18, 24) =~= tha);
    assert(p.subrange(24, 28) =~= tpa);
}

/// The learned mappings from IPv4 addresses to MAC addresses. An address is the key that its
/// four bytes spell, most significant first.
pub struct ArpCache {
    entries: BTreeMap<u32, MacAddr>,
}

/// The key of an address.
pub open spec fn ip_key(ip: Seq<u8>) -> u32 {
    bytes::be32(ip, 0)
}

impl View for ArpCache {
    type V = Map<u32, Seq<u8>>;

    closed spec fn view(&self) -> Map<u32, Seq<u8>> {
        self.entries@.map_values(|mac: MacAddr| mac@)
    }
}

impl ArpCache {
    /// An empty cache.
    pub fn new() -> (cache: ArpCache)
        ensures
            cache@ == Map::<u32, Seq<u8>>::empty(),
    {
        let cache = ArpCache { entries: BTreeMap::new() };
        assert(cache@ =~= Map::<u32, Seq<u8>>::empty());
        cache
    }
}

/// The key of an address.
fn key_of(ip: [u8; 4]) -> (key: u32)
    ensures
        key == ip_key(ip@),
{
    read_be32(&ip, 0)
}

/// The address of a key.
fn ip_of(key: u32) -> (ip: [u8; 4])
    ensures
        ip@ == bytes::be32_bytes(key),
{
    let ip: [u8; 4] = [
        (key / 0x100_0000) as u8,
        (key / 0x1_0000 % 256) as u8,
        (key / 0x100 % 256) as u8,
        (key % 256) as u8,
    ];
    assert(ip@ =~= bytes::be32_bytes(key));
    ip
}

/// Records a learned mapping; a later one for the same address replaces it.
pub fn cache_insert(cache: &mut ArpCache, ip: [u8; 4], mac: MacAddr)
    ensures
        final(cache)@ == old(cache)@.insert(ip_key(ip@), mac@),
{
    broadcast use vstd::std_specs::btree::group_btree_axioms;
    broadcast use vstd::laws_cmp::group_laws_cmp;

    let ghost before = cache@;
    cache.entries.insert(key_of(ip), mac);
    assert(cache@ =~= before.insert(ip_key(ip@), mac@));
}

/// The MAC address that a cache holds for an address.
pub open spec fn cached(cache: Map<u32, Seq<u8>>, ip: Seq<u8>) -> Option<Seq<u8>> {
    if cache.contains_key(ip_key(ip)) {
        Some(cache[ip_key(ip)])
    } else {
        None
    }
}

/// The MAC address learned for `ip`, if any.
pub fn cache_lookup(cache: &ArpCache, ip: [u8; 4]) -> (mac: Option<MacAddr>)
    ensures
        match mac {
            Some(m) => cached(cache@, ip@) == Some(m@),
            None => cached(cache@, ip@) is None,
        },
{
    broadcast use vstd::std_specs::btree::group_btree_axioms;
    broadcast use vstd::laws_cmp::group_laws_cmp;

    match cache.entries.get(&key_of(ip)) {
        Some(mac) => Some(*mac),
        None => None,
    }
}

/// How many addresses are known.
pub fn cache_len(cache: &ArpCache) -> (n: usize)
    ensures
        n == cache@.dom().len(),
{
    broadcast use vstd::std_specs::btree::group_btree_axioms;
    broadcast use vstd::laws_cmp::group_laws_cmp;

    assert(cache@.dom() =~= cache.entries@.dom());
    cache.entries.len()
}

/// Processes an incoming ARP packet: learns the sender's mapping, and answers a request for our
/// address with the reply to send back.
pub fn process(cache: &mut ArpCache, our_mac: MacAddr, our_ip: [u8; 4], pkt: &ArpPacket) -> (reply:
    Option<Vec<u8>>)
    ensures
        final(cache)@ == old(cache)@.insert(ip_key(pkt.spa@), pkt.sha@),
        reply is Some <==> pkt.oper == OPER_REQUEST && pkt.tpa@ == our_ip@,
        reply matches Some(r) ==> r@ == packet_bytes(
            OPER_REPLY,
            our_mac@,
            our_ip@,
            pkt.sha@,
            pkt.spa@,
        ),
{
    cache_insert(cache, pkt.spa, pkt.sha);
    if pkt.oper == OPER_REQUEST && same_ip(pkt.tpa, our_ip) {
        Some(build_reply(our_mac, our_ip, pkt.sha, pkt.spa))
    } else {
        None
    }
}

/// All known mappings, ordered by address.
pub fn cache_entries(cache: &ArpCache) -> (entries: Vec<([u8; 4], MacAddr)>)
    ensures
        entries@.len() == cache@.dom().len(),
        forall|i: int|
            0 <= i < entries@.len() ==> {
                &&& cache@.contains_key(ip_key((#[trigger] entries@[i]).0@))
                &&& cache@[ip_key(entries@[i].0@)] == entries@[i].1@
            },
        forall|i: int, j: int|
            0 <= i < j < entries@.len() ==> ip_key((#[trigger] entries@[i]).0@) < ip_key(
                (#[trigger] entries@[j]).0@,
            ),
{
    broadcast use vstd::std_specs::btree::group_btree_axioms;
    broadcast use vstd::laws_cmp::group_laws_cmp;

    assert(cache@.dom() =~= cache.entries@.dom());
    let mut entries: Vec<([u8; 4], MacAddr)> = Vec::new();
    let iter = cache.entries.iter();
    let ghost all = vstd::std_specs::iter::IteratorSpec::remaining(&iter);
    let ghost keys = all.map_values(|kv: (&u32, &MacAddr)| *kv.0);
    for entry in it: iter
        invariant
            it.seq() == all,
            entries@.len() == it.index(),
            forall|i: int|
                0 <= i < entries@.len() ==> (#[trigger] entries@[i]).0@ == bytes::be32_bytes(
                    *all[i].0,
                ) && entries@[i].1 == *all[i].1,
    {
        entries.push((ip_of(*entry.0), *entry.1));
    }
    proof {
        assert forall|i: int| 0 <= i < entries@.len() implies {
            &&& ip_key((#[trigger] entries@[i]).0@) == keys[i]
            &&& cache@.contains_key(keys[i])
            &&& cache@[keys[i]] == entries@[i].1@
        } by {
            bytes::be32_round_trip(*all[i].0);
            assert(keys[i] == *all[i].0);
            assert(cache.entries@.contains_key(*all[i].0));
            assert(cache.entries@[*all[i].0] == *all[i].1);
            assert(cache@.contains_key(*all[i].0));
        }
        assert forall|i: int, j: int| 0 <= i < j < entries@.len() implies ip_key(
            (#[trigger] entries@[i]).0@,
        ) < ip_key((#[trigger] entries@[j]).0@) by {
            assert(ip_key(entries@[i].0@) == keys[i]);
            assert(ip_key(entries@[j].0@) == keys[j]);
            assert(vstd::std_specs::btree::increasing_seq(keys));
            assert(vstd::std_specs::cmp::OrdSpec::cmp_spec(&keys[i], &keys[j]) is Less);
        }
    }
    entries
}

/// Different addresses have different keys, and an address can be told from its key.
pub proof fn keys_are_faithful(a: Seq<u8>, b: Seq<u8>)
    requires
        a.len() == 4,
        b.len() == 4,
    ensures
        ip_key(a) == ip_key(b) ==> a == b,
        bytes::be32_bytes(ip_key(a)) == a,
{
    bytes::be32_unique(a);
    bytes::be32_unique(b);
}

/// A learned mapping is found again, and learning one leaves every other address alone.
pub proof fn learning_is_remembered(
    cache: Map<u32, Seq<u8>>,
    ip: Seq<u8>,
    other: Seq<u8>,
    mac: Seq<u8>,
)
    requires
        ip.len() == 4,
        other.len() == 4,
        other != ip,
    ensures
        cached(cache.insert(ip_key(ip), mac), ip) == Some(mac),
        cached(cache.insert(ip_key(ip), mac), other) == cached(cache, other),
{
    keys_are_faithful(ip, other);
}

} // verus!
