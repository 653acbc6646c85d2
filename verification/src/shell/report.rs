//! What the commands print that do not concern files.

use vstd::prelude::*;

use crate::allocator::{HEAP_SIZE, HEAP_START};
use crate::apic::TIMER_HZ;
use crate::net::arp;
use crate::net::arp::{cache_entries, ArpCache};
use crate::net::stack;
use crate::net::stack::{Stack, StackModel};
use crate::text;
use crate::text::{append_chars, append_str, chars_of, numeral_of};

verus! {

/// A number in decimal digits.
pub open spec fn number(n: nat) -> Seq<char> {
    text::numeral(n, 10)
}

/// A number in decimal digits.
pub fn number_of(n: u64) -> (t: Vec<char>)
    ensures
        t@ == number(n as nat),
{
    numeral_of(n, 10)
}

/// An address in dotted-decimal form.
pub open spec fn dotted(ip: Seq<u8>) -> Seq<char> {
    number(ip[0] as nat) + "."@ + number(ip[1] as nat) + "."@ + number(ip[2] as nat) + "."@
        + number(ip[3] as nat)
}

/// An address in dotted-decimal form.
pub fn dotted_of(ip: [u8; 4]) -> (t: Vec<char>)
    ensures
        t@ == dotted(ip@),
{
    let mut t: Vec<char> = number_of(ip[0] as u64);
    append_str(&mut t, ".");
    append_chars(&mut t, &number_of(ip[1] as u64));
    append_str(&mut t, ".");
    append_chars(&mut t, &number_of(ip[2] as u64));
    append_str(&mut t, ".");
    append_chars(&mut t, &number_of(ip[3] as u64));
    t
}

/// A byte as two hexadecimal digits.
pub open spec fn two_digits(b: u8) -> Seq<char> {
    if b < 16 {
        "0"@ + text::numeral(b as nat, 16)
    } else {
        text::numeral(b as nat, 16)
    }
}

/// A byte as two hexadecimal digits.
pub fn two_digits_of(b: u8) -> (t: Vec<char>)
    ensures
        t@ == two_digits(b),
{
    let digits: Vec<char> = numeral_of(b as u64, 16);
    if b < 16 {
        let mut t: Vec<char> = chars_of("0");
        append_chars(&mut t, &digits);
        t
    } else {
        digits
    }
}

/// A MAC address, as bytes between colons.
pub open spec fn coloned(mac: Seq<u8>) -> Seq<char> {
    two_digits(mac[0]) + ":"@ + two_digits(mac[1]) + ":"@ + two_digits(mac[2]) + ":"@ + two_digits(
        mac[3],
    ) + ":"@ + two_digits(mac[4]) + ":"@ + two_digits(mac[5])
}

/// A MAC address, as bytes between colons.
fn coloned_of(mac: [u8; 6]) -> (t: Vec<char>)
    ensures
        t@ == coloned(mac@),
{
    let mut t: Vec<char> = two_digits_of(mac[0]);
    append_str(&mut t, ":");
    append_chars(&mut t, &two_digits_of(mac[1]));
    append_str(&mut t, ":");
    append_chars(&mut t, &two_digits_of(mac[2]));
    append_str(&mut t, ":");
    append_chars(&mut t, &two_digits_of(mac[3]));
    append_str(&mut t, ":");
    append_chars(&mut t, &two_digits_of(mac[4]));
    append_str(&mut t, ":");
    append_chars(&mut t, &two_digits_of(mac[5]));
    t
}

/// The list of the commands.
pub const HELP: &'static str = "available commands:
  help                  show this list
  echo <text>           print <text>
  clear                 clear the screen
  ticks / uptime        timer ticks / rough seconds since boot
  mem                   kernel heap location and size
  ls [path]             list a directory
  cat <path>            print a file
  write <path> <text>   write text to a file
  mkdir <path>          create a directory
  rm <path>             remove a file or directory
  cd <path>             change directory
  pwd                   print the working directory
  ifconfig              show the network interface + stats
  arp                   show the ARP cache
  ping <a.b.c.d>        send an ICMP echo to an IPv4 address
  nslookup <hostname>   resolve a hostname to an IPv4 address via DNS
  nc <ip> <port> [text] ring 3 netcat: connect, send, print the reply
                        (aimed at our own IP, a loopback echo answers)
";

/// What `ticks` prints.
pub open spec fn ticks_text(ticks: u64) -> Seq<char> {
    "timer ticks since boot: "@ + number(ticks as nat) + "\n"@
}

/// What `ticks` prints.
pub fn ticks_report(ticks: u64) -> (t: Vec<char>)
    ensures
        t@ == ticks_text(ticks),
{
    let mut t: Vec<char> = chars_of("timer ticks since boot: ");
    append_chars(&mut t, &number_of(ticks));
    append_str(&mut t, "\n");
    t
}

/// What `uptime` prints.
pub open spec fn uptime_text(ticks: u64) -> Seq<char> {
    "uptime: ~"@ + number((ticks / TIMER_HZ as u64) as nat) + " s ("@ + number(ticks as nat)
        + " ticks @ ~"@ + number(TIMER_HZ as nat) + " Hz)\n"@
}

/// What `uptime` prints.
pub fn uptime_report(ticks: u64) -> (t: Vec<char>)
    ensures
        t@ == uptime_text(ticks),
{
    let mut t: Vec<char> = chars_of("uptime: ~");
    append_chars(&mut t, &number_of(ticks / TIMER_HZ as u64));
    append_str(&mut t, " s (");
    append_chars(&mut t, &number_of(ticks));
    append_str(&mut t, " ticks @ ~");
    append_chars(&mut t, &number_of(TIMER_HZ as u64));
    append_str(&mut t, " Hz)\n");
    t
}

/// What `mem` prints.
pub open spec fn mem_text() -> Seq<char> {
    "kernel heap: start=0x"@ + text::numeral(HEAP_START as nat, 16) + ", size="@ + number(
        (HEAP_SIZE / 1024) as nat,
    ) + " KiB\n"@
}

/// What `mem` prints.
pub fn mem_report() -> (t: Vec<char>)
    ensures
        t@ == mem_text(),
{
    let mut t: Vec<char> = chars_of("kernel heap: start=0x");
    append_chars(&mut t, &numeral_of(HEAP_START, 16));
    append_str(&mut t, ", size=");
    append_chars(&mut t, &number_of(HEAP_SIZE / 1024));
    append_str(&mut t, " KiB\n");
    t
}

/// What is printed for a command that there is not.
pub open spec fn unknown_text(name: Seq<char>) -> Seq<char> {
    "unknown command: '"@ + name + "' (try 'help')\n"@
}

/// What is printed for a command that there is not.
pub fn unknown_report(name: &Vec<char>) -> (t: Vec<char>)
    ensures
        t@ == unknown_text(name@),
{
    let mut t: Vec<char> = chars_of("unknown command: '");
    append_chars(&mut t, name);
    append_str(&mut t, "' (try 'help')\n");
    t
}

/// The line of `ifconfig` on the lease.
pub open spec fn lease_text(m: StackModel) -> Seq<char> {
    if m.dhcp_configured {
        "  DHCP lease: mask "@ + dotted(m.mask) + "  gateway "@ + dotted(m.gateway) + "  dns "@
            + dotted(m.dns) + "  ("@ + number(m.lease_secs as nat) + " s)\n"@
    } else {
        "  DHCP: not configured (static address)\n"@
    }
}

/// The line of `ifconfig` on the lease.
fn lease_report(net: &Stack) -> (t: Vec<char>)
    ensures
        t@ == lease_text(net@),
{
    if stack::dhcp_configured(net) {
        let mut t: Vec<char> = chars_of("  DHCP lease: mask ");
        append_chars(&mut t, &dotted_of(stack::leased_mask(net)));
        append_str(&mut t, "  gateway ");
        append_chars(&mut t, &dotted_of(stack::leased_gateway(net)));
        append_str(&mut t, "  dns ");
        append_chars(&mut t, &dotted_of(stack::leased_dns(net)));
        append_str(&mut t, "  (");
        append_chars(&mut t, &number_of(stack::lease_secs(net) as u64));
        append_str(&mut t, " s)\n");
        t
    } else {
        chars_of("  DHCP: not configured (static address)\n")
    }
}

/// A counter in decimal digits.
pub open spec fn total(n: u64) -> Seq<char> {
    number(n as nat)
}

/// What `ifconfig` prints.
pub open spec fn ifconfig_text(m: StackModel) -> Seq<char> {
    "eth0: inet "@ + dotted(m.ip) + "  ether "@ + coloned(m.mac) + "\n"@ + lease_text(m)
        + "  RX frames "@ + total(m.stats.frames_received) + "  ARP replies sent "@
        + total(m.stats.arp_replies_sent) + "  pings sent-back "@
        + total(m.stats.icmp_replies_received) + "  answered "@
        + total(m.stats.icmp_requests_handled) + "\n"@ + "  UDP received "@
        + total(m.stats.udp_received) + "  echoed "@ + total(m.stats.udp_echoes_sent)
        + "  delivered "@ + total(m.stats.udp_delivered) + "\n"@
}

/// What `ifconfig` prints.
pub fn cmd_ifconfig(net: &Stack) -> (t: Vec<char>)
    ensures
        t@ == ifconfig_text(net@),
{
    let mut t: Vec<char> = chars_of("eth0: inet ");
    append_chars(&mut t, &dotted_of(stack::our_ip(net)));
    append_str(&mut t, "  ether ");
    append_chars(&mut t, &coloned_of(stack::our_mac(net)));
    append_str(&mut t, "\n");
    append_chars(&mut t, &lease_report(net));
    append_str(&mut t, "  RX frames ");
    append_chars(&mut t, &number_of(stack::frames_received(net)));
    append_str(&mut t, "  ARP replies sent ");
    append_chars(&mut t, &number_of(stack::arp_replies_sent(net)));
    append_str(&mut t, "  pings sent-back ");
    append_chars(&mut t, &number_of(stack::icmp_replies_received(net)));
    append_str(&mut t, "  answered ");
    append_chars(&mut t, &number_of(stack::icmp_requests_handled(net)));
    append_str(&mut t, "\n");
    append_str(&mut t, "  UDP received ");
    append_chars(&mut t, &number_of(stack::udp_received(net)));
    append_str(&mut t, "  echoed ");
    append_chars(&mut t, &number_of(stack::udp_echoes_sent(net)));
    append_str(&mut t, "  delivered ");
    append_chars(&mut t, &number_of(stack::udp_delivered(net)));
    append_str(&mut t, "\n");
    t
}

/// Whether `entries` are the mappings of an ARP cache, ordered by address.
pub open spec fn lists_cache(cache: Map<u32, Seq<u8>>, entries: Seq<(Seq<u8>, Seq<u8>)>) -> bool {
    &&& entries.len() == cache.dom().len()
    &&& forall|i: int|
        0 <= i < entries.len() ==> cache.contains_key(arp::ip_key((#[trigger] entries[i]).0))
            && cache[arp::ip_key(entries[i].0)] == entries[i].1
    &&& forall|i: int, j: int|
        0 <= i < j < entries.len() ==> arp::ip_key((#[trigger] entries[i]).0) < arp::ip_key(
            (#[trigger] entries[j]).0,
        )
}

/// The lines of the first `n` mappings.
pub open spec fn arp_lines(entries: Seq<(Seq<u8>, Seq<u8>)>, n: int) -> Seq<char>
    decreases n,
{
    if n <= 0 {
        Seq::empty()
    } else {
        arp_lines(entries, n - 1) + "  "@ + dotted(entries[n - 1].0) + "  ->  "@ + coloned(
            entries[n - 1].1,
        ) + "\n"@
    }
}

/// What `arp` prints.
pub open spec fn arp_text(entries: Seq<(Seq<u8>, Seq<u8>)>) -> Seq<char> {
    if entries.len() == 0 {
        "(arp cache empty)\n"@
    } else {
        arp_lines(entries, entries.len() as int)
    }
}

/// Whether `t` is what `arp` prints for a cache.
pub open spec fn shows_cache(cache: Map<u32, Seq<u8>>, t: Seq<char>) -> bool {
    exists|entries: Seq<(Seq<u8>, Seq<u8>)>| #[trigger]
        lists_cache(cache, entries) && t == arp_text(entries)
}

/// What `arp` prints.
pub fn cmd_arp(cache: &ArpCache) -> (t: Vec<char>)
    ensures
        shows_cache(cache@, t@),
{
    let entries: Vec<([u8; 4], [u8; 6])> = cache_entries(cache);
    let ghost views = Seq::new(entries@.len(), |i: int| (entries@[i].0@, entries@[i].1@));
    assert(lists_cache(cache@, views)) by {
        assert forall|i: int| 0 <= i < views.len() implies cache@.contains_key(
            arp::ip_key((#[trigger] views[i]).0),
        ) && cache@[arp::ip_key(views[i].0)] == views[i].1 by {
            assert(views[i] == (entries@[i].0@, entries@[i].1@));
        }
        assert forall|i: int, j: int| 0 <= i < j < views.len() implies arp::ip_key(
            (#[trigger] views[i]).0,
        ) < arp::ip_key((#[trigger] views[j]).0) by {
            assert(views[i] == (entries@[i].0@, entries@[i].1@));
            assert(views[j] == (entries@[j].0@, entries@[j].1@));
        }
    }
    if entries.len() == 0 {
        return chars_of("(arp cache empty)\n");
    }
    let mut t: Vec<char> = Vec::new();
    let mut i: usize = 0;
    while i < entries.len()
        invariant
            i <= entries@.len(),
            views == Seq::new(entries@.len(), |i: int| (entries@[i].0@, entries@[i].1@)),
            t@ == arp_lines(views, i as int),
        decreases entries@.len() - i,
    {
        assert(views[i as int] == (entries@[i as int].0@, entries@[i as int].1@));
        append_str(&mut t, "  ");
        append_chars(&mut t, &dotted_of(entries[i].0));
        append_str(&mut t, "  ->  ");
        append_chars(&mut t, &coloned_of(entries[i].1));
        append_str(&mut t, "\n");
        i = i + 1;
    }
    t
}

/// What `ping` prints before it waits.
pub open spec fn ping_begun_text(ip: Seq<u8>) -> Seq<char> {
    "PING "@ + dotted(ip) + "\n"@
}

/// What `ping` prints before it waits.
pub fn ping_begun(ip: [u8; 4]) -> (t: Vec<char>)
    ensures
        t@ == ping_begun_text(ip@),
{
    let mut t: Vec<char> = chars_of("PING ");
    append_chars(&mut t, &dotted_of(ip));
    append_str(&mut t, "\n");
    t
}

/// What `ping` prints at the end: the number of the request that was answered, or that none was.
pub open spec fn ping_text(ip: Seq<u8>, seq: Option<u16>) -> Seq<char> {
    match seq {
        Some(n) => "  reply from "@ + dotted(ip) + ": icmp_seq="@ + number(n as nat) + "\n"@,
        None => "  no reply from "@ + dotted(ip) + "\n"@,
    }
}

/// What `ping` prints at the end.
pub fn ping_report(ip: [u8; 4], seq: Option<u16>) -> (t: Vec<char>)
    ensures
        t@ == ping_text(ip@, seq),
{
    match seq {
        Some(n) => {
            let mut t: Vec<char> = chars_of("  reply from ");
            append_chars(&mut t, &dotted_of(ip));
            append_str(&mut t, ": icmp_seq=");
            append_chars(&mut t, &number_of(n as u64));
            append_str(&mut t, "\n");
            t
        },
        None => {
            let mut t: Vec<char> = chars_of("  no reply from ");
            append_chars(&mut t, &dotted_of(ip));
            append_str(&mut t, "\n");
            t
        },
    }
}

/// An address, over sequences.
pub open spec fn ip_view(ip: Option<[u8; 4]>) -> Option<Seq<u8>> {
    match ip {
        Some(a) => Some(a@),
        None => None,
    }
}

/// What `nslookup` prints at the end.
pub open spec fn lookup_text(host: Seq<char>, ip: Option<Seq<u8>>) -> Seq<char> {
    match ip {
        Some(a) => "  "@ + host + " has address "@ + dotted(a) + "\n"@,
        None => "  could not resolve "@ + host + "\n"@,
    }
}

/// What `nslookup` prints at the end.
pub fn lookup_report(host: &str, ip: Option<[u8; 4]>) -> (t: Vec<char>)
    ensures
        t@ == lookup_text(host@, ip_view(ip)),
{
    match ip {
        Some(a) => {
            let mut t: Vec<char> = chars_of("  ");
            append_str(&mut t, host);
            append_str(&mut t, " has address ");
            append_chars(&mut t, &dotted_of(a));
            append_str(&mut t, "\n");
            t
        },
        None => {
            let mut t: Vec<char> = chars_of("  could not resolve ");
            append_str(&mut t, host);
            append_str(&mut t, "\n");
            t
        },
    }
}

/// What `nc` prints before it runs.
pub open spec fn netcat_begun_text(ip: Seq<u8>, port: u16) -> Seq<char> {
    "nc: connecting to "@ + dotted(ip) + ":"@ + number(port as nat) + " from ring 3 ...\n"@
}

/// What `nc` prints before it runs.
pub fn netcat_begun(ip: [u8; 4], port: u16) -> (t: Vec<char>)
    ensures
        t@ == netcat_begun_text(ip@, port),
{
    let mut t: Vec<char> = chars_of("nc: connecting to ");
    append_chars(&mut t, &dotted_of(ip));
    append_str(&mut t, ":");
    append_chars(&mut t, &number_of(port as u64));
    append_str(&mut t, " from ring 3 ...\n");
    t
}

/// What `nc` prints at the end.
pub open spec fn netcat_text(ip: Seq<u8>, port: u16, connected: bool) -> Seq<char> {
    if connected {
        "nc: connection closed\n"@
    } else {
        "nc: could not connect to "@ + dotted(ip) + ":"@ + number(port as nat) + "\n"@
    }
}

/// What `nc` prints at the end.
pub fn netcat_report(ip: [u8; 4], port: u16, connected: bool) -> (t: Vec<char>)
    ensures
        t@ == netcat_text(ip@, port, connected),
{
    if connected {
        chars_of("nc: connection closed\n")
    } else {
        let mut t: Vec<char> = chars_of("nc: could not connect to ");
        append_chars(&mut t, &dotted_of(ip));
        append_str(&mut t, ":");
        append_chars(&mut t, &number_of(port as u64));
        append_str(&mut t, "\n");
        t
    }
}

/// An address that is printed can be typed: `ping` and `nc` take it for the same address.
pub proof fn printed_address_is_understood(ip: Seq<u8>)
    requires
        ip.len() == 4,
    ensures
        crate::net::address::spelled(dotted(ip)) == Some(
            seq![ip[0] as nat, ip[1] as nat, ip[2] as nat, ip[3] as nat],
        ),
{
    reveal_strlit(".");
    let (a, b, c, d) = (
        number(ip[0] as nat),
        number(ip[1] as nat),
        number(ip[2] as nat),
        number(ip[3] as nat),
    );
    lemma_number(ip[0] as nat);
    lemma_number(ip[1] as nat);
    lemma_number(ip[2] as nat);
    lemma_number(ip[3] as nat);
    let dot = "."@;
    assert(dot =~= seq!['.']);
    let t = dotted(ip);
    assert(t[0] == a[0]);
    assert(t.last() == d.last());
    assert(text::trimmed(t) == t);
    let e = Seq::<char>::empty();
    assert(text::split(e, '.') =~= seq![e]);
    assert(e + a =~= a);
    lemma_split_digits(e, a);
    lemma_split_dot(a);
    lemma_split_digits(a + dot, b);
    assert(e + b =~= b);
    lemma_split_dot(a + dot + b);
    lemma_split_digits(a + dot + b + dot, c);
    assert(e + c =~= c);
    lemma_split_dot(a + dot + b + dot + c);
    lemma_split_digits(a + dot + b + dot + c + dot, d);
    assert(e + d =~= d);
    let parts = text::split(t, '.');
    assert(text::split(a, '.') =~= seq![a]);
    assert(text::split(a + dot, '.') =~= seq![a, e]);
    assert(text::split(a + dot + b, '.') =~= seq![a, b]);
    assert(text::split(a + dot + b + dot, '.') =~= seq![a, b, e]);
    assert(text::split(a + dot + b + dot + c, '.') =~= seq![a, b, c]);
    assert(text::split(a + dot + b + dot + c + dot, '.') =~= seq![a, b, c, e]);
    assert(parts =~= seq![a, b, c, d]);
}

/// The digits of an octet are digits, and spell it.
proof fn lemma_number(n: nat)
    requires
        n < 256,
    ensures
        crate::net::address::octet(number(n)) == Some(n),
        number(n).len() > 0,
        !number(n).contains('.'),
        !text::is_white(number(n)[0]),
        !text::is_white(number(n).last()),
{
    text::numeral_spells_the_number(n);
    let s = number(n);
    assert(text::is_digit(s[0]));
    assert(text::is_digit(s.last()));
    if s.contains('.') {
        let k = choose|k: int| 0 <= k < s.len() && s[k] == '.';
        assert(text::is_digit(s[k]));
    }
}

/// A dot begins a new part.
proof fn lemma_split_dot(s: Seq<char>)
    ensures
        text::split(s + "."@, '.') == text::split(s, '.').push(Seq::empty()),
{
    reveal_strlit(".");
    assert("."@ =~= seq!['.']);
    assert((s + "."@).drop_last() =~= s);
    assert((s + "."@).last() == '.');
}

/// Characters that are no dots extend the last part.
proof fn lemma_split_digits(s: Seq<char>, w: Seq<char>)
    requires
        !w.contains('.'),
    ensures
        text::split(s + w, '.') == text::split(s, '.').update(
            text::split(s, '.').len() - 1,
            text::split(s, '.').last() + w,
        ),
    decreases w.len(),
{
    text::split_nonempty(s, '.');
    let parts = text::split(s, '.');
    if w.len() == 0 {
        assert(s + w =~= s);
        assert(parts.last() + w =~= parts.last());
        assert(parts.update(parts.len() - 1, parts.last()) =~= parts);
    } else {
        let v = w.drop_last();
        assert(!v.contains('.')) by {
            if v.contains('.') {
                let k = choose|k: int| 0 <= k < v.len() && v[k] == '.';
                assert(w[k] == '.');
            }
        }
        assert(w[w.len() - 1] == w.last());
        lemma_split_digits(s, v);
        assert((s + w).drop_last() =~= s + v);
        let mid = parts.update(parts.len() - 1, parts.last() + v);
        assert(mid.last() == parts.last() + v);
        assert((parts.last() + v).push(w.last()) =~= parts.last() + w);
        assert(mid.update(mid.len() - 1, mid.last().push(w.last())) =~= parts.update(
            parts.len() - 1,
            parts.last() + w,
        ));
    }
}

/// A byte is shown as two hexadecimal digits, the high half first: `0` to `9`, then `a` to `f`.
pub proof fn bytes_are_shown_in_hexadecimal(b: u8)
    ensures
        two_digits(b).len() == 2,
        is_hex(two_digits(b)[0], b as int / 16),
        is_hex(two_digits(b)[1], b as int % 16),
{
    reveal_strlit("0");
    reveal_with_fuel(text::numeral, 3);
}

/// Whether `c` is the hexadecimal digit of `n`.
pub open spec fn is_hex(c: char, n: int) -> bool {
    if n < 10 {
        c as int == 48 + n
    } else {
        c as int == 87 + n
    }
}

/// A hundred ticks are a second.
pub proof fn uptime_is_in_seconds(ticks: u64)
    ensures
        uptime_text(ticks) == "uptime: ~"@ + text::numeral((ticks as int / 100) as nat, 10)
            + " s ("@ + text::numeral(ticks as nat, 10) + " ticks @ ~"@ + text::numeral(100, 10)
            + " Hz)\n"@,
{
}

} // verus!
