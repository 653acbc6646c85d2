//! What the ACPI tables say of the machine's cores, by the bytes that they are made of.

use vstd::prelude::*;

use crate::acpi;
use crate::acpi::{CpuCore, Missing};
use crate::bytes;

verus! {

/// Entries of a table of interrupt controllers, one behind the other.
pub open spec fn entries_bytes(es: Seq<Seq<u8>>) -> Seq<u8>
    decreases es.len(),
{
    if es.len() == 0 {
        Seq::empty()
    } else {
        es[0] + entries_bytes(es.skip(1))
    }
}

/// Whether the second byte of every entry states the entry's length.
pub open spec fn are_entries(es: Seq<Seq<u8>>) -> bool {
    forall|i: int|
        0 <= i < es.len() ==> 2 <= (#[trigger] es[i]).len() <= 255 && es[i][1] == es[i].len()
}

/// Whether no whole entry begins here.
pub open spec fn is_no_entry(tail: Seq<u8>) -> bool {
    tail.len() < 2 || tail[1] < 2 || tail[1] > tail.len()
}

/// Whether an entry is that of a core that is enabled or can be: type 0, with its flags, of which
/// one of the two lowest is set.
pub open spec fn is_core(e: Seq<u8>) -> bool {
    e[0] == 0 && e.len() >= 8 && e[4] % 4 != 0
}

/// The cores of the entries, in order, each with the APIC id in its fourth byte.
pub open spec fn cores_of(es: Seq<Seq<u8>>, bsp: u8) -> Seq<CpuCore>
    decreases es.len(),
{
    if es.len() == 0 {
        Seq::empty()
    } else if is_core(es[0]) {
        seq![CpuCore { apic_id: es[0][3], is_bsp: es[0][3] == bsp }] + cores_of(es.skip(1), bsp)
    } else {
        cores_of(es.skip(1), bsp)
    }
}

/// Every usable core that the table lists is known, in the order of the table, whatever entries
/// of other kinds stand between; the list ends where no whole entry follows.
pub proof fn listed_cores_are_known(head: Seq<u8>, es: Seq<Seq<u8>>, tail: Seq<u8>, bsp: u8)
    requires
        head.len() == 44,
        are_entries(es),
        is_no_entry(tail),
    ensures
        acpi::cores_from(head + entries_bytes(es) + tail, 44, bsp) == cores_of(es, bsp),
{
    let madt = head + entries_bytes(es) + tail;
    assert(madt.skip(44) =~= entries_bytes(es) + tail);
    lemma_listed(madt, 44, es, tail, bsp);
}

proof fn lemma_listed(madt: Seq<u8>, off: int, es: Seq<Seq<u8>>, tail: Seq<u8>, bsp: u8)
    requires
        0 <= off <= madt.len(),
        madt.skip(off) == entries_bytes(es) + tail,
        are_entries(es),
        is_no_entry(tail),
    ensures
        acpi::cores_from(madt, off, bsp) == cores_of(es, bsp),
    decreases es.len(),
{
    let rest = madt.skip(off);
    if es.len() == 0 {
        assert(rest =~= tail);
        if tail.len() >= 2 {
            assert(rest[1] == madt[off + 1]);
        }
    } else {
        let e = es[0];
        let behind = entries_bytes(es.skip(1)) + tail;
        assert(rest =~= e + behind);
        assert(rest[1] == madt[off + 1] && rest[1] == e[1]);
        assert(rest[0] == madt[off] && rest[0] == e[0]);
        let next = off + e.len();
        assert(madt.skip(next) =~= rest.skip(e.len() as int));
        assert(rest.skip(e.len() as int) =~= behind);
        assert forall|i: int| 0 <= i < es.skip(1).len() implies 2 <= (#[trigger] es.skip(
            1,
        )[i]).len() <= 255 && es.skip(1)[i][1] == es.skip(1)[i].len() by {
            assert(es.skip(1)[i] == es[i + 1]);
        }
        lemma_listed(madt, next, es.skip(1), tail, bsp);
        if e.len() >= 8 {
            assert(rest[3] == madt[off + 3] && rest[3] == e[3]);
            assert(rest[4] == madt[off + 4] && rest[4] == e[4]);
            let flags = bytes::le32(madt, off + 4);
            assert(flags % 4 == e[4] % 4);
        }
    }
}

/// The sum of all bytes.
pub open spec fn total(s: Seq<u8>) -> int
    decreases s.len(),
{
    if s.len() == 0 {
        0
    } else {
        s[0] + total(s.skip(1))
    }
}

proof fn lemma_total(s: Seq<u8>, n: int)
    requires
        0 <= n <= s.len(),
    ensures
        acpi::byte_sum(s, n) + total(s.skip(n)) == total(s),
    decreases n,
{
    if n == 0 {
        assert(s.skip(0) =~= s);
    } else {
        lemma_total(s, n - 1);
        assert(s.skip(n - 1).skip(1) =~= s.skip(n));
        assert(s.skip(n - 1)[0] == s[n - 1]);
    }
}

proof fn lemma_sums(s: Seq<u8>)
    ensures
        acpi::sums_to_zero(s) <==> total(s) % 256 == 0,
{
    lemma_total(s, s.len() as int);
    assert(s.skip(s.len() as int) =~= Seq::<u8>::empty());
}

/// Whether a root pointer stands at `a`: its signature, and twenty bytes that sum up to a
/// multiple of 256.
pub open spec fn stands_at(low: Seq<u8>, a: int) -> bool {
    &&& low.subrange(a, a + 8) == seq![82u8, 83u8, 68u8, 32u8, 80u8, 84u8, 82u8, 32u8]
    &&& total(low.subrange(a, a + 20)) % 256 == 0
}

proof fn lemma_stands(low: Seq<u8>, a: int)
    ensures
        acpi::is_rsdp(low, a) <==> stands_at(low, a),
{
    lemma_sums(low.subrange(a, a + 20));
    assert(acpi::rsdp_signature() =~= seq![82u8, 83u8, 68u8, 32u8, 80u8, 84u8, 82u8, 32u8]);
}

/// The place of a root pointer is found step by step.
proof fn lemma_scan(low: Seq<u8>, from: int, end: int, k: int)
    requires
        0 <= k,
        from + 16 * k + 8 <= end,
        0 <= from,
        end <= 0x20_0000,
        stands_at(low, from + 16 * k),
        forall|j: int| 0 <= j < k ==> !#[trigger] stands_at(low, from + 16 * j),
    ensures
        acpi::rsdp_from(low, from, end) == Some((from + 16 * k) as u64),
    decreases k,
{
    lemma_stands(low, from);
    if k > 0 {
        assert(!stands_at(low, from + 16 * 0));
        assert forall|j: int| 0 <= j < k - 1 implies !#[trigger] stands_at(
            low,
            from + 16 + 16 * j,
        ) by {
            assert(from + 16 + 16 * j == from + 16 * (j + 1));
        }
        assert(from + 16 + 16 * (k - 1) == from + 16 * k);
        lemma_scan(low, from + 16, end, k - 1);
    }
}

proof fn lemma_scan_fails(low: Seq<u8>, from: int, end: int)
    requires
        0 <= from,
        forall|j: int|
            0 <= j && from + 16 * j + 8 <= end ==> !#[trigger] stands_at(low, from + 16 * j),
    ensures
        acpi::rsdp_from(low, from, end) is None,
    decreases end - from + 16,
{
    lemma_stands(low, from);
    if from + 8 <= end {
        assert(!stands_at(low, from + 16 * 0));
        assert forall|j: int| 0 <= j && from + 16 + 16 * j + 8 <= end implies !#[trigger] stands_at(
            low,
            from + 16 + 16 * j,
        ) by {
            assert(from + 16 + 16 * j == from + 16 * (j + 1));
        }
        lemma_scan_fails(low, from + 16, end);
    }
}

/// Where the extended BIOS data area starts: at sixteen times the number at 0x40E.
pub open spec fn data_area(low: Seq<u8>) -> int {
    (low[0x40E] + low[0x40F] * 256) * 16
}

/// The first root pointer of the data area's first KiB is taken, on every sixteenth byte.
pub proof fn root_pointer_of_the_data_area_is_taken(low: Seq<u8>, k: int)
    requires
        0 <= k <= 63,
        stands_at(low, data_area(low) + 16 * k),
        forall|j: int| 0 <= j < k ==> !#[trigger] stands_at(low, data_area(low) + 16 * j),
    ensures
        acpi::rsdp_in(low) == Some((data_area(low) + 16 * k) as u64),
{
    lemma_scan(low, data_area(low), data_area(low) + 1024, k);
}

/// With none there, the first in the ROM below 1 MiB is taken, and with none there either, there
/// is none.
pub proof fn root_pointer_of_the_rom_is_taken(low: Seq<u8>, k: int)
    requires
        forall|j: int| 0 <= j <= 63 ==> !#[trigger] stands_at(low, data_area(low) + 16 * j),
    ensures
        0 <= k < 0x2000 && stands_at(low, 0xE_0000 + 16 * k) && (forall|j: int|
            0 <= j < k ==> !#[trigger] stands_at(low, 0xE_0000 + 16 * j)) ==> acpi::rsdp_in(low)
            == Some((0xE_0000 + 16 * k) as u64),
        (forall|j: int| 0 <= j < 0x2000 ==> !#[trigger] stands_at(low, 0xE_0000 + 16 * j))
            ==> acpi::rsdp_in(low) is None,
{
    assert(acpi::rsdp_from(low, data_area(low), data_area(low) + 1024) is None) by {
        assert forall|j: int|
            0 <= j && data_area(low) + 16 * j + 8 <= data_area(low) + 1024 implies !#[trigger] stands_at(
            low,
            data_area(low) + 16 * j,
        ) by {
            assert(j <= 63);
        }
        lemma_scan_fails(low, data_area(low), data_area(low) + 1024);
    }
    if 0 <= k < 0x2000 && stands_at(low, 0xE_0000 + 16 * k) && (forall|j: int|
        0 <= j < k ==> !#[trigger] stands_at(low, 0xE_0000 + 16 * j)) {
        lemma_scan(low, 0xE_0000, 0x10_0000, k);
    }
    if forall|j: int| 0 <= j < 0x2000 ==> !#[trigger] stands_at(low, 0xE_0000 + 16 * j) {
        assert forall|j: int|
            0 <= j && 0xE_0000 + 16 * j + 8 <= 0x10_0000 implies !#[trigger] stands_at(
            low,
            0xE_0000 + 16 * j,
        ) by {
            assert(j < 0x2000);
        }
        lemma_scan_fails(low, 0xE_0000, 0x10_0000);
    }
}

/// Whether the `len` bytes at `phys` have been read and are `data`.
pub open spec fn is_read(parts: Seq<(u64, Seq<u8>)>, phys: u64, len: nat, data: Seq<u8>) -> bool {
    acpi::part(parts, phys, len) == Ok::<Seq<u8>, Missing>(data) && data.len() == len
}

/// Whether `t` is a table that has been read at `phys`: its bytes 4 to 7 state its length, which
/// is at most 64 KiB.
pub open spec fn is_table(parts: Seq<(u64, Seq<u8>)>, phys: u64, t: Seq<u8>) -> bool {
    &&& 36 <= t.len() <= 0x1_0000
    &&& t[4] + t[5] * 0x100 + t[6] * 0x1_0000 + t[7] * 0x100_0000 == t.len()
    &&& is_read(parts, phys, 36, t.subrange(0, 36))
    &&& is_read(parts, phys, t.len(), t)
}

proof fn lemma_table(parts: Seq<(u64, Seq<u8>)>, phys: u64, t: Seq<u8>)
    requires
        is_table(parts, phys, t),
    ensures
        acpi::table_at(parts, phys) == Ok::<Option<Seq<u8>>, Missing>(Some(t)),
{
    let h = t.subrange(0, 36);
    assert(h[4] == t[4] && h[5] == t[5] && h[6] == t[6] && h[7] == t[7]);
    assert(bytes::le32(h, 4) == t.len());
}

/// The number in the eight bytes at `i`, the lowest first.
pub open spec fn number8(s: Seq<u8>, i: int) -> int {
    s[i] + s[i + 1] * 0x100 + s[i + 2] * 0x1_0000 + s[i + 3] * 0x100_0000 + (s[i + 4] + s[i + 5]
        * 0x100 + s[i + 6] * 0x1_0000 + s[i + 7] * 0x100_0000) * 0x1_0000_0000
}

/// The number in the four bytes at `i`, the lowest first.
pub open spec fn number4(s: Seq<u8>, i: int) -> int {
    s[i] + s[i + 1] * 0x100 + s[i + 2] * 0x1_0000 + s[i + 3] * 0x100_0000
}

proof fn lemma_numbers(s: Seq<u8>, i: int)
    ensures
        bytes::le64(s, i) == number8(s, i),
        bytes::le32(s, i) == number4(s, i),
{
}

/// Pointer `j` of a 64-bit root table.
pub open spec fn long_pointer(sdt: Seq<u8>, j: int) -> u64 {
    number8(sdt, 36 + 8 * j) as u64
}

/// Pointer `j` of a 32-bit root table.
pub open spec fn short_pointer(sdt: Seq<u8>, j: int) -> u64 {
    number4(sdt, 36 + 4 * j) as u64
}

/// Whether what stands at `phys` is known not to be the table of interrupt controllers.
pub open spec fn names_another(parts: Seq<(u64, Seq<u8>)>, phys: u64) -> bool {
    exists|sig: Seq<u8>|
        #[trigger] is_read(parts, phys, 4, sig) && sig != seq![65u8, 80u8, 73u8, 67u8]
}

/// A root pointer of revision 2 leads to the table of interrupt controllers by way of the 64-bit
/// root table, if it names one: the table whose signature is `APIC` is the one, wherever it
/// stands in the list, and the core list is taken from there.
pub proof fn controllers_are_found_by_long_pointers(
    parts: Seq<(u64, Seq<u8>)>,
    rsdp: u64,
    root: Seq<u8>,
    sdt: Seq<u8>,
    k: int,
    madt: Seq<u8>,
)
    requires
        is_read(parts, rsdp, 36, root),
        root[15] >= 2,
        number8(root, 24) != 0,
        is_table(parts, number8(root, 24) as u64, sdt),
        total(sdt) % 256 == 0,
        0 <= k,
        36 + 8 * (k + 1) <= sdt.len(),
        forall|j: int| 0 <= j < k ==> names_another(parts, #[trigger] long_pointer(sdt, j)),
        is_read(parts, long_pointer(sdt, k), 4, seq![65u8, 80u8, 73u8, 67u8]),
        is_table(parts, long_pointer(sdt, k), madt),
    ensures
        acpi::madt_at(parts, rsdp) == Ok::<Option<Seq<u8>>, Missing>(Some(madt)),
{
    lemma_numbers(root, 24);
    lemma_table(parts, number8(root, 24) as u64, sdt);
    lemma_sums(sdt);
    lemma_long(parts, sdt, 0, k, madt);
}

proof fn lemma_long(parts: Seq<(u64, Seq<u8>)>, sdt: Seq<u8>, i: int, k: int, madt: Seq<u8>)
    requires
        0 <= i <= k,
        36 + 8 * (k + 1) <= sdt.len(),
        forall|j: int| i <= j < k ==> names_another(parts, #[trigger] long_pointer(sdt, j)),
        is_read(parts, long_pointer(sdt, k), 4, seq![65u8, 80u8, 73u8, 67u8]),
        is_table(parts, long_pointer(sdt, k), madt),
    ensures
        acpi::madt_from(parts, sdt, 8, i) == Ok::<Option<Seq<u8>>, Missing>(Some(madt)),
    decreases k - i,
{
    lemma_numbers(sdt, 36 + 8 * i);
    assert(acpi::pointer(sdt, 8, i) == long_pointer(sdt, i));
    assert((sdt.len() - 36) / 8 >= k + 1);
    assert(acpi::madt_signature() =~= seq![65u8, 80u8, 73u8, 67u8]);
    if i == k {
        lemma_table(parts, long_pointer(sdt, k), madt);
    } else {
        lemma_long(parts, sdt, i + 1, k, madt);
    }
}

/// Without a 64-bit root table, the 32-bit one leads there in the same way.
pub proof fn controllers_are_found_by_short_pointers(
    parts: Seq<(u64, Seq<u8>)>,
    rsdp: u64,
    root: Seq<u8>,
    sdt: Seq<u8>,
    k: int,
    madt: Seq<u8>,
)
    requires
        is_read(parts, rsdp, 36, root),
        root[15] < 2 || number8(root, 24) == 0,
        is_table(parts, number4(root, 16) as u64, sdt),
        total(sdt) % 256 == 0,
        0 <= k,
        36 + 4 * (k + 1) <= sdt.len(),
        forall|j: int| 0 <= j < k ==> names_another(parts, #[trigger] short_pointer(sdt, j)),
        is_read(parts, short_pointer(sdt, k), 4, seq![65u8, 80u8, 73u8, 67u8]),
        is_table(parts, short_pointer(sdt, k), madt),
    ensures
        acpi::madt_at(parts, rsdp) == Ok::<Option<Seq<u8>>, Missing>(Some(madt)),
{
    lemma_numbers(root, 24);
    lemma_numbers(root, 16);
    lemma_table(parts, number4(root, 16) as u64, sdt);
    lemma_sums(sdt);
    lemma_short(parts, sdt, 0, k, madt);
}

proof fn lemma_short(parts: Seq<(u64, Seq<u8>)>, sdt: Seq<u8>, i: int, k: int, madt: Seq<u8>)
    requires
        0 <= i <= k,
        36 + 4 * (k + 1) <= sdt.len(),
        forall|j: int| i <= j < k ==> names_another(parts, #[trigger] short_pointer(sdt, j)),
        is_read(parts, short_pointer(sdt, k), 4, seq![65u8, 80u8, 73u8, 67u8]),
        is_table(parts, short_pointer(sdt, k), madt),
    ensures
        acpi::madt_from(parts, sdt, 4, i) == Ok::<Option<Seq<u8>>, Missing>(Some(madt)),
    decreases k - i,
{
    lemma_numbers(sdt, 36 + 4 * i);
    assert(acpi::pointer(sdt, 4, i) == short_pointer(sdt, i));
    assert((sdt.len() - 36) / 4 >= k + 1);
    assert(acpi::madt_signature() =~= seq![65u8, 80u8, 73u8, 67u8]);
    if i == k {
        lemma_table(parts, short_pointer(sdt, k), madt);
    } else {
        lemma_short(parts, sdt, i + 1, k, madt);
    }
}

/// Discovery knows the cores of the table, and only the one that asks where the table lists none
/// or there is no root pointer.
pub proof fn discovery_takes_the_listed_cores(
    low: Seq<u8>,
    parts: Seq<(u64, Seq<u8>)>,
    bsp: u8,
    rsdp: u64,
    head: Seq<u8>,
    es: Seq<Seq<u8>>,
)
    requires
        head.len() == 44,
        are_entries(es),
    ensures
        acpi::rsdp_in(low) == Some(rsdp) && acpi::madt_at(parts, rsdp) == Ok::<
            Option<Seq<u8>>,
            Missing,
        >(Some(head + entries_bytes(es))) ==> acpi::discovered(low, parts, bsp) == Ok::<
            Seq<CpuCore>,
            Missing,
        >(
            if cores_of(es, bsp).len() > 0 {
                cores_of(es, bsp)
            } else {
                seq![CpuCore { apic_id: bsp, is_bsp: true }]
            },
        ),
        acpi::rsdp_in(low) is None ==> acpi::discovered(low, parts, bsp) == Ok::<
            Seq<CpuCore>,
            Missing,
        >(seq![CpuCore { apic_id: bsp, is_bsp: true }]),
{
    listed_cores_are_known(head, es, Seq::empty(), bsp);
    assert(head + entries_bytes(es) + Seq::<u8>::empty() =~= head + entries_bytes(es));
}

/// The core that was running at power-on is told, and the others are all the rest in their order.
pub proof fn other_cores_are_the_rest(cores: Seq<CpuCore>, i: int)
    requires
        0 <= i < cores.len(),
        cores[i].is_bsp,
        forall|j: int| 0 <= j < cores.len() && j != i ==> !(#[trigger] cores[j]).is_bsp,
    ensures
        acpi::bsp_from(cores, 0) == cores[i].apic_id,
        cores.filter(acpi::is_ap()) == cores.subrange(0, i) + cores.subrange(
            i + 1,
            cores.len() as int,
        ),
{
    lemma_bsp(cores, 0, i);
    let a = cores.subrange(0, i);
    let b = seq![cores[i]];
    let c = cores.subrange(i + 1, cores.len() as int);
    assert(cores =~= a + b + c);
    Seq::filter_distributes_over_add(a + b, c, acpi::is_ap());
    Seq::filter_distributes_over_add(a, b, acpi::is_ap());
    lemma_all_aps(a);
    lemma_all_aps(c);
    reveal(Seq::filter);
    assert(b.drop_last() =~= Seq::<CpuCore>::empty());
    assert(b.drop_last().filter(acpi::is_ap()) =~= Seq::<CpuCore>::empty());
    assert(!acpi::is_ap()(b.last()));
    assert(b.filter(acpi::is_ap()) =~= Seq::<CpuCore>::empty());
    assert(a + Seq::<CpuCore>::empty() =~= a);
}

proof fn lemma_all_aps(s: Seq<CpuCore>)
    requires
        forall|j: int| 0 <= j < s.len() ==> !(#[trigger] s[j]).is_bsp,
    ensures
        s.filter(acpi::is_ap()) == s,
    decreases s.len(),
{
    reveal(Seq::filter);
    if s.len() > 0 {
        lemma_all_aps(s.drop_last());
        assert(!s[s.len() - 1].is_bsp);
        assert(s.drop_last().push(s.last()) =~= s);
    }
}

proof fn lemma_bsp(cores: Seq<CpuCore>, k: int, i: int)
    requires
        0 <= k <= i < cores.len(),
        cores[i].is_bsp,
        forall|j: int| 0 <= j < cores.len() && j != i ==> !(#[trigger] cores[j]).is_bsp,
    ensures
        acpi::bsp_from(cores, k) == cores[i].apic_id,
    decreases i - k,
{
    if k < i {
        assert(!cores[k].is_bsp);
        lemma_bsp(cores, k + 1, i);
    }
}

} // verus!
