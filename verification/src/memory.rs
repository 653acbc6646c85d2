//! Physical frames, page tables and stacks, as far as they are arithmetic on addresses and
//! entries.

use vstd::prelude::*;
use x86_64::structures::paging::{Page, Size4KiB};
use x86_64::VirtAddr;

verus! {

/// The size of a page and of a frame.
pub const PAGE_SIZE: u64 = 4096;

/// The entries of a page table.
pub const PAGE_TABLE_ENTRIES: usize = 512;

/// Entry bit: the entry maps something.
pub const ENTRY_PRESENT: u64 = 1;

/// Entry bit: the entry maps a large page instead of naming a table.
pub const ENTRY_HUGE_PAGE: u64 = 0x80;

/// The first address behind the lower half.
pub const LOWER_END: u64 = 0x8000_0000_0000;

/// The first address that is not 48 bits long.
pub const ADDRESS_END: u64 = 0x1_0000_0000_0000;

/// The first address of the upper half.
pub const UPPER_START: u64 = 0xFFFF_8000_0000_0000;

/// Whether `a` is a virtual address: 48 bits, or already extended from bit 47.
pub open spec fn is_address(a: u64) -> bool {
    a < ADDRESS_END || a >= UPPER_START
}

/// `a` extended from bit 47.
pub open spec fn extended(a: u64) -> u64 {
    if LOWER_END <= a < ADDRESS_END {
        (a + 0xFFFF_0000_0000_0000) as u64
    } else {
        a
    }
}

/// The start of the page with address `a`.
pub open spec fn page_of(a: u64) -> u64 {
    (extended(a) - extended(a) % 4096) as u64
}

/// `x86_64::VirtAddr::new` makes an address canonical: it takes an address of 48 bits, which it
/// extends from bit 47, or one that is extended already. It panics on any other number.
#[verifier::external_body]
pub(crate) fn virtual_address(a: u64) -> (r: u64)
    requires
        is_address(a),
    ensures
        r == extended(a),
{
    VirtAddr::new(a).as_u64()
}

/// `x86_64::structures::paging::Page::containing_address` gives the page of 4 KiB with an
/// address; its start is the address, made canonical, rounded down.
#[verifier::external_body]
pub(crate) fn page_base(a: u64) -> (r: u64)
    requires
        is_address(a),
    ensures
        r == page_of(a),
{
    Page::<Size4KiB>::containing_address(VirtAddr::new(a)).start_address().as_u64()
}

/// The page that holds an address, if it is one.
pub fn page_containing(a: u64) -> (r: Option<u64>)
    ensures
        match r {
            Some(p) => is_address(a) && p == page_of(a),
            None => !is_address(a),
        },
{
    if a < ADDRESS_END || a >= UPPER_START {
        Some(page_base(a))
    } else {
        None
    }
}

/// A page starts at a multiple of its size at or before every address in it.
pub proof fn page_holds_its_address(a: u64)
    requires
        is_address(a),
    ensures
        page_of(a) % 4096 == 0,
        page_of(a) <= extended(a) < page_of(a) + 4096,
        is_address(page_of(a)),
        extended(page_of(a)) == page_of(a),
{
}

// Physical frames.

/// A region of physical memory, from frame `start` up to frame `end`.
#[derive(Debug, Clone, Copy, PartialEq, Eq, Structural)]
pub struct Region {
    pub start: u64,
    pub end: u64,
    pub usable: bool,
}

/// How many frames of a region can be handed out.
pub open spec fn usable_in(r: Region) -> int {
    if r.usable && r.start < r.end {
        r.end - r.start
    } else {
        0
    }
}

/// The number of usable frame `k`, counting through the regions in order.
pub open spec fn nth_usable(regions: Seq<Region>, k: int) -> Option<u64>
    decreases regions.len(),
{
    if regions.len() == 0 {
        None
    } else if k < usable_in(regions[0]) {
        Some((regions[0].start + k) as u64)
    } else {
        nth_usable(regions.drop_first(), k - usable_in(regions[0]))
    }
}

/// The address of frame `n`.
pub open spec fn frame_address(n: Option<u64>) -> Option<u64> {
    match n {
        Some(n) => Some((n * 4096) as u64),
        None => None,
    }
}

/// What asking for a frame does, once `k` have been asked for: how many have been then, and the
/// frame's address, if there is one.
pub open spec fn handing_out(regions: Seq<Region>, k: u64) -> (u64, Option<u64>) {
    (
        if k < u64::MAX {
            (k + 1) as u64
        } else {
            u64::MAX
        },
        frame_address(nth_usable(regions, k as int)),
    )
}

/// A frame allocator that hands out the usable frames of the memory map one after the other and
/// never takes one back.
pub struct BootInfoFrameAllocator {
    regions: Vec<Region>,
    next: u64,
}

impl BootInfoFrameAllocator {
    /// The memory map.
    pub closed spec fn map(&self) -> Seq<Region> {
        self.regions@
    }

    /// How many frames have been asked for.
    pub closed spec fn asked(&self) -> u64 {
        self.next
    }

    /// Every frame has an address of at most 52 bits.
    pub open spec fn ok(&self) -> bool {
        forall|i: int|
            0 <= i < self.map().len() ==> (#[trigger] self.map()[i]).end <= 0x100_0000_0000
    }

    /// An allocator over a memory map.
    pub fn init(regions: Vec<Region>) -> (a: BootInfoFrameAllocator)
        ensures
            a.map() == regions@,
            a.asked() == 0,
    {
        BootInfoFrameAllocator { regions, next: 0 }
    }

    /// Hands out the next usable frame; `None` when all have been.
    pub fn allocate_frame(&mut self) -> (frame: Option<u64>)
        requires
            old(self).ok(),
        ensures
            final(self).ok(),
            final(self).map() == old(self).map(),
            (final(self).asked(), frame) == handing_out(old(self).map(), old(self).asked()),
            frame == frame_address(nth_usable(old(self).map(), old(self).asked() as int)),
            final(self).asked() == if old(self).asked() < u64::MAX {
                (old(self).asked() + 1) as u64
            } else {
                u64::MAX
            },
    {
        let k: u64 = self.next;
        if self.next < u64::MAX {
            self.next = self.next + 1;
        }
        match find_usable(&self.regions, k) {
            Some(n) => Some(n * PAGE_SIZE),
            None => None,
        }
    }
}

/// The number of usable frame `k`.
fn find_usable(regions: &Vec<Region>, k: u64) -> (n: Option<u64>)
    requires
        forall|i: int| 0 <= i < regions@.len() ==> (#[trigger] regions@[i]).end <= 0x100_0000_0000,
    ensures
        n == nth_usable(regions@, k as int),
        n matches Some(f) ==> f < 0x100_0000_0000,
{
    let ghost all = regions@;
    let mut left: u64 = k;
    let mut i: usize = 0;
    assert(all.skip(0) =~= all);
    while i < regions.len()
        invariant
            all == regions@,
            forall|i: int|
                0 <= i < regions@.len() ==> (#[trigger] regions@[i]).end <= 0x100_0000_0000,
            i <= all.len(),
            nth_usable(all, k as int) == nth_usable(all.skip(i as int), left as int),
        decreases all.len() - i,
    {
        let r: Region = regions[i];
        assert(all.skip(i as int)[0] == r);
        assert(all.skip(i as int).drop_first() =~= all.skip(i + 1));
        if r.usable && r.start < r.end {
            let n: u64 = r.end - r.start;
            if left < n {
                return Some(r.start + left);
            }
            left = left - n;
        }
        i = i + 1;
    }
    None
}

/// A frame that is handed out lies in a usable region.
pub proof fn frames_are_usable(regions: Seq<Region>, k: int) -> (i: int)
    requires
        0 <= k,
        nth_usable(regions, k) is Some,
    ensures
        0 <= i < regions.len(),
        regions[i].usable,
        regions[i].start <= nth_usable(regions, k).unwrap() < regions[i].end,
    decreases regions.len(),
{
    if k < usable_in(regions[0]) {
        0
    } else {
        let rest = regions.drop_first();
        let j = frames_are_usable(rest, k - usable_in(regions[0]));
        assert(rest[j] == regions[j + 1]);
        j + 1
    }
}

/// The usable regions share no frame.
pub open spec fn disjoint(regions: Seq<Region>) -> bool {
    forall|i: int, j: int|
        #![trigger regions[i], regions[j]]
        0 <= i < j < regions.len() && regions[i].usable && regions[j].usable ==> regions[i].end
            <= regions[j].start || regions[j].end <= regions[i].start
}

/// No frame is handed out twice, as long as the usable regions share none.
pub proof fn frames_are_handed_out_once(regions: Seq<Region>, k1: int, k2: int)
    requires
        disjoint(regions),
        0 <= k1 < k2,
        nth_usable(regions, k1) is Some,
        nth_usable(regions, k2) is Some,
    ensures
        nth_usable(regions, k1) != nth_usable(regions, k2),
    decreases regions.len(),
{
    let n = usable_in(regions[0]);
    let rest = regions.drop_first();
    if k2 < n {
    } else if k1 < n {
        let j = frames_are_usable(rest, k2 - n);
        assert(rest[j] == regions[j + 1]);
    } else {
        assert forall|i: int, j: int|
            #![trigger rest[i], rest[j]]
            0 <= i < j < rest.len() && rest[i].usable && rest[j].usable implies rest[i].end
            <= rest[j].start || rest[j].end <= rest[i].start by {
            assert(rest[i] == regions[i + 1] && rest[j] == regions[j + 1]);
        }
        frames_are_handed_out_once(rest, k1 - n, k2 - n);
    }
}

// Page tables.

/// Whether an entry maps something.
pub open spec fn present(entry: u64) -> bool {
    entry & ENTRY_PRESENT != 0
}

/// Whether an entry maps a large page.
pub open spec fn huge(entry: u64) -> bool {
    entry & ENTRY_HUGE_PAGE != 0
}

/// The physical address that an entry holds, in its bits 12 to 51.
pub open spec fn entry_address(entry: u64) -> u64 {
    ((entry % 0x10_0000_0000_0000) / 4096 * 4096) as u64
}

/// The index of an address in the table `level` steps below the top.
pub open spec fn table_index(va: u64, level: int) -> u64 {
    if level == 0 {
        va / 0x80_0000_0000 % 512
    } else if level == 1 {
        va / 0x4000_0000 % 512
    } else if level == 2 {
        va / 0x20_0000 % 512
    } else {
        va / 0x1000 % 512
    }
}

/// The index of an address in the table `level` steps below the top.
fn index_at(va: u64, level: u8) -> (i: u64)
    ensures
        i == table_index(va, level as int),
        i < 512,
{
    if level == 0 {
        va / 0x80_0000_0000 % 512
    } else if level == 1 {
        va / 0x4000_0000 % 512
    } else if level == 2 {
        va / 0x20_0000 % 512
    } else {
        va / 0x1000 % 512
    }
}

/// A walk through the page tables towards the leaf entry of an address.
#[derive(Debug, Clone, Copy, PartialEq, Eq, Structural)]
pub struct Walk {
    pub va: u64,
    /// How many tables lie above the current one.
    pub level: u8,
    /// The physical address of the current table.
    pub table: u64,
}

/// What a walk does next.
#[derive(Debug, Clone, Copy, PartialEq, Eq, Structural)]
pub enum WalkStep {
    /// Read the entry at this physical address and go on with it.
    Read(u64),
    /// The leaf entry is at this physical address.
    Leaf(u64),
    /// The address has no leaf entry.
    Missing,
}

/// The physical address of the entry that a walk looks at.
pub open spec fn entry_place(w: Walk) -> u64 {
    (w.table + table_index(w.va, w.level as int) * 8) as u64
}

/// What a walk does where it stands: three tables are read through, and the fourth holds the
/// leaf.
pub open spec fn walk_here(w: Walk) -> WalkStep {
    if w.level < 3 {
        WalkStep::Read(entry_place(w))
    } else {
        WalkStep::Leaf(entry_place(w))
    }
}

/// A walk from the top table.
pub open spec fn walk_from(l4: u64, va: u64) -> Walk {
    Walk { va, level: 0, table: l4 }
}

/// What a walk does with the entry that it has read.
pub open spec fn walked(w: Walk, entry: u64) -> (Walk, WalkStep) {
    if !present(entry) || huge(entry) {
        (w, WalkStep::Missing)
    } else {
        let next = Walk { level: (w.level + 1) as u8, table: entry_address(entry), ..w };
        (next, walk_here(next))
    }
}

impl Walk {
    /// What holds of a walk: tables are frames of physical memory.
    pub open spec fn ok(&self) -> bool {
        self.level <= 3 && self.table < 0x10_0000_0000_0000
    }

    /// Starts a walk from the top table at `l4`.
    pub fn start(l4: u64, va: u64) -> (r: (Walk, WalkStep))
        requires
            l4 < 0x10_0000_0000_0000,
        ensures
            r.0.ok(),
            r == (walk_from(l4, va), walk_here(walk_from(l4, va))),
    {
        let w = Walk { va, level: 0, table: l4 };
        (w, WalkStep::Read(l4 + index_at(va, 0) * 8))
    }

    /// Goes on with the entry just read.
    pub fn step(&mut self, entry: u64) -> (s: WalkStep)
        requires
            old(self).ok(),
            old(self).level < 3,
        ensures
            final(self).ok(),
            (*final(self), s) == walked(*old(self), entry),
    {
        if entry & ENTRY_PRESENT == 0 || entry & ENTRY_HUGE_PAGE != 0 {
            return WalkStep::Missing;
        }
        self.level = self.level + 1;
        self.table = (entry % 0x10_0000_0000_0000) / 4096 * 4096;
        let place: u64 = self.table + index_at(self.va, self.level) * 8;
        if self.level < 3 {
            WalkStep::Read(place)
        } else {
            WalkStep::Leaf(place)
        }
    }
}

/// `entry` with its present bit set or cleared and every other bit kept.
pub open spec fn with_present(entry: u64, on: bool) -> u64 {
    if on {
        (entry / 2 * 2 + 1) as u64
    } else {
        (entry / 2 * 2) as u64
    }
}

/// Sets or clears the present bit of a leaf entry.
pub fn set_entry_present(entry: u64, on: bool) -> (e: u64)
    ensures
        e == with_present(entry, on),
        present(e) == on,
{
    let even: u64 = entry / 2 * 2;
    let e: u64 = if on {
        even + 1
    } else {
        even
    };
    assert((e & 1 != 0) == (e % 2 == 1)) by (bit_vector);
    e
}

/// Whether a leaf entry, if there is one, maps its page.
pub fn page_is_present(leaf: Option<u64>) -> (yes: bool)
    ensures
        yes == (leaf matches Some(e) && present(e)),
{
    match leaf {
        Some(e) => e & ENTRY_PRESENT != 0,
        None => false,
    }
}

/// Restoring the present bit undoes clearing it, on an entry that had it.
pub proof fn guard_is_restored(entry: u64)
    requires
        present(entry),
    ensures
        !present(with_present(entry, false)),
        with_present(with_present(entry, false), true) == entry,
        entry_address(with_present(entry, false)) == entry_address(entry),
{
    assert((entry & 1 != 0) == (entry % 2 == 1)) by (bit_vector);
    let e = with_present(entry, false);
    assert((e & 1 != 0) == (e % 2 == 1)) by (bit_vector);
}

/// The top table of a new address space: the present entries of the kernel's, and nothing else.
pub open spec fn cloned(src: Seq<u64>) -> Seq<u64> {
    Seq::new(
        src.len(),
        |i: int|
            if present(src[i]) {
                src[i]
            } else {
                0u64
            },
    )
}

/// Copies the present entries of a table.
fn copy_present(src: &Vec<u64>) -> (dst: Vec<u64>)
    ensures
        dst@ == cloned(src@),
{
    let mut dst: Vec<u64> = Vec::new();
    let mut i: usize = 0;
    while i < src.len()
        invariant
            i <= src@.len(),
            dst@ =~= cloned(src@).take(i as int),
        decreases src@.len() - i,
    {
        if src[i] & ENTRY_PRESENT != 0 {
            dst.push(src[i]);
        } else {
            dst.push(0);
        }
        i = i + 1;
    }
    assert(dst@ =~= cloned(src@));
    dst
}

/// An address space: the frame of its top table.
#[derive(Debug, Clone, Copy, PartialEq, Eq, Structural)]
pub struct AddressSpace {
    pub l4: u64,
}

impl AddressSpace {
    /// An address space that maps what the kernel maps, in the frame handed out for it, with
    /// the contents of its top table; `None` if there was no frame.
    pub fn new_cloning_kernel(frame: Option<u64>, kernel: &Vec<u64>) -> (r: Option<
        (AddressSpace, Vec<u64>),
    >)
        ensures
            match r {
                Some((space, table)) => frame == Some(space.l4) && table@ == cloned(kernel@),
                None => frame is None,
            },
    {
        match frame {
            Some(l4) => Some((AddressSpace { l4 }, copy_present(kernel))),
            None => None,
        }
    }

    /// The frame of the top table.
    pub fn l4_frame(&self) -> (l4: u64)
        ensures
            l4 == self.l4,
    {
        self.l4
    }
}

/// An address space made by cloning maps exactly what the kernel maps: its present entries are
/// the kernel's.
pub proof fn clone_maps_the_kernel(src: Seq<u64>, i: int)
    requires
        0 <= i < src.len(),
    ensures
        present(cloned(src)[i]) == present(src[i]),
        present(src[i]) ==> cloned(src)[i] == src[i],
        cloned(cloned(src)) == cloned(src),
{
    assert(!present(0u64)) by {
        assert(0u64 & 1u64 == 0u64) by (bit_vector);
    }
    assert(cloned(cloned(src)) =~= cloned(src));
}

/// The indices below `n` of present entries, in order.
pub open spec fn present_before(table: Seq<u64>, n: int) -> Seq<usize>
    decreases n,
{
    if n <= 0 {
        Seq::empty()
    } else if present(table[n - 1]) {
        present_before(table, n - 1).push((n - 1) as usize)
    } else {
        present_before(table, n - 1)
    }
}

/// The indices of the present entries.
pub fn present_slots(table: &Vec<u64>) -> (slots: Vec<usize>)
    ensures
        slots@ == present_before(table@, table@.len() as int),
{
    let mut slots: Vec<usize> = Vec::new();
    let mut i: usize = 0;
    while i < table.len()
        invariant
            i <= table@.len(),
            slots@ == present_before(table@, i as int),
        decreases table@.len() - i,
    {
        if table[i] & ENTRY_PRESENT != 0 {
            slots.push(i);
        }
        i = i + 1;
    }
    slots
}

/// Whether every index lies in the lower half of the address space.
pub fn all_in_lower_half(slots: &Vec<usize>) -> (yes: bool)
    ensures
        yes == (forall|i: int| 0 <= i < slots@.len() ==> slots@[i] < 256),
{
    let mut i: usize = 0;
    while i < slots.len()
        invariant
            i <= slots@.len(),
            forall|j: int| 0 <= j < i ==> slots@[j] < 256,
        decreases slots@.len() - i,
    {
        if slots[i] >= 256 {
            return false;
        }
        i = i + 1;
    }
    true
}

/// What the checks at boot found.
#[derive(Debug, Clone, Copy, PartialEq, Eq, Structural)]
pub struct Checks {
    pub guard_page: bool,
    pub address_space_clone: bool,
}

impl Checks {
    /// Nothing checked yet.
    pub fn new() -> (c: Checks)
        ensures
            c == (Checks { guard_page: false, address_space_clone: false }),
    {
        Checks { guard_page: false, address_space_clone: false }
    }
}

/// Judges a switch to a new address space and back: the new space must have been active in
/// between, the kernel must have worked there, and its own space must be active again.
pub fn demo_clone_kernel_space(
    checks: &mut Checks,
    clone: AddressSpace,
    active_on_clone: u64,
    probe_ok: bool,
    kernel: u64,
    active_after: u64,
)
    ensures
        *final(checks) == (Checks {
            address_space_clone: active_on_clone == clone.l4 && probe_ok && active_after == kernel,
            ..*old(checks)
        }),
{
    checks.address_space_clone = active_on_clone == clone.l4 && probe_ok && active_after == kernel;
}

/// Whether the switch to a new address space and back went as it should.
pub fn address_space_clone_ok(checks: &Checks) -> (ok: bool)
    ensures
        ok == checks.address_space_clone,
{
    checks.address_space_clone
}

/// Whether the page at `phys` still has to be mapped to itself, given what it translates to.
pub fn needs_identity_mapping(phys: u64, translated: Option<u64>) -> (yes: bool)
    ensures
        yes == (translated != Some(phys)),
{
    match translated {
        Some(t) => t != phys,
        None => true,
    }
}

// Stacks.

/// A stack with an unmapped page below it, so that running off its end faults.
#[derive(Debug, Clone, Copy, PartialEq, Eq, Structural)]
pub struct GuardedStack {
    base: u64,
    usable_size: u64,
}

impl GuardedStack {
    /// The address of the guard page.
    pub closed spec fn start(&self) -> u64 {
        self.base
    }

    /// The size of the stack above it.
    pub closed spec fn size(&self) -> u64 {
        self.usable_size
    }

    /// What holds of every such stack: it consists of whole pages within the address space.
    pub open spec fn ok(&self) -> bool {
        &&& self.start() % 4096 == 0
        &&& self.size() > 0
        &&& self.size() % 4096 == 0
        &&& self.start() + 4096 + self.size() <= u64::MAX
    }

    /// How much memory a stack with `usable_size` bytes takes, the guard page included.
    pub fn total_size(usable_size: u64) -> (total: u64)
        requires
            usable_size > 0,
            usable_size % 4096 == 0,
            usable_size + 4096 <= u64::MAX,
        ensures
            total == usable_size + 4096,
    {
        usable_size + PAGE_SIZE
    }

    /// The stack in the memory at `base`.
    pub fn new(base: u64, usable_size: u64) -> (s: GuardedStack)
        requires
            base % 4096 == 0,
            usable_size > 0,
            usable_size % 4096 == 0,
            base + 4096 + usable_size <= u64::MAX,
        ensures
            s.ok(),
            s.start() == base,
            s.size() == usable_size,
    {
        GuardedStack { base, usable_size }
    }

    /// The address of the guard page.
    pub fn guard_page(&self) -> (a: u64)
        ensures
            a == self.start(),
    {
        self.base
    }

    /// The lowest usable address.
    pub fn usable_bottom(&self) -> (a: u64)
        requires
            self.ok(),
        ensures
            a == self.start() + 4096,
    {
        self.base + PAGE_SIZE
    }

    /// The address behind the highest usable one, where the stack pointer starts.
    pub fn usable_top(&self) -> (a: u64)
        requires
            self.ok(),
        ensures
            a == self.start() + 4096 + self.size(),
    {
        self.base + PAGE_SIZE + self.usable_size
    }
}

/// The first byte below the usable part of a stack lies in its guard page, and no usable byte
/// does.
pub proof fn overflow_hits_the_guard(s: GuardedStack, a: int)
    requires
        s.ok(),
    ensures
        s.start() <= s.start() + 4096 - 1 < s.start() + 4096,
        s.start() + 4096 <= a < s.start() + 4096 + s.size() ==> !(s.start() <= a < s.start() + 4096),
{
}

/// Judges a guarded stack: its guard page must not be mapped, its stack must be, and the guard
/// page must be mapped again once the stack is gone.
pub fn demo_guard_page(
    checks: &mut Checks,
    guard_present: bool,
    usable_present: bool,
    restored: bool,
)
    ensures
        *final(checks) == (Checks {
            guard_page: !guard_present && usable_present && restored,
            ..*old(checks)
        }),
{
    checks.guard_page = !guard_present && usable_present && restored;
}

/// Whether the guarded stack behaved.
pub fn guard_page_ok(checks: &Checks) -> (ok: bool)
    ensures
        ok == checks.guard_page,
{
    checks.guard_page
}

/// How many frames the regions have to give.
pub open spec fn frames_to_give(regions: Seq<Region>) -> int
    decreases regions.len(),
{
    if regions.len() == 0 {
        0
    } else if regions[0].usable && regions[0].start < regions[0].end {
        regions[0].end - regions[0].start + frames_to_give(regions.skip(1))
    } else {
        frames_to_give(regions.skip(1))
    }
}

/// Every usable frame is handed out: it has its turn.
pub proof fn every_usable_frame_has_its_turn(regions: Seq<Region>, i: int, frame: u64) -> (k: int)
    requires
        0 <= i < regions.len(),
        regions[i].usable,
        regions[i].start <= frame < regions[i].end,
    ensures
        0 <= k < frames_to_give(regions),
        nth_usable(regions, k) == Some(frame),
        frame + 1 < regions[i].end ==> nth_usable(regions, k + 1) == Some((frame + 1) as u64),
    decreases regions.len(),
{
    lemma_frames_to_give(regions.skip(1));
    assert(regions.drop_first() =~= regions.skip(1));
    if i == 0 {
        frame - regions[0].start
    } else {
        assert(regions.skip(1)[i - 1] == regions[i]);
        let j = every_usable_frame_has_its_turn(regions.skip(1), i - 1, frame);
        j + usable_in(regions[0])
    }
}

/// Nothing is owed.
proof fn lemma_frames_to_give(regions: Seq<Region>)
    ensures
        frames_to_give(regions) >= 0,
    decreases regions.len(),
{
    if regions.len() > 0 {
        lemma_frames_to_give(regions.skip(1));
    }
}

/// Frames are there until as many have been asked for as the regions have, and none after.
pub proof fn frames_run_out(regions: Seq<Region>, k: int)
    requires
        0 <= k,
    ensures
        nth_usable(regions, k) is Some <==> k < frames_to_give(regions),
        frame_address(nth_usable(regions, k)) is Some <==> k < frames_to_give(regions),
    decreases regions.len(),
{
    if regions.len() > 0 {
        assert(regions.drop_first() =~= regions.skip(1));
        lemma_frames_to_give(regions.skip(1));
        let n = usable_in(regions[0]);
        if k >= n {
            frames_run_out(regions.skip(1), k - n);
        }
    }
}

/// A frame begins at its number times 4096.
pub proof fn frames_are_pages_apart(regions: Seq<Region>, k: int)
    requires
        nth_usable(regions, k) is Some,
        nth_usable(regions, k).unwrap() < 0x100_0000_0000,
    ensures
        frame_address(nth_usable(regions, k)) == Some(
            (4096 * nth_usable(regions, k).unwrap()) as u64,
        ),
{
}

/// The entries that a walk for an address passes are those that the address numbers, nine bits
/// for each table: with the tables of the entries that were read, the leaf is at the last of
/// them.
pub proof fn walk_follows_the_address(
    l4: u64,
    i4: u64,
    i3: u64,
    i2: u64,
    i1: u64,
    offset: u64,
    e4: u64,
    e3: u64,
    e2: u64,
)
    requires
        i4 < 512,
        i3 < 512,
        i2 < 512,
        i1 < 512,
        offset < 4096,
        l4 < 0x10_0000_0000_0000,
        present(e4) && !huge(e4),
        present(e3) && !huge(e3),
        present(e2) && !huge(e2),
    ensures
        ({
            let va = (i4 * 0x80_0000_0000 + i3 * 0x4000_0000 + i2 * 0x20_0000 + i1 * 0x1000
                + offset) as u64;
            let w4 = walk_from(l4, va);
            let (w3, s3) = walked(w4, e4);
            let (w2, s2) = walked(w3, e3);
            let (w1, s1) = walked(w2, e2);
            &&& walk_here(w4) == WalkStep::Read((l4 + 8 * i4) as u64)
            &&& s3 == WalkStep::Read((entry_address(e4) + 8 * i3) as u64)
            &&& s2 == WalkStep::Read((entry_address(e3) + 8 * i2) as u64)
            &&& s1 == WalkStep::Leaf((entry_address(e2) + 8 * i1) as u64)
        }),
{
    let va = i4 * 0x80_0000_0000 + i3 * 0x4000_0000 + i2 * 0x20_0000 + i1 * 0x1000 + offset;
    assert(va / 0x80_0000_0000 == i4);
    assert(va / 0x4000_0000 == i4 * 512 + i3);
    assert(va / 0x20_0000 == (i4 * 512 + i3) * 512 + i2);
    assert(va / 0x1000 == ((i4 * 512 + i3) * 512 + i2) * 512 + i1);
}

/// A walk ends without a leaf at the first entry that maps nothing, or maps a large page.
pub proof fn walk_ends_at_a_missing_table(w: Walk, entry: u64)
    requires
        !present(entry) || huge(entry),
    ensures
        walked(w, entry) == (w, WalkStep::Missing),
{
}

/// The address of an entry is that of a frame: the twelve bits below it and the twelve above do
/// not count.
pub proof fn entry_address_is_a_frame(entry: u64, low: u64, high: u64, frame: u64)
    requires
        low < 4096,
        high < 4096,
        frame < 0x100_0000_0000,
        entry == high * 0x10_0000_0000_0000 + frame * 4096 + low,
    ensures
        entry_address(entry) == frame * 4096,
{
}

/// The slots of a table are told in order: all those whose entry is present, and no other.
pub proof fn present_slots_are_told(table: Seq<u64>, n: int, i: int)
    requires
        0 <= i < n <= table.len(),
        table.len() <= usize::MAX,
    ensures
        present_before(table, n).contains(i as usize) <==> present(table[i]),
        forall|j: int| 0 <= j < present_before(table, n).len() ==> #[trigger] present_before(
            table,
            n,
        )[j] < n,
        forall|j: int, k: int|
            0 <= j < k < present_before(table, n).len() ==> #[trigger] present_before(table, n)[j]
                < #[trigger] present_before(table, n)[k],
    decreases n,
{
    let before = present_before(table, n - 1);
    let after = present_before(table, n);
    if n > 1 {
        present_slots_are_told(table, n - 1, 0);
        if i < n - 1 {
            present_slots_are_told(table, n - 1, i);
        }
    } else {
        assert(present_before(table, 0) =~= Seq::empty());
    }
    if present(table[n - 1]) {
        assert(after[before.len() as int] == n - 1);
        if before.contains(i as usize) {
            let j = choose|j: int| 0 <= j < before.len() && before[j] == i as usize;
            assert(after[j] == before[j]);
        }
        if after.contains(i as usize) && i < n - 1 {
            let j = choose|j: int| 0 <= j < after.len() && after[j] == i as usize;
            assert(before[j] == i as usize);
        }
    } else if i == n - 1 && after.contains(i as usize) {
        let j = choose|j: int| 0 <= j < after.len() && after[j] == i as usize;
        assert(before[j] < n - 1);
    }
}

/// The frames handed out by `n` requests, the first of which is request number `k`.
pub open spec fn handed_out(regions: Seq<Region>, k: u64, n: nat) -> Seq<Option<u64>>
    decreases n,
{
    if n == 0 {
        Seq::empty()
    } else {
        let (next, frame) = handing_out(regions, k);
        seq![frame] + handed_out(regions, next, (n - 1) as nat)
    }
}

/// Requests are served one after the other from the usable frames, none of which is passed over:
/// request `i` gets frame `i` of them, at its number times 4096.
pub proof fn requests_get_the_frames_in_turn(regions: Seq<Region>, k: u64, n: nat, i: int)
    requires
        k + n <= u64::MAX,
        0 <= i < n,
    ensures
        handed_out(regions, k, n).len() == n,
        handed_out(regions, k, n)[i] == (match nth_usable(regions, k + i) {
            Some(f) => Some((f * 4096) as u64),
            None => None,
        }),
    decreases n,
{
    let next = handing_out(regions, k).0;
    assert(next == k + 1);
    if n > 1 {
        if i > 0 {
            requests_get_the_frames_in_turn(regions, next, (n - 1) as nat, i - 1);
        } else {
            requests_get_the_frames_in_turn(regions, next, (n - 1) as nat, 0);
        }
    }
}

} // verus!
