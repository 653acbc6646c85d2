//! The kernel heap: its pages, and the bump allocator that hands it out.

use vstd::prelude::*;

use crate::memory;
use crate::memory::PAGE_SIZE;

verus! {

/// Where the heap starts.
pub const HEAP_START: u64 = 0x4444_4444_0000;

/// The size of the heap.
pub const HEAP_SIZE: u64 = 102400;

/// The last page of the heap.
pub open spec fn last_heap_page() -> u64 {
    memory::page_of((HEAP_START + HEAP_SIZE - 1) as u64)
}

/// The heap being mapped page by page.
#[derive(Debug, Clone, Copy, PartialEq, Eq, Structural)]
pub struct HeapSetup {
    /// The page whose turn it is.
    page: u64,
    /// Whether it has its frame and is being mapped.
    mapping: bool,
}

/// The model of [`HeapSetup`].
pub struct SetupModel {
    pub page: u64,
    pub mapping: bool,
}

impl View for HeapSetup {
    type V = SetupModel;

    closed spec fn view(&self) -> SetupModel {
        SetupModel { page: self.page, mapping: self.mapping }
    }
}

/// What is to be done next to set up the heap.
#[derive(Debug, Clone, Copy, PartialEq, Eq, Structural)]
pub enum HeapAction {
    /// Allocate a frame.
    AllocateFrame,
    /// Map the frame at this page, writable.
    MapPage(u64),
    /// The heap is ready.
    Done,
    /// There was no frame, or it could not be mapped.
    Failed,
}

/// Begins to set up the heap.
pub fn init_heap() -> (r: (HeapSetup, HeapAction))
    ensures
        r.0@ == (SetupModel { page: memory::page_of(HEAP_START), mapping: false }),
        r.1 == HeapAction::AllocateFrame,
{
    (HeapSetup { page: memory::page_base(HEAP_START), mapping: false }, HeapAction::AllocateFrame)
}

/// What follows once the last action has succeeded or failed: each page gets a frame and is
/// mapped, and after the last page the allocator gets the heap.
pub open spec fn setting_up(s: SetupModel, b: BumpModel, succeeded: bool) -> (
    SetupModel,
    BumpModel,
    HeapAction,
) {
    if !succeeded {
        (s, b, HeapAction::Failed)
    } else if !s.mapping {
        (SetupModel { mapping: true, ..s }, b, HeapAction::MapPage(s.page))
    } else if s.page >= last_heap_page() {
        (s, armed(b, HEAP_START as nat, HEAP_SIZE as nat), HeapAction::Done)
    } else {
        (
            SetupModel { page: (s.page + PAGE_SIZE) as u64, mapping: false },
            b,
            HeapAction::AllocateFrame,
        )
    }
}

impl HeapSetup {
    /// Goes on after the last action has succeeded or failed.
    pub fn step(&mut self, bump: &mut BumpAllocator, succeeded: bool) -> (action: HeapAction)
        ensures
            (final(self)@, final(bump)@, action) == setting_up(old(self)@, old(bump)@, succeeded),
    {
        if !succeeded {
            return HeapAction::Failed;
        }
        if !self.mapping {
            self.mapping = true;
            return HeapAction::MapPage(self.page);
        }
        let last: u64 = memory::page_base(HEAP_START + HEAP_SIZE - 1);
        if self.page >= last {
            bump.init(HEAP_START, HEAP_SIZE);
            return HeapAction::Done;
        }
        assert(last <= HEAP_START + HEAP_SIZE);
        self.page = self.page + PAGE_SIZE;
        self.mapping = false;
        HeapAction::AllocateFrame
    }
}

/// The page that is mapped in round `k`.
pub open spec fn heap_page(k: nat) -> SetupModel {
    SetupModel { page: (memory::page_of(HEAP_START) + k * PAGE_SIZE) as u64, mapping: true }
}

/// Every address of the heap is on a page that is mapped: it is on that of some round, and while
/// all goes well one round follows the other until the last.
pub proof fn heap_is_mapped_whole(a: u64, b: BumpModel) -> (k: nat)
    requires
        HEAP_START <= a < HEAP_START + HEAP_SIZE,
    ensures
        memory::page_of(a) == heap_page(k).page,
        setting_up(SetupModel { mapping: false, ..heap_page(k) }, b, true) == (
            heap_page(k),
            b,
            HeapAction::MapPage(memory::page_of(a)),
        ),
        heap_page(k).page < last_heap_page() ==> setting_up(heap_page(k), b, true) == (
            SetupModel { mapping: false, ..heap_page(k + 1) },
            b,
            HeapAction::AllocateFrame,
        ),
        heap_page(0).page == memory::page_of(HEAP_START),
{
    let k = ((a - HEAP_START) / 4096) as nat;
    assert(memory::page_of(a) == HEAP_START + 4096 * k);
    k
}

/// An allocator with a cursor that only moves forward: each block comes behind the last. The
/// cursor goes back to the start when no block is left.
pub struct BumpAllocator {
    heap_start: u64,
    heap_end: u64,
    next: u64,
    allocations: u64,
}

/// The state of the allocator.
pub struct BumpModel {
    pub start: nat,
    pub end: nat,
    /// The first free address.
    pub next: nat,
    /// How many blocks are in use.
    pub allocations: nat,
}

impl View for BumpAllocator {
    type V = BumpModel;

    closed spec fn view(&self) -> BumpModel {
        BumpModel {
            start: self.heap_start as nat,
            end: self.heap_end as nat,
            next: self.next as nat,
            allocations: self.allocations as nat,
        }
    }
}

/// The allocator after it has been given a heap.
pub open spec fn armed(b: BumpModel, start: nat, size: nat) -> BumpModel {
    BumpModel { start, end: start + size, next: start, ..b }
}

/// Whether `n` is a power of two.
pub open spec fn is_power_of_two(n: u64) -> bool {
    exists|k: u64| k < 64 && n == #[trigger] (1u64 << k)
}

/// The least multiple of `align` that is not below `addr`.
pub open spec fn aligned(addr: nat, align: nat) -> nat
    recommends
        align > 0,
{
    ((addr + align - 1) as nat / align) * align
}

/// Rounds an address up to a power of two.
fn align_up(addr: u64, align: u64) -> (r: u64)
    requires
        is_power_of_two(align),
        addr + align - 1 <= u64::MAX,
    ensures
        r == aligned(addr as nat, align as nat),
{
    let ghost k = choose|k: u64| k < 64 && align == #[trigger] (1u64 << k);
    proof {
        assert(1u64 << k >= 1) by (bit_vector)
            requires
                k < 64,
        ;
    }
    let x: u64 = addr + (align - 1);
    proof {
        assert(x & !((((1u64 << k) - 1)) as u64) == (x >> k) << k) by (bit_vector)
            requires
                k < 64,
        ;
        vstd::arithmetic::power2::lemma_pow2_strictly_increases(k as nat, 64);
        vstd::arithmetic::power2::lemma2_to64_rest();
        vstd::bits::lemma_u64_shl_is_mul(1, k);
        assert(align == vstd::arithmetic::power2::pow2(k as nat));
        vstd::bits::lemma_u64_shr_is_div(x, k);
        let q = x as nat / align as nat;
        assert(q * align <= x) by (nonlinear_arith)
            requires
                q == x as nat / align as nat,
                align > 0,
        ;
        vstd::bits::lemma_u64_shl_is_mul(q as u64, k);
    }
    x & !(align - 1)
}

/// Rounding up gives a multiple, no less than the address and less than one step above it.
pub proof fn rounding_up_is_least(addr: nat, align: nat)
    requires
        align > 0,
    ensures
        aligned(addr, align) % align == 0,
        addr <= aligned(addr, align) < addr + align,
{
    let x = (addr + align - 1) as nat;
    vstd::arithmetic::div_mod::lemma_fundamental_div_mod(x as int, align as int);
    vstd::arithmetic::div_mod::lemma_mod_multiples_basic((x / align) as int, align as int);
    assert((x / align) * align == align * (x / align)) by (nonlinear_arith);
}

/// What allocating a block does: it starts at the next address that is aligned, if it fits.
pub open spec fn allocating(b: BumpModel, size: nat, align: nat) -> (BumpModel, Option<nat>) {
    let start = aligned(b.next, align);
    if start + size > b.end {
        (b, None)
    } else {
        (BumpModel { next: start + size, allocations: b.allocations + 1, ..b }, Some(start))
    }
}

/// What freeing a block does: it is counted, and the last one frees the heap.
pub open spec fn freeing(b: BumpModel) -> BumpModel {
    BumpModel {
        next: if b.allocations == 1 {
            b.start
        } else {
            b.next
        },
        allocations: (b.allocations - 1) as nat,
        ..b
    }
}

impl BumpAllocator {
    /// An allocator without a heap.
    pub fn new() -> (b: BumpAllocator)
        ensures
            b@ == (BumpModel { start: 0, end: 0, next: 0, allocations: 0 }),
    {
        BumpAllocator { heap_start: 0, heap_end: 0, next: 0, allocations: 0 }
    }

    /// Gives the allocator the heap of `heap_size` bytes at `heap_start`.
    pub fn init(&mut self, heap_start: u64, heap_size: u64)
        requires
            heap_start + heap_size <= u64::MAX,
        ensures
            final(self)@ == armed(old(self)@, heap_start as nat, heap_size as nat),
    {
        self.heap_start = heap_start;
        self.heap_end = heap_start + heap_size;
        self.next = heap_start;
    }

    /// Allocates a block. The result is its address; `None` if it does not fit.
    pub fn allocate(&mut self, size: u64, align: u64) -> (block: Option<u64>)
        requires
            is_power_of_two(align),
            old(self)@.next + align - 1 <= u64::MAX,
            old(self)@.allocations < u64::MAX,
        ensures
            match allocating(old(self)@, size as nat, align as nat) {
                (after, Some(start)) => final(self)@ == after && block == Some(start as u64)
                    && start <= u64::MAX,
                (after, None) => final(self)@ == after && block is None,
            },
    {
        let start: u64 = align_up(self.next, align);
        match start.checked_add(size) {
            Some(end) => {
                if end > self.heap_end {
                    None
                } else {
                    self.next = end;
                    self.allocations = self.allocations + 1;
                    Some(start)
                }
            },
            None => None,
        }
    }

    /// Frees a block.
    pub fn deallocate(&mut self)
        requires
            old(self)@.allocations > 0,
        ensures
            final(self)@ == freeing(old(self)@),
    {
        self.allocations = self.allocations - 1;
        if self.allocations == 0 {
            self.next = self.heap_start;
        }
    }
}

/// Blocks in use, each with its address and size: there are as many as are counted, they lie
/// between the start of the heap and the cursor, and no two share a byte.
pub open spec fn in_use(b: BumpModel, blocks: Seq<(nat, nat)>) -> bool {
    &&& blocks.len() == b.allocations
    &&& b.start <= b.next
    &&& forall|i: int|
        0 <= i < blocks.len() ==> b.start <= (#[trigger] blocks[i]).0 && blocks[i].0 + blocks[i].1
            <= b.next
    &&& forall|i: int, j: int|
        0 <= i < j < blocks.len() ==> apart(#[trigger] blocks[i], #[trigger] blocks[j])
}

/// Whether two blocks share no byte.
pub open spec fn apart(x: (nat, nat), y: (nat, nat)) -> bool {
    x.0 + x.1 <= y.0 || y.0 + y.1 <= x.0
}

/// A new block is aligned, within the heap, and apart from all blocks in use.
pub proof fn new_block_is_apart(b: BumpModel, blocks: Seq<(nat, nat)>, size: nat, align: nat)
    requires
        in_use(b, blocks),
        align > 0,
        allocating(b, size, align).1 is Some,
    ensures
        ({
            let (after, block) = allocating(b, size, align);
            let start = block.unwrap();
            &&& start % align == 0
            &&& b.start <= start && start + size <= b.end
            &&& forall|i: int|
                0 <= i < blocks.len() ==> apart(#[trigger] blocks[i], (start, size))
            &&& in_use(after, blocks.push((start, size)))
        }),
{
    rounding_up_is_least(b.next, align);
}

/// Freeing any block keeps the others apart, and frees the whole heap if it was the last.
pub proof fn freed_block_is_gone(b: BumpModel, blocks: Seq<(nat, nat)>, i: int)
    requires
        in_use(b, blocks),
        0 <= i < blocks.len(),
    ensures
        in_use(freeing(b), blocks.remove(i)),
        blocks.len() == 1 ==> freeing(b).next == b.start,
{
}

/// A block is placed at the first aligned address that is not in use, and exactly if it ends
/// within the heap. The cursor then stands behind it; otherwise nothing changes.
pub proof fn block_is_given_where_it_fits(b: BumpModel, size: nat, align: nat, start: nat)
    requires
        align > 0,
        start % align == 0,
        b.next <= start < b.next + align,
    ensures
        start + size <= b.end ==> allocating(b, size, align) == (
            BumpModel {
                start: b.start,
                end: b.end,
                next: start + size,
                allocations: b.allocations + 1,
            },
            Some(start),
        ),
        start + size > b.end ==> allocating(b, size, align) == (b, None::<nat>),
{
    rounding_up_is_least(b.next, align);
    let a = aligned(b.next, align);
    vstd::arithmetic::div_mod::lemma_fundamental_div_mod(a as int, align as int);
    vstd::arithmetic::div_mod::lemma_fundamental_div_mod(start as int, align as int);
    let qa = a / align;
    let qs = start / align;
    assert(qa == qs) by (nonlinear_arith)
        requires
            a == align * qa,
            start == align * qs,
            a < start + align,
            start < a + align,
            align > 0,
    ;
}

/// A freed block only counts, until it is the last: then the cursor is back at the start, and
/// the heap can be given out again from there.
pub proof fn heap_is_free_after_the_last(b: BumpModel)
    requires
        b.allocations > 0,
    ensures
        freeing(b).allocations == b.allocations - 1,
        freeing(b).start == b.start && freeing(b).end == b.end,
        b.allocations > 1 ==> freeing(b).next == b.next,
        b.allocations == 1 ==> freeing(b).next == b.start,
{
}

/// The heap of 100 KiB starts at `0x4444_4444_0000`. It is given to the allocator once its last
/// page, the twenty-fifth, has been mapped, and not before; a failure ends the setup.
pub proof fn heap_is_ready_after_its_last_page(b: BumpModel, k: nat)
    requires
        k < 25,
    ensures
        ({
            let mapped = SetupModel { page: (0x4444_4444_0000 + 4096 * k) as u64, mapping: true };
            &&& k == 24 ==> setting_up(mapped, b, true) == (
                mapped,
                BumpModel {
                    start: 0x4444_4444_0000,
                    end: 0x4444_4444_0000 + 102400,
                    next: 0x4444_4444_0000,
                    allocations: b.allocations,
                },
                HeapAction::Done,
            )
            &&& k < 24 ==> setting_up(mapped, b, true) == (
                SetupModel { page: (0x4444_4444_0000 + 4096 * (k + 1)) as u64, mapping: false },
                b,
                HeapAction::AllocateFrame,
            )
            &&& setting_up(SetupModel { mapping: false, ..mapped }, b, true) == (
                mapped,
                b,
                HeapAction::MapPage(mapped.page),
            )
            &&& setting_up(mapped, b, false) == (mapped, b, HeapAction::Failed)
        }),
{
}

} // verus!
