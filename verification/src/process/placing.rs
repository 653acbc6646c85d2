//! Where a loader puts a program: every address of it gets a page, with what the file says.

use vstd::prelude::*;

use crate::elf;
use crate::elf::{ElfError, ProgramHeader};
use crate::memory;
use crate::process::loader;
use crate::process::loader::{ActionView, Cursor, Event, LoaderModel, Stage};

verus! {

/// The page that a loader has reached after `n` more pages.
pub open spec fn pages_on(segments: Seq<ProgramHeader>, c: Cursor, n: nat) -> Option<Cursor>
    decreases n,
{
    if n == 0 {
        Some(c)
    } else {
        match pages_on(segments, c, (n - 1) as nat) {
            Some(d) => loader::next_page(segments, d),
            None => None,
        }
    }
}

proof fn lemma_pages_add(segments: Seq<ProgramHeader>, c: Cursor, d: Cursor, a: nat, b: nat)
    requires
        pages_on(segments, c, a) == Some(d),
    ensures
        pages_on(segments, c, a + b) == pages_on(segments, d, b),
    decreases b,
{
    if b > 0 {
        lemma_pages_add(segments, c, d, a, (b - 1) as nat);
    }
}

/// What is known of the ends of a segment in the address space.
proof fn lemma_ends(ph: ProgramHeader)
    requires
        loader::reachable(ph),
    ensures
        loader::first_page(ph) % 4096 == 0,
        loader::last_page(ph) % 4096 == 0,
        loader::last_page(ph) < loader::LAST_PAGE,
{
    memory::page_holds_its_address(ph.vaddr);
    memory::page_holds_its_address((ph.vaddr + ph.mem_size - 1) as u64);
}

/// The pages of a segment come one after the other.
proof fn lemma_through(segments: Seq<ProgramHeader>, i: int, j: nat)
    requires
        segments.len() <= usize::MAX,
        0 <= i < segments.len(),
        loader::reachable(segments[i]),
        loader::first_page(segments[i]) + 4096 * j <= loader::last_page(segments[i]),
    ensures
        pages_on(
            segments,
            Cursor { seg: i as usize, page: loader::first_page(segments[i]) },
            j,
        ) == Some(
            Cursor {
                seg: i as usize,
                page: (loader::first_page(segments[i]) + 4096 * j) as u64,
            },
        ),
    decreases j,
{
    if j > 0 {
        lemma_through(segments, i, (j - 1) as nat);
    }
}

/// From segment `k` on, the first page of segment `i` is reached.
proof fn lemma_reaches_segment(segments: Seq<ProgramHeader>, k: int, i: int) -> (n: nat)
    requires
        segments.len() <= usize::MAX,
        0 <= k <= i < segments.len(),
        forall|j: int| 0 <= j < segments.len() ==> loader::reachable(#[trigger] segments[j]),
        loader::first_page(segments[i]) <= loader::last_page(segments[i]),
    ensures
        pages_on(segments, loader::settled(segments, k), n) == Some(
            Cursor { seg: i as usize, page: loader::first_page(segments[i]) },
        ),
    decreases i - k,
{
    if k == i {
        0
    } else {
        let rest = lemma_reaches_segment(segments, k + 1, i);
        let first = loader::first_page(segments[k]);
        let last = loader::last_page(segments[k]);
        if first <= last {
            lemma_ends(segments[k]);
            let j = ((last - first) / 4096) as nat;
            lemma_through(segments, k, j);
            let c = Cursor { seg: k as usize, page: first };
            assert(pages_on(segments, c, j) == Some(Cursor { seg: k as usize, page: last }));
            assert(pages_on(segments, c, j + 1) == Some(loader::settled(segments, k + 1)));
            lemma_pages_add(segments, c, loader::settled(segments, k + 1), j + 1, rest);
            j + 1 + rest
        } else {
            rest
        }
    }
}

/// Every address of a segment gets a page, up to the last byte of its size in memory: going
/// through its pages, a loader comes to the one that holds the address.
pub proof fn every_address_gets_a_page(segments: Seq<ProgramHeader>, i: int, a: u64) -> (n: nat)
    requires
        segments.len() <= usize::MAX,
        0 <= i < segments.len(),
        forall|j: int| 0 <= j < segments.len() ==> loader::reachable(#[trigger] segments[j]),
        segments[i].vaddr <= a < segments[i].vaddr + segments[i].mem_size,
        segments[i].vaddr + segments[i].mem_size <= 0x8000_0000_0000 || segments[i].vaddr
            >= 0xFFFF_8000_0000_0000,
    ensures
        pages_on(segments, loader::settled(segments, 0), n) matches Some(c) && c.seg == i && c.page
            % 4096 == 0 && c.page <= a < c.page + 4096,
{
    let ph = segments[i];
    assert(loader::reachable(ph));
    lemma_ends(ph);
    let first = loader::first_page(ph);
    let last = loader::last_page(ph);
    assert(first <= ph.vaddr < first + 4096);
    assert(last <= ph.vaddr + ph.mem_size - 1 < last + 4096);
    assert(first <= last);
    let reach = lemma_reaches_segment(segments, 0, i);
    let j = ((a - first) / 4096) as nat;
    assert(first + 4096 * j <= last);
    lemma_through(segments, i, j);
    let c = Cursor { seg: i as usize, page: first };
    lemma_pages_add(segments, loader::settled(segments, 0), c, reach, j);
    reach + j
}

/// A page that has got a frame is mapped, writable exactly if it is of the stack or of a segment
/// that says so; one that has been mapped is filled; and after it comes the next, until the last
/// page of the stack, behind which the program is ready to start at its entry point.
pub proof fn pages_are_mapped_and_filled(m: LoaderModel, data: Seq<u8>, next: Cursor)
    requires
        m.cursor.seg < elf::segments(m.file).len(),
    ensures
        ({
            let ph = elf::segments(m.file)[m.cursor.seg as int];
            let (after, action) = loader::loading(m, Event::Frame(true));
            &&& after == (LoaderModel { stage: Stage::Mapping, ..m })
            &&& action == (ActionView::MapPage {
                page: m.cursor.page,
                writable: ph.flags & 2 != 0,
            })
        }),
        loader::page_contents(
            m.file,
            elf::segments(m.file)[m.cursor.seg as int],
            m.cursor.page,
        ) == Some(data) ==> loader::loading(m, Event::Mapped(true)) == (
            LoaderModel { stage: Stage::Fill, ..m },
            ActionView::Fill(data),
        ),
        loader::next_page(elf::segments(m.file), m.cursor) == Some(next) ==> loader::loading(
            m,
            Event::Filled,
        ) == (LoaderModel { cursor: next, stage: Stage::Frame, ..m }, ActionView::AllocateFrame),
{
}

/// The stack: four writable pages of zeros right below its top, and then the program starts.
pub proof fn stack_is_mapped_and_cleared(m: LoaderModel, k: int)
    requires
        m.cursor.seg == elf::segments(m.file).len(),
        0 <= k < 4,
        m.cursor.page == 0x2000_000F_C000 + k * 4096,
    ensures
        loader::loading(m, Event::Frame(true)).1 == (ActionView::MapPage {
            page: m.cursor.page,
            writable: true,
        }),
        loader::loading(m, Event::Mapped(true)).1 == ActionView::Fill(
            Seq::new(4096, |i: int| 0u8),
        ),
        k < 3 ==> loader::loading(m, Event::Filled).1 == ActionView::AllocateFrame
            && loader::loading(m, Event::Filled).0.cursor == (Cursor {
            page: (m.cursor.page + 4096) as u64,
            ..m.cursor
        }),
        k == 3 && elf::entry_point(m.file) < 0x8000_0000_0000 ==> loader::loading(
            m,
            Event::Filled,
        ).1 == (ActionView::Done {
            entry: elf::entry_point(m.file),
            user_stack_top: 0x2000_0010_0000,
        }),
{
    assert(crate::bytes::zeros(4096) =~= Seq::new(4096, |i: int| 0u8));
}

/// The stack comes behind the last segment, from its lowest page on.
pub proof fn stack_comes_behind_the_segments(segments: Seq<ProgramHeader>, c: Cursor)
    requires
        segments.len() <= usize::MAX,
        c.seg < segments.len(),
        c.page >= loader::last_page(segments[c.seg as int]),
        forall|j: int|
            c.seg < j < segments.len() ==> loader::first_page(#[trigger] segments[j])
                > loader::last_page(segments[j]),
    ensures
        loader::next_page(segments, c) == Some(
            Cursor { seg: segments.len() as usize, page: 0x2000_000F_C000 },
        ),
{
    lemma_settles_on_stack(segments, c.seg + 1);
}

proof fn lemma_settles_on_stack(segments: Seq<ProgramHeader>, i: int)
    requires
        segments.len() <= usize::MAX,
        forall|j: int|
            i <= j < segments.len() ==> loader::first_page(#[trigger] segments[j])
                > loader::last_page(segments[j]),
    ensures
        loader::settled(segments, i) == (Cursor {
            seg: segments.len() as usize,
            page: 0x2000_000F_C000,
        }),
    decreases segments.len() - i,
{
    if i < segments.len() {
        lemma_settles_on_stack(segments, i + 1);
    }
}

/// A step that fails ends the loading with the reason: no frame, no mapping, or a file that does
/// not hold what it promises.
pub proof fn failures_end_the_loading(m: LoaderModel)
    ensures
        loader::loading(m, Event::Space(false)) == (
            LoaderModel { stage: Stage::Over, ..m },
            ActionView::Failed(ElfError::OutOfFrames),
        ),
        loader::loading(m, Event::Frame(false)) == (
            LoaderModel { stage: Stage::Over, ..m },
            ActionView::Failed(ElfError::OutOfFrames),
        ),
        loader::loading(m, Event::Mapped(false)) == (
            LoaderModel { stage: Stage::Over, ..m },
            ActionView::Failed(ElfError::MapFailed),
        ),
        loader::loading(m, Event::Space(true)) == (
            LoaderModel { stage: Stage::Frame, ..m },
            ActionView::AllocateFrame,
        ),
        m.cursor.seg < elf::segments(m.file).len() && loader::page_contents(
            m.file,
            elf::segments(m.file)[m.cursor.seg as int],
            m.cursor.page,
        ) is None ==> loader::loading(m, Event::Mapped(true)).1 == ActionView::Failed(
            ElfError::BadSegment,
        ),
{
}

/// Every byte of a page of a segment is accounted for: with the address `a` at place `i`, it is
/// the byte of the file that lies as far behind the segment's offset as `a` behind its address,
/// and zero for an address before the segment or behind what the file gives. The page cannot be
/// filled exactly if one of those bytes of the file is missing.
pub proof fn page_bytes_are_accounted_for(file: Seq<u8>, ph: ProgramHeader, page: u64, i: int)
    requires
        0 <= i < 4096,
    ensures
        loader::page_contents(file, ph, page) matches Some(data) ==> data.len() == 4096 && data[i]
            == {
            let a = page + i;
            if ph.vaddr <= a < ph.vaddr + ph.file_size {
                file[ph.file_offset + (a - ph.vaddr)]
            } else {
                0u8
            }
        },
        loader::page_contents(file, ph, page) is Some && ph.vaddr <= page + i < ph.vaddr
            + ph.file_size ==> ph.file_offset + (page + i - ph.vaddr) < file.len(),
        ph.file_offset + ph.file_size <= file.len() ==> loader::page_contents(
            file,
            ph,
            page,
        ) is Some,
{
}

/// A segment of one byte or more that lies in the lower half of the address space can be loaded,
/// and so can one in the upper half that stays clear of its last page.
pub proof fn segments_in_one_half_are_reachable(ph: ProgramHeader)
    requires
        ph.mem_size > 0,
        ph.vaddr + ph.mem_size <= 0x8000_0000_0000 || (ph.vaddr >= 0xFFFF_8000_0000_0000
            && ph.vaddr + ph.mem_size <= 0xFFFF_FFFF_FFFF_F000),
    ensures
        loader::reachable(ph),
{
}

} // verus!
