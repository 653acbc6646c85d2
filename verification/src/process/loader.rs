//! Loading a program into an address space of its own.
//!
//! A [`Loader`] goes through the pages of the program's segments and of its stack. For each it
//! asks for a frame, has it mapped, and says what to fill it with. Whoever drives it reports how
//! each step went.

use vstd::prelude::*;

use crate::bytes;
use crate::bytes::{append_zeros, same_bytes};
use crate::elf;
use crate::elf::{ElfError, ElfFile, ProgramHeader, PF_W};
use crate::memory;
use crate::memory::{page_base, virtual_address, ADDRESS_END, LOWER_END, UPPER_START};
use crate::process::program::{DEMO_CODE_LEN, DEMO_ENTRY_OFFSET};

verus! {

/// Where the user stack ends, which is where the stack pointer starts.
pub const USER_STACK_TOP: u64 = 0x2000_0010_0000;

/// The lowest page of the user stack.
pub const USER_STACK_BOTTOM: u64 = 0x2000_000F_C000;

/// How many pages the user stack has.
pub const USER_STACK_PAGES: u64 = 4;

/// The last page of the address space.
pub const LAST_PAGE: u64 = 0xFFFF_FFFF_FFFF_F000;

/// A loaded program.
#[derive(Debug, Clone, Copy, PartialEq, Eq, Structural)]
pub struct UserImage {
    /// The frame of the top table of its address space.
    pub l4: u64,
    pub entry: u64,
    pub user_stack_top: u64,
}

impl UserImage {
    /// The address of the program's first instruction.
    pub fn entry(&self) -> (entry: u64)
        ensures
            entry == self.entry,
    {
        self.entry
    }
}

/// The first page of a segment.
pub open spec fn first_page(ph: ProgramHeader) -> u64 {
    memory::page_of(ph.vaddr)
}

/// The last page of a segment.
pub open spec fn last_page(ph: ProgramHeader) -> u64 {
    memory::page_of((ph.vaddr + ph.mem_size - 1) as u64)
}

/// Whether the pages of a segment are pages of the address space: its ends are addresses, in the
/// same half, and not in the very last page.
pub open spec fn reachable(ph: ProgramHeader) -> bool {
    &&& 1 <= ph.vaddr + ph.mem_size <= u64::MAX
    &&& memory::is_address(ph.vaddr)
    &&& memory::is_address((ph.vaddr + ph.mem_size - 1) as u64)
    &&& first_page(ph) > last_page(ph) || last_page(ph) < LOWER_END || first_page(ph)
        >= UPPER_START
    &&& last_page(ph) < LAST_PAGE
    &&& first_page(ph) < LAST_PAGE
}

/// Whether everything that a program asks for lies in the address space.
pub open spec fn loadable(file: Seq<u8>) -> bool {
    &&& memory::is_address(elf::entry_point(file))
    &&& forall|i: int|
        0 <= i < elf::segments(file).len() ==> reachable(#[trigger] elf::segments(file)[i])
}

fn is_address(a: u64) -> (yes: bool)
    ensures
        yes == memory::is_address(a),
{
    a < ADDRESS_END || a >= UPPER_START
}

/// Whether the pages of a segment are pages of the address space.
fn is_reachable(ph: &ProgramHeader) -> (yes: bool)
    ensures
        yes == reachable(*ph),
{
    let end: u128 = ph.vaddr as u128 + ph.mem_size as u128;
    if end < 1 || end > 0xFFFF_FFFF_FFFF_FFFF {
        return false;
    }
    let last: u64 = (end - 1) as u64;
    if !is_address(ph.vaddr) || !is_address(last) {
        return false;
    }
    let first_page: u64 = page_base(ph.vaddr);
    let last_page: u64 = page_base(last);
    (first_page > last_page || last_page < LOWER_END || first_page >= UPPER_START) && last_page
        < LAST_PAGE && first_page < LAST_PAGE
}

/// Whether everything that a program asks for lies in the address space.
pub fn is_loadable(file: &ElfFile) -> (yes: bool)
    requires
        file.ok(),
    ensures
        yes == loadable(file.contents()),
{
    if !is_address(file.entry()) {
        return false;
    }
    let segments: Vec<ProgramHeader> = file.load_segments();
    let mut i: usize = 0;
    while i < segments.len()
        invariant
            i <= segments@.len(),
            segments@ == elf::segments(file.contents()),
            forall|j: int| 0 <= j < i ==> reachable(#[trigger] segments@[j]),
        decreases segments@.len() - i,
    {
        if !is_reachable(&segments[i]) {
            return false;
        }
        i = i + 1;
    }
    true
}

/// The first address of `page` that the file gives the contents of.
pub open spec fn copy_start(ph: ProgramHeader, page: u64) -> int {
    if page >= ph.vaddr {
        page as int
    } else {
        ph.vaddr as int
    }
}

/// The address behind the last of `page` that the file gives the contents of.
pub open spec fn copy_end(ph: ProgramHeader, page: u64) -> int {
    if page + 4096 <= ph.vaddr + ph.file_size {
        page + 4096
    } else {
        ph.vaddr + ph.file_size
    }
}

/// The contents of a page of a segment: each byte that the file gives comes from as far behind
/// the segment's offset in the file as its address is behind the segment's address; the others
/// are zero. `None` if the file is too short.
pub open spec fn page_contents(file: Seq<u8>, ph: ProgramHeader, page: u64) -> Option<Seq<u8>> {
    if copy_start(ph, page) < copy_end(ph, page) && ph.file_offset + copy_end(ph, page) - ph.vaddr
        > file.len() {
        None
    } else {
        Some(
            Seq::new(
                4096,
                |i: int|
                    if copy_start(ph, page) <= page + i < copy_end(ph, page) {
                        file[ph.file_offset + page + i - ph.vaddr]
                    } else {
                        0u8
                    },
            ),
        )
    }
}

/// The contents of a page of a segment.
pub fn fill_page(file: &[u8], ph: &ProgramHeader, page: u64) -> (r: Result<Vec<u8>, ElfError>)
    requires
        page < LAST_PAGE,
    ensures
        match r {
            Ok(data) => page_contents(file@, *ph, page) == Some(data@),
            Err(e) => page_contents(file@, *ph, page) is None && e == ElfError::BadSegment,
        },
{
    let start: u64 = if page >= ph.vaddr {
        page
    } else {
        ph.vaddr
    };
    let page_end: u128 = page as u128 + 4096;
    let file_end: u128 = ph.vaddr as u128 + ph.file_size as u128;
    let end: u128 = if page_end <= file_end {
        page_end
    } else {
        file_end
    };
    let mut data: Vec<u8> = Vec::new();
    if start as u128 >= end {
        append_zeros(&mut data, 4096);
        assert(data@ =~= page_contents(file@, *ph, page).unwrap());
        return Ok(data);
    }
    let source: u128 = ph.file_offset as u128 + (start - ph.vaddr) as u128;
    let length: u128 = end - start as u128;
    if source + length > file.len() as u128 {
        return Err(ElfError::BadSegment);
    }
    let mut i: u64 = 0;
    while i < 4096
        invariant
            i <= 4096,
            page < LAST_PAGE,
            start == copy_start(*ph, page),
            end == copy_end(*ph, page),
            start < end,
            source == ph.file_offset + start - ph.vaddr,
            length == end - start,
            source + length <= file@.len(),
            page_contents(file@, *ph, page) is Some,
            data@.len() == i,
            forall|j: int| 0 <= j < i ==> data@[j] == page_contents(file@, *ph, page).unwrap()[j],
        decreases 4096 - i,
    {
        let a: u64 = page + i;
        if start <= a && (a as u128) < end {
            let at: u128 = source + (a - start) as u128;
            assert(at < file.len());
            data.push(file[at as usize]);
        } else {
            data.push(0);
        }
        i = i + 1;
    }
    assert(data@ =~= page_contents(file@, *ph, page).unwrap());
    Ok(data)
}

/// A byte of a loaded segment is the file's byte for its address, or zero behind what the file
/// gives.
pub proof fn loaded_bytes_are_the_files(file: Seq<u8>, ph: ProgramHeader, page: u64, i: int)
    requires
        page_contents(file, ph, page) is Some,
        0 <= i < 4096,
        ph.vaddr <= page + i,
    ensures
        page_contents(file, ph, page).unwrap()[i] == if page + i < ph.vaddr + ph.file_size {
            file[ph.file_offset + (page + i - ph.vaddr)]
        } else {
            0u8
        },
{
}

/// A page to load: of a segment, or of the stack where `seg` is the number of segments.
#[derive(Debug, Clone, Copy, PartialEq, Eq, Structural)]
pub struct Cursor {
    pub seg: usize,
    pub page: u64,
}

/// The first page from segment `i` on.
pub open spec fn settled(segments: Seq<ProgramHeader>, i: int) -> Cursor
    decreases segments.len() - i,
{
    if i >= segments.len() {
        Cursor { seg: segments.len() as usize, page: USER_STACK_BOTTOM }
    } else if first_page(segments[i]) <= last_page(segments[i]) {
        Cursor { seg: i as usize, page: first_page(segments[i]) }
    } else {
        settled(segments, i + 1)
    }
}

/// The page after `c`; `None` after the last page of the stack.
pub open spec fn next_page(segments: Seq<ProgramHeader>, c: Cursor) -> Option<Cursor> {
    if c.seg < segments.len() {
        if c.page < last_page(segments[c.seg as int]) {
            Some(Cursor { page: (c.page + 4096) as u64, ..c })
        } else {
            Some(settled(segments, c.seg + 1))
        }
    } else if c.page + 4096 < USER_STACK_TOP {
        Some(Cursor { page: (c.page + 4096) as u64, ..c })
    } else {
        None
    }
}

/// What has been asked of the driver and not yet been answered.
#[derive(Debug, Clone, Copy, PartialEq, Eq, Structural)]
pub enum Stage {
    Space,
    Frame,
    Mapping,
    Fill,
    Over,
}

/// How a step went.
#[derive(Debug, Clone, Copy, PartialEq, Eq, Structural)]
pub enum Event {
    /// Whether there was a frame for the top table of a new address space.
    Space(bool),
    /// Whether there was a frame for the page.
    Frame(bool),
    /// Whether the frame could be mapped.
    Mapped(bool),
    /// The frame has been filled.
    Filled,
}

/// What the driver of a loader does next.
pub enum Action {
    /// Make a new address space.
    NewSpace,
    /// Allocate a frame.
    AllocateFrame,
    /// Map the frame at this page for ring 3, writable or not.
    MapPage { page: u64, writable: bool },
    /// Fill the frame.
    Fill(Vec<u8>),
    /// The program is loaded.
    Done { entry: u64, user_stack_top: u64 },
    /// The program could not be loaded.
    Failed(ElfError),
}

/// What the driver of a loader does next, over sequences.
pub enum ActionView {
    NewSpace,
    AllocateFrame,
    MapPage { page: u64, writable: bool },
    Fill(Seq<u8>),
    Done { entry: u64, user_stack_top: u64 },
    Failed(ElfError),
}

impl View for Action {
    type V = ActionView;

    open spec fn view(&self) -> ActionView {
        match *self {
            Action::NewSpace => ActionView::NewSpace,
            Action::AllocateFrame => ActionView::AllocateFrame,
            Action::MapPage { page, writable } => ActionView::MapPage { page, writable },
            Action::Fill(data) => ActionView::Fill(data@),
            Action::Done { entry, user_stack_top } => ActionView::Done { entry, user_stack_top },
            Action::Failed(e) => ActionView::Failed(e),
        }
    }
}

/// A program being loaded.
pub struct Loader<'a> {
    elf: ElfFile<'a>,
    segments: Vec<ProgramHeader>,
    cursor: Cursor,
    stage: Stage,
}

/// A program being loaded, over sequences.
#[verifier::ext_equal]
pub struct LoaderModel {
    pub file: Seq<u8>,
    pub cursor: Cursor,
    pub stage: Stage,
}

impl<'a> View for Loader<'a> {
    type V = LoaderModel;

    closed spec fn view(&self) -> LoaderModel {
        LoaderModel { file: self.elf.contents(), cursor: self.cursor, stage: self.stage }
    }
}

/// Whether a page is writable for ring 3: the stack is, and a segment that says so.
pub open spec fn page_writable(m: LoaderModel) -> bool {
    let segments = elf::segments(m.file);
    m.cursor.seg >= segments.len() || segments[m.cursor.seg as int].flags & PF_W != 0
}

/// The contents of the page being loaded.
pub open spec fn cursor_contents(m: LoaderModel) -> Option<Seq<u8>> {
    let segments = elf::segments(m.file);
    if m.cursor.seg >= segments.len() {
        Some(bytes::zeros(4096))
    } else {
        page_contents(m.file, segments[m.cursor.seg as int], m.cursor.page)
    }
}

/// A loader that has given up.
pub open spec fn failed(m: LoaderModel, e: ElfError) -> (LoaderModel, ActionView) {
    (LoaderModel { stage: Stage::Over, ..m }, ActionView::Failed(e))
}

/// What a loader does on the outcome of a step. Without a frame and without a mapping it gives
/// up, and so it does where the file does not hold what a page should be filled with.
pub open spec fn loading(m: LoaderModel, event: Event) -> (LoaderModel, ActionView) {
    match event {
        Event::Space(ok) => if ok {
            (LoaderModel { stage: Stage::Frame, ..m }, ActionView::AllocateFrame)
        } else {
            failed(m, ElfError::OutOfFrames)
        },
        Event::Frame(ok) => if ok {
            (
                LoaderModel { stage: Stage::Mapping, ..m },
                ActionView::MapPage { page: m.cursor.page, writable: page_writable(m) },
            )
        } else {
            failed(m, ElfError::OutOfFrames)
        },
        Event::Mapped(ok) => if !ok {
            failed(m, ElfError::MapFailed)
        } else {
            match cursor_contents(m) {
                Some(data) => (LoaderModel { stage: Stage::Fill, ..m }, ActionView::Fill(data)),
                None => failed(m, ElfError::BadSegment),
            }
        },
        Event::Filled => match next_page(elf::segments(m.file), m.cursor) {
            Some(cursor) => (
                LoaderModel { cursor, stage: Stage::Frame, ..m },
                ActionView::AllocateFrame,
            ),
            None => (
                LoaderModel { stage: Stage::Over, ..m },
                ActionView::Done {
                    entry: memory::extended(elf::entry_point(m.file)),
                    user_stack_top: USER_STACK_TOP,
                },
            ),
        },
    }
}

/// Whether `c` is a page of one of the segments or of the stack.
pub open spec fn cursor_ok(segments: Seq<ProgramHeader>, c: Cursor) -> bool {
    if c.seg < segments.len() {
        first_page(segments[c.seg as int]) <= c.page <= last_page(segments[c.seg as int]) && c.page
            % 4096 == 0
    } else {
        c.seg == segments.len() && USER_STACK_BOTTOM <= c.page < USER_STACK_TOP && c.page % 4096
            == 0
    }
}

proof fn lemma_settled(segments: Seq<ProgramHeader>, i: int)
    requires
        0 <= i,
        segments.len() <= usize::MAX,
        forall|j: int| 0 <= j < segments.len() ==> reachable(#[trigger] segments[j]),
    ensures
        cursor_ok(segments, settled(segments, i)),
    decreases segments.len() - i,
{
    if i < segments.len() {
        assert(reachable(segments[i]));
        memory::page_holds_its_address(segments[i].vaddr);
        lemma_settled(segments, i + 1);
    }
}

/// The first page from segment `i` on.
fn settle(segments: &Vec<ProgramHeader>, i: usize) -> (c: Cursor)
    requires
        forall|j: int| 0 <= j < segments@.len() ==> reachable(#[trigger] segments@[j]),
    ensures
        c == settled(segments@, i as int),
{
    let mut k: usize = i;
    while k < segments.len()
        invariant
            forall|j: int| 0 <= j < segments@.len() ==> reachable(#[trigger] segments@[j]),
            settled(segments@, i as int) == settled(segments@, k as int),
        decreases segments@.len() - k,
    {
        let ph: ProgramHeader = segments[k];
        assert(reachable(segments@[k as int]));
        let end: u64 = (ph.vaddr as u128 + ph.mem_size as u128 - 1) as u64;
        let first: u64 = page_base(ph.vaddr);
        if first <= page_base(end) {
            return Cursor { seg: k, page: first };
        }
        k = k + 1;
    }
    Cursor { seg: segments.len(), page: USER_STACK_BOTTOM }
}

impl<'a> Loader<'a> {
    /// What holds of a loader between any two steps.
    pub closed spec fn ok(&self) -> bool {
        &&& self.elf.ok()
        &&& self.segments@ == elf::segments(self.elf.contents())
        &&& loadable(self.elf.contents())
        &&& cursor_ok(self.segments@, self.cursor)
    }

    /// A loader of an executable. The first thing to do is to make a new address space.
    pub fn start(elf: ElfFile<'a>) -> (r: (Loader<'a>, Action))
        requires
            elf.ok(),
            loadable(elf.contents()),
        ensures
            r.0.ok(),
            r.0@ == (LoaderModel {
                file: elf.contents(),
                cursor: settled(elf::segments(elf.contents()), 0),
                stage: Stage::Space,
            }),
            r.1@ == ActionView::NewSpace,
    {
        let segments: Vec<ProgramHeader> = elf.load_segments();
        proof {
            assert(segments@.len() == segments.len());
            lemma_settled(segments@, 0);
        }
        let cursor: Cursor = settle(&segments, 0);
        (Loader { elf, segments, cursor, stage: Stage::Space }, Action::NewSpace)
    }

    /// Moves on to the next page; `false` after the last.
    fn advance(&mut self) -> (more: bool)
        requires
            old(self).ok(),
        ensures
            final(self).ok(),
            match next_page(elf::segments(old(self)@.file), old(self)@.cursor) {
                Some(cursor) => more && final(self)@ == (LoaderModel { cursor, ..old(self)@ }),
                None => !more && final(self)@ == old(self)@,
            },
    {
        let c: Cursor = self.cursor;
        if c.seg < self.segments.len() {
            let ph: ProgramHeader = self.segments[c.seg];
            assert(reachable(self.segments@[c.seg as int]));
            let end: u64 = (ph.vaddr as u128 + ph.mem_size as u128 - 1) as u64;
            proof {
                memory::page_holds_its_address(end);
            }
            if c.page < page_base(end) {
                self.cursor = Cursor { seg: c.seg, page: c.page + 4096 };
            } else {
                proof {
                    assert(self.segments@.len() == self.segments.len());
                    lemma_settled(self.segments@, c.seg + 1);
                }
                self.cursor = settle(&self.segments, c.seg + 1);
            }
            return true;
        }
        if c.page + 4096 < USER_STACK_TOP {
            self.cursor = Cursor { seg: c.seg, page: c.page + 4096 };
            return true;
        }
        false
    }

    /// Goes on after a step, by how it went.
    pub fn step(&mut self, event: Event) -> (action: Action)
        requires
            old(self).ok(),
        ensures
            final(self).ok(),
            (final(self)@, action@) == loading(old(self)@, event),
    {
        match event {
            Event::Space(ok) => {
                if !ok {
                    self.stage = Stage::Over;
                    return Action::Failed(ElfError::OutOfFrames);
                }
                self.stage = Stage::Frame;
                Action::AllocateFrame
            },
            Event::Frame(ok) => {
                if !ok {
                    self.stage = Stage::Over;
                    return Action::Failed(ElfError::OutOfFrames);
                }
                self.stage = Stage::Mapping;
                let writable: bool = if self.cursor.seg < self.segments.len() {
                    self.segments[self.cursor.seg].is_writable()
                } else {
                    true
                };
                Action::MapPage { page: self.cursor.page, writable }
            },
            Event::Mapped(ok) => {
                if !ok {
                    self.stage = Stage::Over;
                    return Action::Failed(ElfError::MapFailed);
                }
                if self.cursor.seg < self.segments.len() {
                    assert(reachable(self.segments@[self.cursor.seg as int]));
                    let ph: ProgramHeader = self.segments[self.cursor.seg];
                    match fill_page(self.elf.bytes(), &ph, self.cursor.page) {
                        Ok(data) => {
                            self.stage = Stage::Fill;
                            Action::Fill(data)
                        },
                        Err(e) => {
                            self.stage = Stage::Over;
                            Action::Failed(e)
                        },
                    }
                } else {
                    let mut data: Vec<u8> = Vec::new();
                    append_zeros(&mut data, 4096);
                    assert(data@ =~= bytes::zeros(4096));
                    self.stage = Stage::Fill;
                    Action::Fill(data)
                }
            },
            Event::Filled => {
                if self.advance() {
                    self.stage = Stage::Frame;
                    Action::AllocateFrame
                } else {
                    self.stage = Stage::Over;
                    Action::Done {
                        entry: virtual_address(self.elf.entry()),
                        user_stack_top: USER_STACK_TOP,
                    }
                }
            },
        }
    }
}

/// Begins to load an executable; fails if it does not parse.
pub fn load<'a>(file: &'a [u8]) -> (r: Result<(Loader<'a>, Action), ElfError>)
    requires
        elf::fault(file@) is None ==> loadable(file@),
    ensures
        match r {
            Ok((loader, action)) => elf::fault(file@) is None && loader.ok() && loader@ == (
            LoaderModel {
                file: file@,
                cursor: settled(elf::segments(file@), 0),
                stage: Stage::Space,
            }) && action@ == ActionView::NewSpace,
            Err(e) => elf::fault(file@) == Some(e),
        },
{
    match ElfFile::parse(file) {
        Ok(elf) => Ok(Loader::start(elf)),
        Err(e) => Err(e),
    }
}

/// Every page of a segment is loaded, one after the other, before the next segment is begun.
pub proof fn pages_of_a_segment_are_consecutive(segments: Seq<ProgramHeader>, c: Cursor)
    requires
        c.seg < segments.len(),
        cursor_ok(segments, c),
    ensures
        c.page < last_page(segments[c.seg as int]) ==> next_page(segments, c) == Some(
            Cursor { seg: c.seg, page: (c.page + 4096) as u64 },
        ),
        c.page == last_page(segments[c.seg as int]) ==> next_page(segments, c) == Some(
            settled(segments, c.seg + 1),
        ),
{
}

/// The stack has [`USER_STACK_PAGES`] pages, right below [`USER_STACK_TOP`], and comes last.
pub proof fn stack_is_loaded_last(segments: Seq<ProgramHeader>, k: int)
    requires
        segments.len() <= usize::MAX,
        0 <= k < USER_STACK_PAGES,
    ensures
        ({
            let c = Cursor {
                seg: segments.len() as usize,
                page: (USER_STACK_BOTTOM + k * 4096) as u64,
            };
            next_page(segments, c) == if k + 1 < USER_STACK_PAGES {
                Some(
                    Cursor {
                        seg: segments.len() as usize,
                        page: (USER_STACK_BOTTOM + (k + 1) * 4096) as u64,
                    },
                )
            } else {
                None
            }
        }),
{
}

/// What the check of the demonstration program found.
#[derive(Debug, Clone, Copy, PartialEq, Eq, Structural)]
pub struct LoadCheck {
    pub ok: bool,
}

/// Judges a loaded demonstration program by what was read back at its entry point, if that was
/// mapped: it must be the code in the file.
pub fn demo_load_elf(check: &mut LoadCheck, file: &[u8], read_back: &Option<Vec<u8>>)
    requires
        file@.len() >= DEMO_ENTRY_OFFSET + DEMO_CODE_LEN,
    ensures
        final(check).ok == (*read_back matches Some(code) && code@ == file@.subrange(120, 225)),
{
    check.ok = match read_back {
        Some(code) => same_bytes(code, &file[DEMO_ENTRY_OFFSET..DEMO_ENTRY_OFFSET + DEMO_CODE_LEN]),
        None => false,
    };
}

/// Whether the demonstration program was loaded as it should be.
pub fn elf_load_ok(check: &LoadCheck) -> (ok: bool)
    ensures
        ok == check.ok,
{
    check.ok
}

} // verus!
