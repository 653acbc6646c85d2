//! Parsing of ELF64 executables: the file header and the program headers of the segments that
//! have to be placed in memory.

use vstd::prelude::*;

use crate::bytes;
use crate::bytes::{read_le16, read_le32, read_le64};

verus! {

/// The type of a program header of a loadable segment.
pub const PT_LOAD: u32 = 1;

/// Flag of an executable segment.
pub const PF_X: u32 = 1;

/// Flag of a writable segment.
pub const PF_W: u32 = 2;

/// Flag of a readable segment.
pub const PF_R: u32 = 4;

/// Why an executable could not be parsed or loaded.
#[derive(Debug, Clone, Copy, PartialEq, Eq, Structural)]
pub enum ElfError {
    /// The file is shorter than a file header.
    TooSmall,
    /// The file does not start with the ELF magic.
    BadMagic,
    /// The file is not a 64-bit ELF.
    NotElf64,
    /// The file is not little-endian.
    NotLittleEndian,
    /// The file is not for x86-64.
    NotX86_64,
    /// The file is not a static executable.
    NotExecutable,
    /// The table of program headers makes no sense or runs past the file.
    BadProgramHeaders,
    /// The contents of a segment run past the file.
    BadSegment,
    /// No physical frame is left.
    OutOfFrames,
    /// A page could not be mapped.
    MapFailed,
}

/// Where the program headers start.
pub open spec fn table_start(s: Seq<u8>) -> u64 {
    bytes::le64(s, 32)
}

/// How far apart the program headers are.
pub open spec fn header_size(s: Seq<u8>) -> u16 {
    bytes::le16(s, 54)
}

/// How many program headers there are.
pub open spec fn header_count(s: Seq<u8>) -> u16 {
    bytes::le16(s, 56)
}

/// What is wrong with a file, in the order in which it is looked for.
pub open spec fn fault(s: Seq<u8>) -> Option<ElfError> {
    if s.len() < 64 {
        Some(ElfError::TooSmall)
    } else if s.subrange(0, 4) != seq![0x7Fu8, 0x45u8, 0x4Cu8, 0x46u8] {
        Some(ElfError::BadMagic)
    } else if s[4] != 2 {
        Some(ElfError::NotElf64)
    } else if s[5] != 1 {
        Some(ElfError::NotLittleEndian)
    } else if bytes::le16(s, 18) != 0x3E {
        Some(ElfError::NotX86_64)
    } else if bytes::le16(s, 16) != 2 {
        Some(ElfError::NotExecutable)
    } else if header_size(s) < 56 || table_start(s) + header_size(s) * header_count(s) > s.len() {
        Some(ElfError::BadProgramHeaders)
    } else {
        None
    }
}

/// A loadable segment: `file_size` bytes from `file_offset` on go to `vaddr`, followed by zeros
/// up to `mem_size`.
#[derive(Debug, Clone, Copy, PartialEq, Eq, Structural)]
pub struct ProgramHeader {
    pub flags: u32,
    pub file_offset: u64,
    pub vaddr: u64,
    pub file_size: u64,
    pub mem_size: u64,
}

/// Where program header `i` starts.
pub open spec fn header_at(s: Seq<u8>, i: int) -> int {
    table_start(s) + i * header_size(s)
}

/// The segment that program header `i` describes.
pub open spec fn segment_at(s: Seq<u8>, i: int) -> ProgramHeader {
    let at = header_at(s, i);
    ProgramHeader {
        flags: bytes::le32(s, at + 4),
        file_offset: bytes::le64(s, at + 8),
        vaddr: bytes::le64(s, at + 16),
        file_size: bytes::le64(s, at + 32),
        mem_size: bytes::le64(s, at + 40),
    }
}

/// The loadable segments among the first `n` program headers.
pub open spec fn segments_before(s: Seq<u8>, n: int) -> Seq<ProgramHeader>
    decreases n,
{
    if n <= 0 {
        Seq::empty()
    } else if bytes::le32(s, header_at(s, n - 1)) == PT_LOAD {
        segments_before(s, n - 1).push(segment_at(s, n - 1))
    } else {
        segments_before(s, n - 1)
    }
}

/// The loadable segments of a file.
pub open spec fn segments(s: Seq<u8>) -> Seq<ProgramHeader> {
    segments_before(s, header_count(s) as int)
}

/// The address of a program's first instruction.
pub open spec fn entry_point(s: Seq<u8>) -> u64 {
    bytes::le64(s, 24)
}

/// An executable that has been found free of faults.
pub struct ElfFile<'a> {
    bytes: &'a [u8],
}

impl<'a> ElfFile<'a> {
    /// The bytes of the file.
    pub closed spec fn contents(&self) -> Seq<u8> {
        self.bytes@
    }

    /// What holds of every parsed file.
    pub open spec fn ok(&self) -> bool {
        fault(self.contents()) is None
    }

    /// Checks that `bytes` are an executable for x86-64 and that its program headers lie within
    /// it.
    pub fn parse(bytes: &'a [u8]) -> (r: Result<ElfFile<'a>, ElfError>)
        ensures
            match r {
                Ok(elf) => elf.ok() && elf.contents() == bytes@,
                Err(e) => fault(bytes@) == Some(e),
            },
    {
        if bytes.len() < 64 {
            return Err(ElfError::TooSmall);
        }
        if bytes[0] != 0x7F || bytes[1] != 0x45 || bytes[2] != 0x4C || bytes[3] != 0x46 {
            assert(bytes@.subrange(0, 4)[0] == bytes@[0] && bytes@.subrange(0, 4)[1] == bytes@[1]
                && bytes@.subrange(0, 4)[2] == bytes@[2] && bytes@.subrange(0, 4)[3] == bytes@[3]);
            return Err(ElfError::BadMagic);
        }
        assert(bytes@.subrange(0, 4) =~= seq![0x7Fu8, 0x45u8, 0x4Cu8, 0x46u8]);
        if bytes[4] != 2 {
            return Err(ElfError::NotElf64);
        }
        if bytes[5] != 1 {
            return Err(ElfError::NotLittleEndian);
        }
        if read_le16(bytes, 18) != 0x3E {
            return Err(ElfError::NotX86_64);
        }
        if read_le16(bytes, 16) != 2 {
            return Err(ElfError::NotExecutable);
        }
        let start: u64 = read_le64(bytes, 32);
        let size: u16 = read_le16(bytes, 54);
        let count: u16 = read_le16(bytes, 56);
        if size < 56 {
            return Err(ElfError::BadProgramHeaders);
        }
        assert(0 <= size * count <= 0xFFFF * 0xFFFF) by (nonlinear_arith)
            requires
                size <= 0xFFFF,
                count <= 0xFFFF,
        ;
        let table: u64 = size as u64 * count as u64;
        let length: u64 = bytes.len() as u64;
        if table > length || start > length - table {
            return Err(ElfError::BadProgramHeaders);
        }
        Ok(ElfFile { bytes })
    }

    /// The bytes of the file.
    pub fn bytes(&self) -> (b: &'a [u8])
        ensures
            b@ == self.contents(),
    {
        self.bytes
    }

    /// The address of the program's first instruction.
    pub fn entry(&self) -> (entry: u64)
        requires
            self.ok(),
        ensures
            entry == entry_point(self.contents()),
    {
        read_le64(self.bytes, 24)
    }

    /// The segments to place in memory, in the order of the file.
    pub fn load_segments(&self) -> (out: Vec<ProgramHeader>)
        requires
            self.ok(),
        ensures
            out@ == segments(self.contents()),
    {
        let ghost s = self.contents();
        assert(0 <= header_size(s) * header_count(s)) by (nonlinear_arith);
        assert(table_start(s) <= self.bytes.len());
        let start: usize = read_le64(self.bytes, 32) as usize;
        let size: usize = read_le16(self.bytes, 54) as usize;
        let count: usize = read_le16(self.bytes, 56) as usize;
        let mut out: Vec<ProgramHeader> = Vec::new();
        let mut i: usize = 0;
        let mut at: usize = start;
        assert(0 * header_size(s) == 0);
        while i < count
            invariant
                s == self.contents(),
                self.ok(),
                size == header_size(s),
                count == header_count(s),
                i <= count,
                at == header_at(s, i as int),
                at <= s.len(),
                out@ == segments_before(s, i as int),
            decreases count - i,
        {
            proof {
                lemma_header_fits(s, i as int);
            }
            assert(at + 56 <= self.bytes.len());
            if read_le32(self.bytes, at) == PT_LOAD {
                out.push(
                    ProgramHeader {
                        flags: read_le32(self.bytes, at + 4),
                        file_offset: read_le64(self.bytes, at + 8),
                        vaddr: read_le64(self.bytes, at + 16),
                        file_size: read_le64(self.bytes, at + 32),
                        mem_size: read_le64(self.bytes, at + 40),
                    },
                );
            }
            at = at + size;
            i = i + 1;
        }
        out
    }
}

/// A program header lies within a file free of faults, and so does where the next would start.
proof fn lemma_header_fits(s: Seq<u8>, i: int)
    requires
        fault(s) is None,
        0 <= i < header_count(s),
    ensures
        header_at(s, i + 1) == header_at(s, i) + header_size(s),
        0 <= header_at(s, i),
        header_at(s, i) + 56 <= header_at(s, i + 1) <= s.len(),
{
    let size = header_size(s) as int;
    let count = header_count(s) as int;
    assert((i + 1) * size == i * size + size) by (nonlinear_arith);
    assert((i + 1) * size <= size * count) by (nonlinear_arith)
        requires
            i + 1 <= count,
            size >= 0,
    ;
    assert(0 <= i * size) by (nonlinear_arith)
        requires
            0 <= i,
            size >= 0,
    ;
}

impl ProgramHeader {
    /// Whether the segment may be executed.
    pub fn is_executable(&self) -> (yes: bool)
        ensures
            yes == (self.flags & PF_X != 0),
    {
        self.flags & PF_X != 0
    }

    /// Whether the segment may be written.
    pub fn is_writable(&self) -> (yes: bool)
        ensures
            yes == (self.flags & PF_W != 0),
    {
        self.flags & PF_W != 0
    }

    /// Whether the segment may be read.
    pub fn is_readable(&self) -> (yes: bool)
        ensures
            yes == (self.flags & PF_R != 0),
    {
        self.flags & PF_R != 0
    }
}

/// Whether the bits of a segment's flags mean what they say: for every combination of the three.
pub proof fn flags_are_independent(r: bool, w: bool, x: bool)
    ensures
        ({
            let flags = (if r {
                PF_R
            } else {
                0
            }) | (if w {
                PF_W
            } else {
                0
            }) | (if x {
                PF_X
            } else {
                0
            });
            &&& (flags & PF_R != 0) == r
            &&& (flags & PF_W != 0) == w
            &&& (flags & PF_X != 0) == x
        }),
{
    let fr: u32 = if r {
        4
    } else {
        0
    };
    let fw: u32 = if w {
        2
    } else {
        0
    };
    let fx: u32 = if x {
        1
    } else {
        0
    };
    let flags = fr | fw | fx;
    assert((flags & 4 != 0) == (fr == 4) && (flags & 2 != 0) == (fw == 2) && (flags & 1 != 0) == (fx
        == 1)) by (bit_vector)
        requires
            flags == fr | fw | fx,
            fr == 4u32 || fr == 0u32,
            fw == 2u32 || fw == 0u32,
            fx == 1u32 || fx == 0u32,
    ;
}

/// A program header, field by field as a file holds it.
pub struct HeaderFields {
    pub kind: u32,
    pub flags: u32,
    pub offset: u64,
    pub vaddr: u64,
    pub paddr: u64,
    pub file_size: u64,
    pub mem_size: u64,
    pub align: u64,
}

/// The 56 bytes of a program header.
pub open spec fn header_layout(h: HeaderFields) -> Seq<u8> {
    bytes::le32_bytes(h.kind) + bytes::le32_bytes(h.flags) + bytes::le64_bytes(h.offset)
        + bytes::le64_bytes(h.vaddr) + bytes::le64_bytes(h.paddr) + bytes::le64_bytes(h.file_size)
        + bytes::le64_bytes(h.mem_size) + bytes::le64_bytes(h.align)
}

/// The segments that program headers ask for: one for each of the loadable kind, in order, with
/// the size in the file and the size in memory each in its own right.
pub open spec fn asked_for(hs: Seq<HeaderFields>) -> Seq<ProgramHeader>
    decreases hs.len(),
{
    if hs.len() == 0 {
        Seq::empty()
    } else {
        let h = hs.last();
        let before = asked_for(hs.drop_last());
        if h.kind == 1 {
            before.push(
                ProgramHeader {
                    flags: h.flags,
                    file_offset: h.offset,
                    vaddr: h.vaddr,
                    file_size: h.file_size,
                    mem_size: h.mem_size,
                },
            )
        } else {
            before
        }
    }
}

proof fn lemma_read_le64(s: Seq<u8>, at: int, x: u64)
    requires
        0 <= at,
        at + 8 <= s.len(),
        s.subrange(at, at + 8) == bytes::le64_bytes(x),
    ensures
        bytes::le64(s, at) == x,
{
    let t = s.subrange(at, at + 8);
    assert(t[0] == s[at] && t[1] == s[at + 1] && t[2] == s[at + 2] && t[3] == s[at + 3] && t[4]
        == s[at + 4] && t[5] == s[at + 5] && t[6] == s[at + 6] && t[7] == s[at + 7]);
    bytes::le64_round_trip(x);
}

proof fn lemma_read_le32(s: Seq<u8>, at: int, x: u32)
    requires
        0 <= at,
        at + 4 <= s.len(),
        s.subrange(at, at + 4) == bytes::le32_bytes(x),
    ensures
        bytes::le32(s, at) == x,
{
    let t = s.subrange(at, at + 4);
    assert(t[0] == s[at] && t[1] == s[at + 1] && t[2] == s[at + 2] && t[3] == s[at + 3]);
}

proof fn lemma_read_le16(s: Seq<u8>, at: int, x: u16)
    requires
        0 <= at,
        at + 2 <= s.len(),
        s.subrange(at, at + 2) == bytes::le16_bytes(x),
    ensures
        bytes::le16(s, at) == x,
{
    let t = s.subrange(at, at + 2);
    assert(t[0] == s[at] && t[1] == s[at + 1]);
}

/// A program header that is laid out in a file reads as its fields.
proof fn lemma_header_read(s: Seq<u8>, at: int, h: HeaderFields)
    requires
        0 <= at,
        at + 56 <= s.len(),
        s.subrange(at, at + 56) == header_layout(h),
    ensures
        bytes::le32(s, at) == h.kind,
        bytes::le32(s, at + 4) == h.flags,
        bytes::le64(s, at + 8) == h.offset,
        bytes::le64(s, at + 16) == h.vaddr,
        bytes::le64(s, at + 32) == h.file_size,
        bytes::le64(s, at + 40) == h.mem_size,
{
    let l = s.subrange(at, at + 56);
    assert(s.subrange(at, at + 4) =~= l.subrange(0, 4));
    assert(l.subrange(0, 4) =~= bytes::le32_bytes(h.kind));
    lemma_read_le32(s, at, h.kind);
    assert(s.subrange(at + 4, at + 8) =~= l.subrange(4, 8));
    assert(l.subrange(4, 8) =~= bytes::le32_bytes(h.flags));
    lemma_read_le32(s, at + 4, h.flags);
    assert(s.subrange(at + 8, at + 16) =~= l.subrange(8, 16));
    assert(l.subrange(8, 16) =~= bytes::le64_bytes(h.offset));
    lemma_read_le64(s, at + 8, h.offset);
    assert(s.subrange(at + 16, at + 24) =~= l.subrange(16, 24));
    assert(l.subrange(16, 24) =~= bytes::le64_bytes(h.vaddr));
    lemma_read_le64(s, at + 16, h.vaddr);
    assert(s.subrange(at + 32, at + 40) =~= l.subrange(32, 40));
    assert(l.subrange(32, 40) =~= bytes::le64_bytes(h.file_size));
    lemma_read_le64(s, at + 32, h.file_size);
    assert(s.subrange(at + 40, at + 48) =~= l.subrange(40, 48));
    assert(l.subrange(40, 48) =~= bytes::le64_bytes(h.mem_size));
    lemma_read_le64(s, at + 40, h.mem_size);
}

/// The segments of a file are those that its program headers ask for, no matter where its table
/// starts and how far apart the headers are.
pub proof fn segments_are_asked_for(s: Seq<u8>, start: u64, size: u16, hs: Seq<HeaderFields>)
    requires
        fault(s) is None,
        hs.len() <= 0xFFFF,
        s.subrange(32, 40) == bytes::le64_bytes(start),
        s.subrange(54, 56) == bytes::le16_bytes(size),
        s.subrange(56, 58) == bytes::le16_bytes(hs.len() as u16),
        forall|i: int|
            0 <= i < hs.len() ==> s.subrange(start + i * size, start + i * size + 56)
                == header_layout(#[trigger] hs[i]),
    ensures
        segments(s) == asked_for(hs),
{
    lemma_read_le64(s, 32, start);
    lemma_read_le16(s, 54, size);
    lemma_read_le16(s, 56, hs.len() as u16);
    lemma_segments_before(s, start, size, hs, hs.len() as int);
    assert(hs.take(hs.len() as int) =~= hs);
}

proof fn lemma_segments_before(s: Seq<u8>, start: u64, size: u16, hs: Seq<HeaderFields>, n: int)
    requires
        fault(s) is None,
        table_start(s) == start,
        header_size(s) == size,
        header_count(s) == hs.len(),
        0 <= n <= hs.len(),
        forall|i: int|
            0 <= i < hs.len() ==> s.subrange(start + i * size, start + i * size + 56)
                == header_layout(#[trigger] hs[i]),
    ensures
        segments_before(s, n) == asked_for(hs.take(n)),
    decreases n,
{
    if n > 0 {
        lemma_segments_before(s, start, size, hs, n - 1);
        lemma_header_fits(s, n - 1);
        assert(hs.take(n).drop_last() =~= hs.take(n - 1));
        assert(hs.take(n).last() == hs[n - 1]);
        lemma_header_read(s, header_at(s, n - 1), hs[n - 1]);
    }
}

/// A file is accepted exactly if it is long enough for its header, begins with the magic, is a
/// 64-bit little-endian executable for x86-64, and holds its whole table of program headers,
/// each of which has room for the fields.
pub proof fn only_executables_are_accepted(s: Seq<u8>)
    ensures
        fault(s) is None <==> {
            &&& s.len() >= 64
            &&& s[0] == 0x7F && s[1] == 0x45 && s[2] == 0x4C && s[3] == 0x46
            &&& s[4] == 2
            &&& s[5] == 1
            &&& s[16] == 2 && s[17] == 0
            &&& s[18] == 0x3E && s[19] == 0
            &&& s[54] + s[55] * 256 >= 56
            &&& bytes::le64(s, 32) + (s[54] + s[55] * 256) * (s[56] + s[57] * 256) <= s.len()
        },
        s.len() >= 64 && fault(s) is None ==> entry_point(s) == bytes::le64(
            s.subrange(24, 32),
            0,
        ),
        s.len() < 64 ==> fault(s) == Some(ElfError::TooSmall),
{
    if s.len() >= 64 {
        let m = s.subrange(0, 4);
        assert(m[0] == s[0] && m[1] == s[1] && m[2] == s[2] && m[3] == s[3]);
        if s[0] == 0x7F && s[1] == 0x45 && s[2] == 0x4C && s[3] == 0x46 {
            assert(m =~= seq![0x7Fu8, 0x45u8, 0x4Cu8, 0x46u8]);
        }
        assert(header_size(s) * header_count(s) == (s[54] + s[55] * 256) * (s[56] + s[57] * 256));
    }
}

} // verus!
