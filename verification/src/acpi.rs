//! Discovery of the machine's cores in the ACPI tables.
//!
//! The tables are read on demand: [`discover`] works on the part of memory that has been read so
//! far and says what it misses. Read that, add it with [`Tables::load`] and call again.

use vstd::prelude::*;

use crate::bytes;
use crate::bytes::{read_le16, read_le32, read_le64, same_bytes, to_vec};

pub mod laws;

verus! {

/// A core of the machine.
#[derive(Debug, Clone, Copy, PartialEq, Eq, Structural)]
pub struct CpuCore {
    /// The id of its Local APIC, by which it is addressed.
    pub apic_id: u8,
    /// Whether it is the one that was running at power-on.
    pub is_bsp: bool,
}

/// The length of the header that starts every table.
pub const HEADER_LEN: usize = 36;

/// The longest table that is read.
pub const MAX_TABLE_LEN: u32 = 0x1_0000;

/// How much of low memory the search for the root pointer may look at.
pub const LOW_MEMORY: usize = 0x10_0400;

/// Entry type: a core with its Local APIC.
pub const MADT_LOCAL_APIC: u8 = 0;

/// The signature of the root pointer.
pub open spec fn rsdp_signature() -> Seq<u8> {
    seq![0x52u8, 0x53, 0x44, 0x20, 0x50, 0x54, 0x52, 0x20]
}

/// The signature of the table of interrupt controllers.
pub open spec fn madt_signature() -> Seq<u8> {
    seq![0x41u8, 0x50, 0x49, 0x43]
}

/// The sum of the first `n` bytes.
pub open spec fn byte_sum(s: Seq<u8>, n: int) -> nat
    decreases n,
{
    if n <= 0 {
        0
    } else {
        byte_sum(s, n - 1) + s[n - 1] as nat
    }
}

/// Whether the bytes sum to 0 modulo 256.
pub open spec fn sums_to_zero(s: Seq<u8>) -> bool {
    byte_sum(s, s.len() as int) % 256 == 0
}

/// Whether the bytes sum to 0 modulo 256.
fn checksum_ok(buf: &[u8]) -> (ok: bool)
    ensures
        ok == sums_to_zero(buf@),
{
    let mut sum: u8 = 0;
    let mut i: usize = 0;
    while i < buf.len()
        invariant
            i <= buf@.len(),
            sum == byte_sum(buf@, i as int) % 256,
        decreases buf@.len() - i,
    {
        sum = sum.wrapping_add(buf[i]);
        i = i + 1;
    }
    sum == 0
}

// The root pointer.

/// Whether a root pointer is at `addr` of low memory.
pub open spec fn is_rsdp(low: Seq<u8>, addr: int) -> bool {
    low.subrange(addr, addr + 8) == rsdp_signature() && sums_to_zero(
        low.subrange(addr, addr + 20),
    )
}

/// The first root pointer on a 16-byte boundary from `addr` on that begins at least 8 bytes before
/// `end`.
pub open spec fn rsdp_from(low: Seq<u8>, addr: int, end: int) -> Option<u64>
    decreases end - addr + 16,
{
    if addr + 8 > end {
        None
    } else if is_rsdp(low, addr) {
        Some(addr as u64)
    } else {
        rsdp_from(low, addr + 16, end)
    }
}

/// The start of the extended BIOS data area, from its segment at 0x40E.
pub open spec fn ebda(low: Seq<u8>) -> int {
    bytes::le16(low, 0x40E) * 16
}

/// The address of the root pointer: in the first KiB of the extended BIOS data area, or else in
/// the ROM region below 1 MiB.
pub open spec fn rsdp_in(low: Seq<u8>) -> Option<u64> {
    match rsdp_from(low, ebda(low), ebda(low) + 1024) {
        Some(a) => Some(a),
        None => rsdp_from(low, 0xE_0000, 0x10_0000),
    }
}

/// Looks for a root pointer from `start` on.
fn scan(low: &[u8], start: usize, end: usize) -> (found: Option<u64>)
    requires
        start % 16 == 0,
        end <= 0x10_03F0,
        low@.len() >= LOW_MEMORY,
    ensures
        found == rsdp_from(low@, start as int, end as int),
{
    let sig: [u8; 8] = [0x52, 0x53, 0x44, 0x20, 0x50, 0x54, 0x52, 0x20];
    assert(sig@ =~= rsdp_signature());
    let mut addr: usize = start;
    assert(start < LOW_MEMORY || start + 8 > end);
    while addr <= 0x10_03F0 && addr + 8 <= end
        invariant
            end <= 0x10_03F0,
            low@.len() >= LOW_MEMORY,
            addr % 16 == 0,
            sig@ == rsdp_signature(),
            rsdp_from(low@, start as int, end as int) == rsdp_from(
                low@,
                addr as int,
                end as int,
            ),
        decreases 0x10_0400 - addr,
    {
        let here: &[u8] = vstd::slice::slice_subrange(low, addr, addr + 8);
        if same_bytes(here, &sig) {
            let whole: &[u8] = vstd::slice::slice_subrange(low, addr, addr + 20);
            if checksum_ok(whole) {
                return Some(addr as u64);
            }
        }
        addr = addr + 16;
    }
    None
}

/// Looks for the root pointer in low memory.
pub fn find_rsdp(low: &[u8]) -> (found: Option<u64>)
    requires
        low@.len() >= LOW_MEMORY,
    ensures
        found == rsdp_in(low@),
{
    let segment: u16 = read_le16(low, 0x40E);
    let start: usize = segment as usize * 16;
    match scan(low, start, start + 1024) {
        Some(a) => Some(a),
        None => scan(low, 0xE_0000, 0x10_0000),
    }
}

// Reading tables.

/// A part of memory that has been read.
pub struct Chunk {
    pub phys: u64,
    pub data: Vec<u8>,
}

/// The parts of memory that have been read.
pub struct Tables {
    chunks: Vec<Chunk>,
}

/// A part of memory that has not been read yet.
#[derive(Debug, Clone, Copy, PartialEq, Eq, Structural)]
pub struct Missing {
    pub phys: u64,
    pub len: usize,
}

/// Parts of memory with their addresses.
pub open spec fn chunk_views(chunks: Seq<Chunk>) -> Seq<(u64, Seq<u8>)> {
    Seq::new(chunks.len(), |i: int| (chunks[i].phys, chunks[i].data@))
}

impl View for Tables {
    type V = Seq<(u64, Seq<u8>)>;

    closed spec fn view(&self) -> Seq<(u64, Seq<u8>)> {
        chunk_views(self.chunks@)
    }
}

/// The first part from `k` on at this address with this length.
pub open spec fn part_from(parts: Seq<(u64, Seq<u8>)>, phys: u64, len: nat, k: int) -> Option<
    Seq<u8>,
>
    decreases parts.len() - k,
{
    if k >= parts.len() {
        None
    } else if parts[k].0 == phys && parts[k].1.len() == len {
        Some(parts[k].1)
    } else {
        part_from(parts, phys, len, k + 1)
    }
}

/// The bytes at this address, as far as they have been read.
pub open spec fn part(parts: Seq<(u64, Seq<u8>)>, phys: u64, len: nat) -> Result<Seq<u8>, Missing> {
    match part_from(parts, phys, len, 0) {
        Some(data) => Ok(data),
        None => Err(Missing { phys, len: len as usize }),
    }
}

impl Tables {
    /// Nothing has been read.
    pub fn new() -> (t: Tables)
        ensures
            t@ == Seq::<(u64, Seq<u8>)>::empty(),
    {
        let t = Tables { chunks: Vec::new() };
        assert(t@ =~= Seq::<(u64, Seq<u8>)>::empty());
        t
    }

    /// Adds a part of memory that has been read.
    pub fn load(&mut self, phys: u64, data: Vec<u8>)
        ensures
            final(self)@ == old(self)@.push((phys, data@)),
    {
        self.chunks.push(Chunk { phys, data });
        assert(self@ =~= old(self)@.push((phys, data@)));
    }

    /// The bytes at this address.
    fn read_phys(&self, phys: u64, len: usize) -> (r: Result<&Vec<u8>, Missing>)
        ensures
            match (r, part(self@, phys, len as nat)) {
                (Ok(data), Ok(bytes)) => data@ == bytes && bytes.len() == len,
                (Err(a), Err(b)) => a == b,
                _ => false,
            },
    {
        let mut i: usize = 0;
        while i < self.chunks.len()
            invariant
                i <= self.chunks@.len(),
                part_from(self@, phys, len as nat, 0) == part_from(
                    self@,
                    phys,
                    len as nat,
                    i as int,
                ),
            decreases self.chunks@.len() - i,
        {
            assert(self@[i as int] == (self.chunks@[i as int].phys, self.chunks@[i as int].data@));
            if self.chunks[i].phys == phys && self.chunks[i].data.len() == len {
                return Ok(&self.chunks[i].data);
            }
            i = i + 1;
        }
        Err(Missing { phys, len })
    }
}

/// A table at this address; `None` if the length in its header is implausible.
pub open spec fn table_at(parts: Seq<(u64, Seq<u8>)>, phys: u64) -> Result<
    Option<Seq<u8>>,
    Missing,
> {
    match part(parts, phys, 36) {
        Ok(header) => {
            let length = bytes::le32(header, 4);
            if length < 36 || length > MAX_TABLE_LEN {
                Ok(None)
            } else {
                match part(parts, phys, length as nat) {
                    Ok(data) => Ok(Some(data)),
                    Err(m) => Err(m),
                }
            }
        },
        Err(m) => Err(m),
    }
}

/// A table, over sequences.
pub open spec fn table_view(r: Result<Option<Vec<u8>>, Missing>) -> Result<Option<Seq<u8>>, Missing> {
    match r {
        Ok(Some(t)) => Ok(Some(t@)),
        Ok(None) => Ok(None),
        Err(m) => Err(m),
    }
}

/// Reads a table.
fn read_table(t: &Tables, phys: u64) -> (r: Result<Option<Vec<u8>>, Missing>)
    ensures
        table_view(r) == table_at(t@, phys),
        r matches Ok(Some(table)) ==> 36 <= table@.len() <= MAX_TABLE_LEN,
{
    let length: u32 = match t.read_phys(phys, HEADER_LEN) {
        Ok(header) => read_le32(header, 4),
        Err(m) => {
            return Err(m);
        },
    };
    if length < 36 || length > MAX_TABLE_LEN {
        return Ok(None);
    }
    match t.read_phys(phys, length as usize) {
        Ok(data) => Ok(Some(to_vec(data))),
        Err(m) => Err(m),
    }
}

/// The address of the root table and the size of its pointers: the 64-bit table where there is
/// one, else the 32-bit one.
pub open spec fn root_table(rsdp: Seq<u8>) -> (u64, nat) {
    if rsdp[15] >= 2 && bytes::le64(rsdp, 24) != 0 {
        (bytes::le64(rsdp, 24), 8)
    } else {
        (bytes::le32(rsdp, 16) as u64, 4)
    }
}

/// The pointer at position `i` of a root table.
pub open spec fn pointer(sdt: Seq<u8>, size: nat, i: int) -> u64 {
    if size == 8 {
        bytes::le64(sdt, 36 + 8 * i)
    } else {
        bytes::le32(sdt, 36 + 4 * i) as u64
    }
}

/// The first table of interrupt controllers that a root table names from position `i` on.
pub open spec fn madt_from(parts: Seq<(u64, Seq<u8>)>, sdt: Seq<u8>, size: nat, i: int) -> Result<
    Option<Seq<u8>>,
    Missing,
>
    decreases (sdt.len() - 36) / size as int - i,
{
    if i >= (sdt.len() - 36) / size as int {
        Ok(None)
    } else {
        match part(parts, pointer(sdt, size, i), 4) {
            Ok(sig) => if sig == madt_signature() {
                table_at(parts, pointer(sdt, size, i))
            } else {
                madt_from(parts, sdt, size, i + 1)
            },
            Err(m) => Err(m),
        }
    }
}

/// The table of interrupt controllers that the root pointer at `rsdp` leads to.
pub open spec fn madt_at(parts: Seq<(u64, Seq<u8>)>, rsdp: u64) -> Result<Option<Seq<u8>>, Missing> {
    match part(parts, rsdp, 36) {
        Ok(root) => {
            let (phys, size) = root_table(root);
            match table_at(parts, phys) {
                Ok(Some(sdt)) => if sums_to_zero(sdt) {
                    madt_from(parts, sdt, size, 0)
                } else {
                    Ok(None)
                },
                Ok(None) => Ok(None),
                Err(m) => Err(m),
            }
        },
        Err(m) => Err(m),
    }
}

/// Looks for the table of interrupt controllers among those that a root table names.
fn find_in_sdt(t: &Tables, sdt: &Vec<u8>, size: usize) -> (r: Result<Option<Vec<u8>>, Missing>)
    requires
        size == 4 || size == 8,
        36 <= sdt@.len() <= MAX_TABLE_LEN,
    ensures
        table_view(r) == madt_from(t@, sdt@, size as nat, 0),
{
    let sig: [u8; 4] = [0x41, 0x50, 0x49, 0x43];
    assert(sig@ =~= madt_signature());
    let entries: usize = (sdt.len() - 36) / size;
    let mut i: usize = 0;
    while i < entries
        invariant
            i <= entries,
            size == 4 || size == 8,
            36 <= sdt@.len() <= MAX_TABLE_LEN,
            entries == (sdt@.len() - 36) / size as int,
            sig@ == madt_signature(),
            madt_from(t@, sdt@, size as nat, 0) == madt_from(t@, sdt@, size as nat, i as int),
        decreases entries - i,
    {
        let phys: u64 = if size == 8 {
            read_le64(sdt, 36 + 8 * i)
        } else {
            read_le32(sdt, 36 + 4 * i) as u64
        };
        assert(phys == pointer(sdt@, size as nat, i as int));
        match t.read_phys(phys, 4) {
            Ok(found) => {
                if same_bytes(found, &sig) {
                    return read_table(t, phys);
                }
            },
            Err(m) => {
                return Err(m);
            },
        }
        i = i + 1;
    }
    Ok(None)
}

/// Follows the root pointer to the table of interrupt controllers.
pub fn find_madt(t: &Tables, rsdp: u64) -> (r: Result<Option<Vec<u8>>, Missing>)
    ensures
        table_view(r) == madt_at(t@, rsdp),
{
    let (phys, size): (u64, usize) = match t.read_phys(rsdp, HEADER_LEN) {
        Ok(root) => {
            if root[15] >= 2 {
                let xsdt: u64 = read_le64(root, 24);
                if xsdt == 0 {
                    (read_le32(root, 16) as u64, 4)
                } else {
                    (xsdt, 8)
                }
            } else {
                (read_le32(root, 16) as u64, 4)
            }
        },
        Err(m) => {
            return Err(m);
        },
    };
    match read_table(t, phys) {
        Ok(Some(sdt)) => {
            if checksum_ok(&sdt) {
                find_in_sdt(t, &sdt, size)
            } else {
                Ok(None)
            }
        },
        Ok(None) => Ok(None),
        Err(m) => Err(m),
    }
}

// Cores.

/// Whether a core can be used: it is enabled, or can be.
pub open spec fn usable(flags: u32) -> bool {
    flags % 4 != 0
}

/// The core that the entry at `off` stands for, if it stands for one that can be used.
pub open spec fn core_at(madt: Seq<u8>, off: int, bsp: u8) -> Option<CpuCore> {
    if madt[off] == MADT_LOCAL_APIC && madt[off + 1] >= 8 && usable(bytes::le32(madt, off + 4)) {
        Some(CpuCore { apic_id: madt[off + 3], is_bsp: madt[off + 3] == bsp })
    } else {
        None
    }
}

/// The cores in the entries from `off` on. An entry whose length is too small, or leads beyond
/// the table, ends the list.
pub open spec fn cores_from(madt: Seq<u8>, off: int, bsp: u8) -> Seq<CpuCore>
    decreases madt.len() - off,
{
    if off < 0 || off + 2 > madt.len() || madt[off + 1] < 2 || off + madt[off + 1] > madt.len() {
        Seq::empty()
    } else {
        match core_at(madt, off, bsp) {
            Some(core) => seq![core] + cores_from(madt, off + madt[off + 1], bsp),
            None => cores_from(madt, off + madt[off + 1], bsp),
        }
    }
}

/// The cores that a table of interrupt controllers lists, with the one with id `bsp` marked.
pub fn parse_madt(madt: &[u8], bsp: u8) -> (cores: Vec<CpuCore>)
    ensures
        cores@ == cores_from(madt@, 44, bsp),
{
    let mut cores: Vec<CpuCore> = Vec::new();
    let mut off: usize = 44;
    assert(cores@ + cores_from(madt@, 44, bsp) =~= cores_from(madt@, 44, bsp));
    while off < madt.len() && madt.len() - off >= 2
        invariant
            off >= 44,
            cores@ + cores_from(madt@, off as int, bsp) == cores_from(madt@, 44, bsp),
        decreases madt@.len() - off,
    {
        let len: usize = madt[off + 1] as usize;
        if len < 2 || len > madt.len() - off {
            assert(cores@ + cores_from(madt@, off as int, bsp) =~= cores@);
            return cores;
        }
        let ghost rest = cores_from(madt@, off + len, bsp);
        if madt[off] == MADT_LOCAL_APIC && len >= 8 {
            let apic_id: u8 = madt[off + 3];
            let flags: u32 = read_le32(madt, off + 4);
            if flags % 4 != 0 {
                let core = CpuCore { apic_id, is_bsp: apic_id == bsp };
                assert(cores@.push(core) + rest =~= cores@ + (seq![core] + rest));
                cores.push(core);
            }
        }
        off = off + len;
    }
    assert(cores@ + cores_from(madt@, off as int, bsp) =~= cores@);
    cores
}

/// The cores of the machine.
pub struct Cpus {
    cores: Vec<CpuCore>,
}

impl View for Cpus {
    type V = Seq<CpuCore>;

    closed spec fn view(&self) -> Seq<CpuCore> {
        self.cores@
    }
}

/// The cores, or only the one that asks where none are listed.
pub open spec fn or_bsp_only(cores: Seq<CpuCore>, bsp: u8) -> Seq<CpuCore> {
    if cores.len() == 0 {
        seq![CpuCore { apic_id: bsp, is_bsp: true }]
    } else {
        cores
    }
}

/// The cores of the machine, from low memory and the tables.
pub open spec fn discovered(low: Seq<u8>, parts: Seq<(u64, Seq<u8>)>, bsp: u8) -> Result<
    Seq<CpuCore>,
    Missing,
> {
    match rsdp_in(low) {
        Some(rsdp) => match madt_at(parts, rsdp) {
            Ok(Some(madt)) => Ok(or_bsp_only(cores_from(madt, 44, bsp), bsp)),
            Ok(None) => Ok(or_bsp_only(Seq::empty(), bsp)),
            Err(m) => Err(m),
        },
        None => Ok(or_bsp_only(Seq::empty(), bsp)),
    }
}

/// Discovers the cores of the machine; `bsp` is the APIC id of the one that asks. If the tables
/// cannot be understood, only that one is known.
pub fn discover(low: &[u8], t: &Tables, bsp: u8) -> (r: Result<Cpus, Missing>)
    requires
        low@.len() >= LOW_MEMORY,
    ensures
        match (r, discovered(low@, t@, bsp)) {
            (Ok(cpus), Ok(cores)) => cpus@ == cores,
            (Err(a), Err(b)) => a == b,
            _ => false,
        },
{
    let mut cores: Vec<CpuCore> = Vec::new();
    if let Some(rsdp) = find_rsdp(low) {
        match find_madt(t, rsdp) {
            Ok(Some(madt)) => {
                cores = parse_madt(&madt, bsp);
            },
            Ok(None) => {},
            Err(m) => {
                return Err(m);
            },
        }
    }
    if cores.len() == 0 {
        cores.push(CpuCore { apic_id: bsp, is_bsp: true });
        assert(cores@ =~= or_bsp_only(Seq::empty(), bsp));
    }
    Ok(Cpus { cores })
}

/// How many cores the machine has.
pub fn cpu_count(cpus: &Cpus) -> (n: usize)
    ensures
        n == cpus@.len(),
{
    cpus.cores.len()
}

/// The cores, in the order of discovery.
pub fn cpus(known: &Cpus) -> (cores: Vec<CpuCore>)
    ensures
        cores@ == known@,
{
    let mut out: Vec<CpuCore> = Vec::new();
    let mut i: usize = 0;
    while i < known.cores.len()
        invariant
            i <= known.cores@.len(),
            out@ == known.cores@.take(i as int),
        decreases known.cores@.len() - i,
    {
        out.push(known.cores[i]);
        assert(out@ =~= known.cores@.take(i + 1));
        i = i + 1;
    }
    assert(out@ =~= known@);
    out
}

/// The first bootstrap processor from `k` on; 0 if there is none.
pub open spec fn bsp_from(cores: Seq<CpuCore>, k: int) -> u8
    decreases cores.len() - k,
{
    if k >= cores.len() {
        0
    } else if cores[k].is_bsp {
        cores[k].apic_id
    } else {
        bsp_from(cores, k + 1)
    }
}

/// The APIC id of the core that was running at power-on.
pub fn bsp_apic_id(cpus: &Cpus) -> (id: u8)
    ensures
        id == bsp_from(cpus@, 0),
{
    let mut i: usize = 0;
    while i < cpus.cores.len()
        invariant
            i <= cpus.cores@.len(),
            bsp_from(cpus@, 0) == bsp_from(cpus@, i as int),
        decreases cpus.cores@.len() - i,
    {
        if cpus.cores[i].is_bsp {
            return cpus.cores[i].apic_id;
        }
        i = i + 1;
    }
    0
}

/// The cores that wait to be woken.
pub open spec fn is_ap() -> spec_fn(CpuCore) -> bool {
    |c: CpuCore| !c.is_bsp
}

/// All cores but the one that was running at power-on.
pub fn application_processors(cpus: &Cpus) -> (aps: Vec<CpuCore>)
    ensures
        aps@ == cpus@.filter(is_ap()),
{
    let mut aps: Vec<CpuCore> = Vec::new();
    let mut i: usize = 0;
    assert(cpus@.take(0).filter(is_ap()) =~= Seq::empty()) by {
        reveal(Seq::filter);
    }
    while i < cpus.cores.len()
        invariant
            i <= cpus.cores@.len(),
            aps@ == cpus@.take(i as int).filter(is_ap()),
        decreases cpus.cores@.len() - i,
    {
        proof {
            reveal(Seq::filter);
            assert(cpus@.take(i + 1).drop_last() =~= cpus@.take(i as int));
            assert(cpus@.take(i + 1).last() == cpus@[i as int]);
        }
        if !cpus.cores[i].is_bsp {
            aps.push(cpus.cores[i]);
        }
        i = i + 1;
    }
    assert(cpus@.take(i as int) =~= cpus@);
    aps
}

/// There is always a core.
pub proof fn discovery_finds_a_core(low: Seq<u8>, parts: Seq<(u64, Seq<u8>)>, bsp: u8)
    ensures
        discovered(low, parts, bsp) matches Ok(cores) ==> cores.len() > 0,
{
}

/// A core is marked as the one that asks just if it has its APIC id.
pub proof fn bootstrap_core_is_marked(madt: Seq<u8>, off: int, bsp: u8, i: int)
    requires
        0 <= i < cores_from(madt, off, bsp).len(),
    ensures
        cores_from(madt, off, bsp)[i].is_bsp == (cores_from(madt, off, bsp)[i].apic_id == bsp),
    decreases madt.len() - off,
{
    let rest = cores_from(madt, off + madt[off + 1], bsp);
    match core_at(madt, off, bsp) {
        Some(core) => {
            if i > 0 {
                bootstrap_core_is_marked(madt, off + madt[off + 1], bsp, i - 1);
                assert((seq![core] + rest)[i] == rest[i - 1]);
            }
        },
        None => {
            bootstrap_core_is_marked(madt, off + madt[off + 1], bsp, i);
        },
    }
}

/// Reading what is missing makes progress: the same is not missing again.
pub proof fn missing_part_is_found(parts: Seq<(u64, Seq<u8>)>, m: Missing, data: Seq<u8>)
    requires
        part(parts, m.phys, m.len as nat) == Err::<Seq<u8>, Missing>(m),
        data.len() == m.len,
    ensures
        part(parts.push((m.phys, data)), m.phys, m.len as nat) == Ok::<Seq<u8>, Missing>(data),
{
    lemma_part(parts, m, data, 0);
}

/// The search from `k` on finds the new part.
proof fn lemma_part(parts: Seq<(u64, Seq<u8>)>, m: Missing, data: Seq<u8>, k: int)
    requires
        part_from(parts, m.phys, m.len as nat, k) is None,
        data.len() == m.len,
        0 <= k <= parts.len(),
    ensures
        part_from(parts.push((m.phys, data)), m.phys, m.len as nat, k) == Some(data),
    decreases parts.len() - k,
{
    let more = parts.push((m.phys, data));
    if k < parts.len() {
        assert(more[k] == parts[k]);
        lemma_part(parts, m, data, k + 1);
    } else {
        assert(more[k] == (m.phys, data));
    }
}

} // verus!
