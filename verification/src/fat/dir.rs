//! The root directory: finding, listing and writing its entries.

use vstd::prelude::*;

use crate::bytes;
use crate::bytes::{read_le16, read_le32, same_bytes};
use crate::disk;
use crate::disk::{Disk, DiskModel};
use crate::fat::bpb;
use crate::fat::bpb::{Bpb, FatError};
use crate::fat::name;
use crate::fat::name::{eq_ignore_case, short_name_to_string};
use crate::fs;
use crate::text::string_of;

verus! {

/// The first byte of an entry that is free, as are all after it.
pub const NAME_END: u8 = 0x00;

/// The first byte of an entry that is free.
pub const NAME_DELETED: u8 = 0xE5;

/// Attribute bit of the volume label.
pub const ATTR_VOLUME_ID: u8 = 0x08;

/// Attribute bit of a subdirectory.
pub const ATTR_DIRECTORY: u8 = 0x10;

/// The attributes of a fragment of a long name.
pub const ATTR_LONG_NAME: u8 = 0x0F;

/// The attributes of a file.
pub const ATTR_ARCHIVE: u8 = 0x20;

/// The sector with entry `k` of the root directory.
pub open spec fn slot_sector(b: Bpb, k: int) -> int {
    bpb::root_start(b) + k / 16
}

/// Where in that sector entry `k` stands.
pub open spec fn slot_offset(k: int) -> int {
    k % 16 * 32
}

/// How many entries the root directory has room for.
pub open spec fn slots(b: Bpb) -> int {
    bpb::root_sectors(b) * 16
}

/// Entry `k` of the root directory, 32 bytes.
pub open spec fn entry_at(d: DiskModel, b: Bpb, k: int) -> Result<Seq<u8>, FatError> {
    match disk::sector(d, slot_sector(b, k) as u32) {
        Ok(s) => Ok(s.subrange(slot_offset(k), slot_offset(k) + 32)),
        Err(e) => Err(bpb::sector_error(e)),
    }
}

/// Whether an entry is in use.
pub open spec fn in_use(e: Seq<u8>) -> bool {
    e[0] != NAME_END && e[0] != NAME_DELETED
}

/// Whether an entry is that of a file or subdirectory, not of a long name or the volume label.
pub open spec fn is_real(e: Seq<u8>) -> bool {
    e[11] != ATTR_LONG_NAME && e[11] & ATTR_VOLUME_ID == 0
}

/// Whether an entry is that of a subdirectory.
pub open spec fn is_subdir(e: Seq<u8>) -> bool {
    e[11] & ATTR_DIRECTORY != 0
}

/// The first cluster that an entry names.
pub open spec fn first_cluster(e: Seq<u8>) -> u16 {
    bytes::le16(e, 0x1A)
}

/// The size that an entry gives.
pub open spec fn file_size(e: Seq<u8>) -> u32 {
    bytes::le32(e, 0x1C)
}

/// The first entry from `k` on whose shown name is `want`, but for case.
pub open spec fn found(d: DiskModel, b: Bpb, want: Seq<char>, k: int) -> Result<
    Option<Seq<u8>>,
    FatError,
>
    decreases slots(b) - k,
{
    if k >= slots(b) {
        Ok(None)
    } else {
        match entry_at(d, b, k) {
            Err(e) => Err(e),
            Ok(e) => if e[0] == NAME_END {
                Ok(None)
            } else if in_use(e) && is_real(e) && name::same_name(
                name::shown_name(e.take(11)),
                want,
            ) {
                Ok(Some(e))
            } else {
                found(d, b, want, k + 1)
            },
        }
    }
}

/// The shown names of the entries from `k` on, each with whether it is a subdirectory.
pub open spec fn listed(d: DiskModel, b: Bpb, k: int) -> Result<Seq<(Seq<char>, bool)>, FatError>
    decreases slots(b) - k,
{
    if k >= slots(b) {
        Ok(Seq::empty())
    } else {
        match entry_at(d, b, k) {
            Err(e) => Err(e),
            Ok(e) => if e[0] == NAME_END {
                Ok(Seq::empty())
            } else if in_use(e) && is_real(e) {
                match listed(d, b, k + 1) {
                    Ok(rest) => Ok(
                        seq![(name::shown_name(e.take(11)), is_subdir(e))] + rest,
                    ),
                    Err(e) => Err(e),
                }
            } else {
                listed(d, b, k + 1)
            },
        }
    }
}

/// Where the entry with the stored name `short` goes, looking from entry `k` on with `free` as
/// the first free entry seen: the entry of that name, with its first cluster and whether it is a
/// subdirectory, or else the first free entry.
pub open spec fn slot_for(d: DiskModel, b: Bpb, short: Seq<u8>, k: int, free: Option<int>) -> Result<
    (int, Option<(u16, bool)>),
    FatError,
>
    decreases slots(b) - k,
{
    if k >= slots(b) {
        match free {
            Some(f) => Ok((f, None)),
            None => Err(FatError::DirFull),
        }
    } else {
        match entry_at(d, b, k) {
            Err(e) => Err(e),
            Ok(e) => {
                let next = if free is None && !in_use(e) {
                    Some(k)
                } else {
                    free
                };
                if in_use(e) && is_real(e) && e.take(11) == short {
                    Ok((k, Some((first_cluster(e), is_subdir(e)))))
                } else if e[0] == NAME_END {
                    Ok((next.unwrap(), None))
                } else {
                    slot_for(d, b, short, k + 1, next)
                }
            },
        }
    }
}

/// What an entry says of a file.
pub struct RootEntry {
    pub first_cluster: u16,
    pub size: u32,
    pub is_dir: bool,
}

/// Whether `r` says what entry `e` does.
pub open spec fn describes(r: RootEntry, e: Seq<u8>) -> bool {
    r.first_cluster == first_cluster(e) && r.size == file_size(e) && r.is_dir == is_subdir(e)
}

/// Reads the sector with entry `k` of the root directory.
fn read_slot_sector(disk: &Disk, b: &Bpb, k: u32) -> (r: Result<Vec<u8>, FatError>)
    requires
        disk::whole(disk@),
        b.ok(),
        k < slots(*b),
    ensures
        match r {
            Ok(s) => s@.len() == 512 && disk::sector(disk@, slot_sector(*b, k as int) as u32)
                == Ok::<Seq<u8>, disk::DiskError>(s@),
            Err(e) => forall|j: int|
                j / 16 == k as int / 16 ==> #[trigger] entry_at(disk@, *b, j) == Err::<
                    Seq<u8>,
                    FatError,
                >(e),
        },
{
    proof {
        bpb::regions_are_ordered(*b);
    }
    let lba: u32 = b.root_dir_start_sector() + k / 16;
    match disk.read(lba) {
        Ok(s) => Ok(s),
        Err(e) => Err(FatError::from(e)),
    }
}

/// Entry `k` of the root directory.
fn read_entry(disk: &Disk, b: &Bpb, k: u32) -> (r: Result<Vec<u8>, FatError>)
    requires
        disk::whole(disk@),
        b.ok(),
        k < slots(*b),
    ensures
        match r {
            Ok(e) => e@.len() == 32 && entry_at(disk@, *b, k as int) == Ok::<Seq<u8>, FatError>(
                e@,
            ),
            Err(e) => entry_at(disk@, *b, k as int) == Err::<Seq<u8>, FatError>(e),
        },
{
    match read_slot_sector(disk, b, k) {
        Ok(s) => {
            let at: usize = (k % 16) as usize * 32;
            Ok(bytes::to_vec(&s.as_slice()[at..at + 32]))
        },
        Err(e) => Err(e),
    }
}

/// The number of entries.
fn slot_count(b: &Bpb) -> (n: u32)
    requires
        b.ok(),
    ensures
        n == slots(*b),
{
    proof {
        bpb::regions_are_ordered(*b);
    }
    b.root_dir_sectors() * 16
}

/// Finds the entry with this name, whatever its case.
pub fn find_root_entry(disk: &Disk, b: &Bpb, want: &Vec<char>) -> (r: Result<
    Option<RootEntry>,
    FatError,
>)
    requires
        disk::whole(disk@),
        b.ok(),
    ensures
        match r {
            Ok(Some(e)) => found(disk@, *b, want@, 0) matches Ok(Some(raw)) && describes(e, raw),
            Ok(None) => found(disk@, *b, want@, 0) == Ok::<Option<Seq<u8>>, FatError>(None),
            Err(e) => found(disk@, *b, want@, 0) == Err::<Option<Seq<u8>>, FatError>(e),
        },
{
    let n: u32 = slot_count(b);
    let mut k: u32 = 0;
    while k < n
        invariant
            disk::whole(disk@),
            b.ok(),
            n == slots(*b),
            k <= n,
            found(disk@, *b, want@, 0) == found(disk@, *b, want@, k as int),
        decreases n - k,
    {
        match read_entry(disk, b, k) {
            Ok(e) => {
                if e[0] == NAME_END {
                    return Ok(None);
                }
                if e[0] != NAME_DELETED && e[11] != ATTR_LONG_NAME && e[11] & ATTR_VOLUME_ID == 0 {
                    let shown: Vec<char> = short_name_to_string(&e.as_slice()[0..11]);
                    assert(e@.subrange(0, 11) =~= e@.take(11));
                    if eq_ignore_case(&shown, want) {
                        return Ok(
                            Some(
                                RootEntry {
                                    first_cluster: read_le16(&e, 0x1A),
                                    size: read_le32(&e, 0x1C),
                                    is_dir: e[11] & ATTR_DIRECTORY != 0,
                                },
                            ),
                        );
                    }
                }
            },
            Err(e) => {
                return Err(e);
            },
        }
        k = k + 1;
    }
    Ok(None)
}

/// Lists the root directory.
pub fn list_root(disk: &Disk, b: &Bpb) -> (r: Result<Vec<(String, bool)>, FatError>)
    requires
        disk::whole(disk@),
        b.ok(),
    ensures
        match r {
            Ok(out) => listed(disk@, *b, 0) == Ok::<Seq<(Seq<char>, bool)>, FatError>(
                fs::listing_view(out@),
            ),
            Err(e) => listed(disk@, *b, 0) == Err::<Seq<(Seq<char>, bool)>, FatError>(e),
        },
{
    let n: u32 = slot_count(b);
    let mut out: Vec<(String, bool)> = Vec::new();
    let mut k: u32 = 0;
    assert(fs::listing_view(out@) =~= Seq::empty());
    proof {
        lemma_prepend_nothing(listed(disk@, *b, 0));
    }
    while k < n
        invariant
            disk::whole(disk@),
            b.ok(),
            n == slots(*b),
            k <= n,
            listed(disk@, *b, 0) == prepended(
                fs::listing_view(out@),
                listed(disk@, *b, k as int),
            ),
        decreases n - k,
    {
        match read_entry(disk, b, k) {
            Ok(e) => {
                if e[0] == NAME_END {
                    assert(fs::listing_view(out@) + Seq::empty() =~= fs::listing_view(out@));
                    return Ok(out);
                }
                if e[0] != NAME_DELETED && e[11] != ATTR_LONG_NAME && e[11] & ATTR_VOLUME_ID == 0 {
                    let shown: Vec<char> = short_name_to_string(&e.as_slice()[0..11]);
                    assert(e@.subrange(0, 11) =~= e@.take(11));
                    let ghost before = fs::listing_view(out@);
                    let ghost item = (shown@, is_subdir(e@));
                    out.push((string_of(&shown), e[11] & ATTR_DIRECTORY != 0));
                    assert(fs::listing_view(out@) =~= before + seq![item]);
                    proof {
                        lemma_prepend_one(before, item, listed(disk@, *b, k + 1));
                    }
                }
            },
            Err(e) => {
                return Err(e);
            },
        }
        k = k + 1;
    }
    assert(fs::listing_view(out@) + Seq::empty() =~= fs::listing_view(out@));
    Ok(out)
}

/// A listing with `front` put before it.
spec fn prepended(
    front: Seq<(Seq<char>, bool)>,
    rest: Result<Seq<(Seq<char>, bool)>, FatError>,
) -> Result<Seq<(Seq<char>, bool)>, FatError> {
    match rest {
        Ok(r) => Ok(front + r),
        Err(e) => Err(e),
    }
}

proof fn lemma_prepend_nothing(rest: Result<Seq<(Seq<char>, bool)>, FatError>)
    ensures
        prepended(Seq::empty(), rest) == rest,
{
    if let Ok(r) = rest {
        assert(Seq::empty() + r =~= r);
    }
}

proof fn lemma_prepend_one(
    front: Seq<(Seq<char>, bool)>,
    item: (Seq<char>, bool),
    rest: Result<Seq<(Seq<char>, bool)>, FatError>,
)
    ensures
        prepended(front + seq![item], rest) == prepended(front, prepended(seq![item], rest)),
{
    if let Ok(r) = rest {
        assert((front + seq![item]) + r =~= front + (seq![item] + r));
    }
}

/// Where an entry goes.
pub struct DirSlot {
    /// The number of the entry.
    pub index: u32,
    /// Of an entry with the name, its first cluster and whether it is a subdirectory.
    pub existing: Option<(u16, bool)>,
}

/// Finds where the entry with the stored name `short` goes.
pub fn find_dir_slot(disk: &Disk, b: &Bpb, short: &Vec<u8>) -> (r: Result<DirSlot, FatError>)
    requires
        disk::whole(disk@),
        b.ok(),
    ensures
        match r {
            Ok(slot) => slot.index < slots(*b) && slot_for(disk@, *b, short@, 0, None) == Ok::<
                (int, Option<(u16, bool)>),
                FatError,
            >((slot.index as int, slot.existing)),
            Err(e) => slot_for(disk@, *b, short@, 0, None) == Err::<
                (int, Option<(u16, bool)>),
                FatError,
            >(e),
        },
{
    let n: u32 = slot_count(b);
    let mut free: Option<u32> = None;
    let ghost mut seen: Option<int> = None;
    let mut k: u32 = 0;
    while k < n
        invariant
            disk::whole(disk@),
            b.ok(),
            n == slots(*b),
            k <= n,
            free matches Some(f) ==> f < n && seen == Some(f as int),
            free is None ==> seen is None,
            slot_for(disk@, *b, short@, 0, None) == slot_for(disk@, *b, short@, k as int, seen),
        decreases n - k,
    {
        match read_entry(disk, b, k) {
            Ok(e) => {
                let used: bool = e[0] != NAME_END && e[0] != NAME_DELETED;
                let genuine: bool = e[11] != ATTR_LONG_NAME && e[11] & ATTR_VOLUME_ID == 0;
                assert(e@.subrange(0, 11) =~= e@.take(11));
                if used && genuine && same_bytes(&e.as_slice()[0..11], short) {
                    return Ok(
                        DirSlot {
                            index: k,
                            existing: Some((read_le16(&e, 0x1A), e[11] & ATTR_DIRECTORY != 0)),
                        },
                    );
                }
                if free.is_none() && !used {
                    free = Some(k);
                    proof {
                        seen = Some(k as int);
                    }
                }
                if e[0] == NAME_END {
                    if let Some(f) = free {
                        return Ok(DirSlot { index: f, existing: None });
                    }
                }
            },
            Err(e) => {
                return Err(e);
            },
        }
        k = k + 1;
    }
    match free {
        Some(f) => Ok(DirSlot { index: f, existing: None }),
        None => Err(FatError::DirFull),
    }
}

/// A directory entry of a file: name, attributes, then the first cluster and the size, and zeros
/// elsewhere.
pub open spec fn file_entry(short: Seq<u8>, first: u16, size: u32) -> Seq<u8> {
    short + seq![ATTR_ARCHIVE] + bytes::zeros(14) + bytes::le16_bytes(first) + bytes::le32_bytes(
        size,
    )
}

/// `s` with the 32 bytes from `at` on replaced.
pub open spec fn with_entry(s: Seq<u8>, at: int, e: Seq<u8>) -> Seq<u8> {
    s.take(at) + e + s.skip(at + 32)
}

/// What writing entry `k` does.
pub open spec fn entry_written(d: DiskModel, b: Bpb, k: int, e: Seq<u8>) -> (
    DiskModel,
    Result<(), FatError>,
) {
    let lba = slot_sector(b, k) as u32;
    match disk::sector(d, lba) {
        Err(e) => (d, Err(bpb::sector_error(e))),
        Ok(s) => match disk::stored(d, lba, with_entry(s, slot_offset(k), e)) {
            (after, Ok(())) => (after, Ok(())),
            (after, Err(e)) => (after, Err(bpb::sector_error(e))),
        },
    }
}

/// Writes the entry of a file.
pub fn write_entry(disk: &mut Disk, b: &Bpb, k: u32, short: &Vec<u8>, first: u16, size: u32) -> (r:
    Result<(), FatError>)
    requires
        disk::whole(old(disk)@),
        b.ok(),
        k < slots(*b),
        short@.len() == 11,
    ensures
        disk::whole(final(disk)@),
        (final(disk)@, r) == entry_written(
            old(disk)@,
            *b,
            k as int,
            file_entry(short@, first, size),
        ),
{
    proof {
        bpb::regions_are_ordered(*b);
    }
    let lba: u32 = b.root_dir_start_sector() + k / 16;
    let at: usize = (k % 16) as usize * 32;
    match disk.read(lba) {
        Ok(s) => {
            let ghost before = s@;
            let mut new: Vec<u8> = bytes::to_vec(&s.as_slice()[0..at]);
            bytes::append(&mut new, short);
            new.push(ATTR_ARCHIVE);
            bytes::append_zeros(&mut new, 14);
            bytes::append_le16(&mut new, first);
            bytes::append_le32(&mut new, size);
            bytes::append(&mut new, &s.as_slice()[at + 32..s.len()]);
            assert(new@ =~= with_entry(before, at as int, file_entry(short@, first, size)));
            match disk.write(lba, new) {
                Ok(()) => Ok(()),
                Err(e) => Err(FatError::from(e)),
            }
        },
        Err(e) => Err(FatError::from(e)),
    }
}

} // verus!
