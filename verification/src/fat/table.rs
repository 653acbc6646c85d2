//! The allocation table: which cluster follows which, and which are free.

use vstd::prelude::*;

use crate::bytes;
use crate::bytes::read_le16;
use crate::disk;
use crate::disk::{Disk, DiskModel};
use crate::fat::bpb;
use crate::fat::bpb::{Bpb, FatError};

verus! {

/// The entry of a free cluster.
pub const FAT_ENTRY_FREE: u16 = 0x0000;

/// The entry that ends a chain.
pub const FAT_ENTRY_EOC: u16 = 0xFFFF;

/// Whether an entry, or a file's first cluster, names a cluster: neither free, reserved, bad nor
/// the end of a chain.
pub open spec fn is_cluster(c: u16) -> bool {
    2 <= c <= 0xFFEF
}

/// Whether an entry names a cluster.
pub fn is_data_cluster(cluster: u16) -> (yes: bool)
    ensures
        yes == is_cluster(cluster),
{
    2 <= cluster && cluster <= 0xFFEF
}

/// The sector with the entry of cluster `c` in a copy of the table.
pub open spec fn entry_sector(b: Bpb, c: u16, copy: int) -> int {
    b.reserved_sectors + copy * b.fat_size_sectors + c * 2 / 512
}

/// Where in that sector the entry stands.
pub open spec fn entry_offset(c: u16) -> int {
    c * 2 % 512
}

/// The entry of cluster `c` in the first copy.
pub open spec fn link(d: DiskModel, b: Bpb, c: u16) -> Result<u16, FatError> {
    match disk::sector(d, entry_sector(b, c, 0) as u32) {
        Ok(s) => Ok(bytes::le16(s, entry_offset(c))),
        Err(e) => Err(bpb::sector_error(e)),
    }
}

/// The entry of `cluster`: the next cluster of the chain, or what ends it.
pub fn next_cluster(disk: &Disk, b: &Bpb, cluster: u16) -> (r: Result<u16, FatError>)
    requires
        disk::whole(disk@),
    ensures
        r == link(disk@, *b, cluster),
{
    let at: u32 = cluster as u32 * 2;
    let lba: u32 = b.fat_start_sector() + at / 512;
    let offset: usize = (at % 512) as usize;
    assert(0 * b.fat_size_sectors == 0);
    match disk.read(lba) {
        Ok(s) => Ok(read_le16(&s, offset)),
        Err(e) => Err(FatError::from(e)),
    }
}

/// `s` with `v` stored little-endian at `at`.
pub open spec fn patched(s: Seq<u8>, at: int, v: u16) -> Seq<u8> {
    s.update(at, (v % 256) as u8).update(at + 1, (v / 256) as u8)
}

/// What storing `v` as the entry of `c` does in the copies from `copy` on.
pub open spec fn entry_stored(d: DiskModel, b: Bpb, c: u16, v: u16, copy: int) -> (
    DiskModel,
    Result<(), FatError>,
)
    decreases b.num_fats - copy,
{
    if copy >= b.num_fats {
        (d, Ok(()))
    } else {
        let lba = entry_sector(b, c, copy) as u32;
        match disk::sector(d, lba) {
            Err(e) => (d, Err(bpb::sector_error(e))),
            Ok(s) => match disk::stored(d, lba, patched(s, entry_offset(c), v)) {
                (after, Ok(())) => entry_stored(after, b, c, v, copy + 1),
                (after, Err(e)) => (after, Err(bpb::sector_error(e))),
            },
        }
    }
}

proof fn lemma_copy_in_reach(b: Bpb, copy: int)
    requires
        b.ok(),
        0 <= copy < b.num_fats,
    ensures
        0 <= copy * b.fat_size_sectors <= 255 * 0xFFFF,
{
    assert(0 <= copy * b.fat_size_sectors <= 255 * 0xFFFF) by (nonlinear_arith)
        requires
            0 <= copy < b.num_fats <= 255,
            b.fat_size_sectors <= 0xFFFF,
    ;
}

/// Stores `value` as the entry of `cluster` in every copy of the table.
pub fn write_fat_entry(disk: &mut Disk, b: &Bpb, cluster: u16, value: u16) -> (r: Result<
    (),
    FatError,
>)
    requires
        disk::whole(old(disk)@),
        b.ok(),
    ensures
        disk::whole(final(disk)@),
        (final(disk)@, r) == entry_stored(old(disk)@, *b, cluster, value, 0),
{
    let at: u32 = cluster as u32 * 2;
    let offset: usize = (at % 512) as usize;
    let ghost before = disk@;
    let mut copy: u32 = 0;
    while copy < b.num_fats as u32
        invariant
            disk::whole(disk@),
            b.ok(),
            at == cluster * 2,
            offset == entry_offset(cluster),
            0 <= copy <= b.num_fats,
            before == old(disk)@,
            entry_stored(before, *b, cluster, value, 0) == entry_stored(
                disk@,
                *b,
                cluster,
                value,
                copy as int,
            ),
        decreases b.num_fats - copy,
    {
        proof {
            lemma_copy_in_reach(*b, copy as int);
        }
        let lba: u32 = b.fat_start_sector() + copy * b.fat_size_sectors + at / 512;
        match disk.read(lba) {
            Ok(mut s) => {
                let ghost found = s@;
                s.set(offset, (value % 256) as u8);
                s.set(offset + 1, (value / 256) as u8);
                assert(s@ =~= patched(found, entry_offset(cluster), value));
                if let Err(e) = disk.write(lba, s) {
                    return Err(FatError::from(e));
                }
            },
            Err(e) => {
                return Err(FatError::from(e));
            },
        }
        copy = copy + 1;
    }
    Ok(())
}

/// The first free cluster from `n` on, in the order of their numbers.
pub open spec fn free_from(d: DiskModel, b: Bpb, n: int) -> Result<Option<u16>, FatError>
    decreases b.fat_size_sectors * 256 - n,
{
    if n / 256 >= b.fat_size_sectors {
        Ok(None)
    } else {
        match disk::sector(d, (b.reserved_sectors + n / 256) as u32) {
            Err(e) => Err(bpb::sector_error(e)),
            Ok(s) => if n > bpb::clusters(b) + 1 {
                Ok(None)
            } else if n >= 2 && bytes::le16(s, n % 256 * 2) == FAT_ENTRY_FREE {
                Ok(Some(n as u16))
            } else {
                free_from(d, b, n + 1)
            },
        }
    }
}

/// What claiming a cluster does: the first free one is marked as the end of a chain.
pub open spec fn claimed(d: DiskModel, b: Bpb) -> (DiskModel, Result<Option<u16>, FatError>) {
    match free_from(d, b, 0) {
        Ok(Some(c)) => match entry_stored(d, b, c, FAT_ENTRY_EOC, 0) {
            (after, Ok(())) => (after, Ok(Some(c))),
            (after, Err(e)) => (after, Err(e)),
        },
        Ok(None) => (d, Ok(None)),
        Err(e) => (d, Err(e)),
    }
}

/// The first free cluster.
fn find_free(disk: &Disk, b: &Bpb) -> (r: Result<Option<u16>, FatError>)
    requires
        disk::whole(disk@),
        b.ok(),
        bpb::clusters(*b) < 65525,
    ensures
        r == free_from(disk@, *b, 0),
{
    let last: u32 = b.count_of_clusters() + 1;
    let mut s: u32 = 0;
    while s < b.fat_size_sectors
        invariant
            disk::whole(disk@),
            b.ok(),
            bpb::clusters(*b) < 65525,
            last == bpb::clusters(*b) + 1,
            s <= b.fat_size_sectors,
            free_from(disk@, *b, 0) == free_from(disk@, *b, s * 256),
        decreases b.fat_size_sectors - s,
    {
        let lba: u32 = b.fat_start_sector() + s;
        match disk.read(lba) {
            Ok(sector) => {
                let mut i: usize = 0;
                while i < 256
                    invariant
                        b.ok(),
                        bpb::clusters(*b) < 65525,
                        last == bpb::clusters(*b) + 1,
                        s < b.fat_size_sectors,
                        i <= 256,
                        lba == b.reserved_sectors + s,
                        sector@.len() == 512,
                        disk::sector(disk@, lba) == Ok::<Seq<u8>, disk::DiskError>(sector@),
                        free_from(disk@, *b, 0) == free_from(disk@, *b, s * 256 + i),
                    decreases 256 - i,
                {
                    let n: u32 = s * 256 + i as u32;
                    assert(n as int / 256 == s && n as int % 256 == i);
                    if n > last {
                        return Ok(None);
                    }
                    if n >= 2 && read_le16(&sector, i * 2) == FAT_ENTRY_FREE {
                        return Ok(Some(n as u16));
                    }
                    i = i + 1;
                }
            },
            Err(e) => {
                assert(s * 256 / 256 == s);
                return Err(FatError::from(e));
            },
        }
        s = s + 1;
    }
    assert(s * 256 / 256 == s);
    Ok(None)
}

/// Claims a free cluster by marking it as the end of a chain; `None` if the volume is full.
pub fn alloc_cluster(disk: &mut Disk, b: &Bpb) -> (r: Result<Option<u16>, FatError>)
    requires
        disk::whole(old(disk)@),
        b.ok(),
        bpb::clusters(*b) < 65525,
    ensures
        disk::whole(final(disk)@),
        (final(disk)@, r) == claimed(old(disk)@, *b),
{
    match find_free(disk, b) {
        Ok(Some(c)) => match write_fat_entry(disk, b, c, FAT_ENTRY_EOC) {
            Ok(()) => Ok(Some(c)),
            Err(e) => Err(e),
        },
        Ok(None) => Ok(None),
        Err(e) => Err(e),
    }
}

/// How many clusters a chain may visit before it must be circular.
pub open spec fn max_steps(b: Bpb) -> int {
    bpb::clusters(b) + 2
}

/// What freeing the chain from `c` on does, `steps` clusters into it.
pub open spec fn freed(d: DiskModel, b: Bpb, c: u16, steps: int) -> (DiskModel, Result<(), FatError>)
    decreases max_steps(b) - steps,
{
    if !is_cluster(c) {
        (d, Ok(()))
    } else if steps + 1 > max_steps(b) {
        (d, Err(FatError::BadChain))
    } else {
        match link(d, b, c) {
            Err(e) => (d, Err(e)),
            Ok(next) => match entry_stored(d, b, c, FAT_ENTRY_FREE, 0) {
                (after, Ok(())) => freed(after, b, next, steps + 1),
                (after, Err(e)) => (after, Err(e)),
            },
        }
    }
}

/// Frees every cluster of the chain that starts at `first`.
pub fn free_chain(disk: &mut Disk, b: &Bpb, first: u16) -> (r: Result<(), FatError>)
    requires
        disk::whole(old(disk)@),
        b.ok(),
    ensures
        disk::whole(final(disk)@),
        (final(disk)@, r) == freed(old(disk)@, *b, first, 0),
{
    let limit: u64 = b.count_of_clusters() as u64 + 2;
    let ghost before = disk@;
    let mut cluster: u16 = first;
    let mut steps: u64 = 0;
    while is_data_cluster(cluster)
        invariant
            disk::whole(disk@),
            b.ok(),
            limit == max_steps(*b),
            steps <= limit,
            before == old(disk)@,
            freed(before, *b, first, 0) == freed(disk@, *b, cluster, steps as int),
        decreases limit - steps,
    {
        steps = steps + 1;
        if steps > limit {
            return Err(FatError::BadChain);
        }
        let next: u16 = match next_cluster(disk, b, cluster) {
            Ok(next) => next,
            Err(e) => {
                return Err(e);
            },
        };
        if let Err(e) = write_fat_entry(disk, b, cluster, FAT_ENTRY_FREE) {
            return Err(e);
        }
        cluster = next;
    }
    Ok(())
}

} // verus!
