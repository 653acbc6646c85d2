//! The allocation table of a sound volume: storing an entry changes that entry and no other, in
//! every copy alike.

use vstd::prelude::*;

use crate::bytes;
use crate::disk;
use crate::disk::{DiskError, DiskModel};
use crate::fat::bpb;
use crate::fat::bpb::{Bpb, FatError};
use crate::fat::table;
use crate::fat::table::FAT_ENTRY_FREE;

verus! {

/// A geometry that makes sense: it has a table with an entry for every cluster, and every
/// cluster has a number that an entry can name.
pub open spec fn sensible(b: Bpb) -> bool {
    &&& bpb::is_fat16(b)
    &&& b.sectors_per_cluster > 0
    &&& b.num_fats > 0
    &&& bpb::clusters(b) + 1 <= 0xFFEF
    &&& bpb::clusters(b) + 2 <= b.fat_size_sectors * 256
}

/// Sector `lba`.
pub open spec fn at(d: DiskModel, lba: int) -> Result<Seq<u8>, DiskError> {
    disk::sector(d, lba as u32)
}

/// The sectors from `lo` to `hi` can be read.
pub open spec fn readable(d: DiskModel, lo: int, hi: int) -> bool {
    forall|lba: int| lo <= lba < hi ==> (#[trigger] at(d, lba) matches Ok(s) && s.len() == 512)
}

/// The sectors outside `lo` to `hi` are the same.
pub open spec fn same_outside(d1: DiskModel, d2: DiskModel, lo: int, hi: int) -> bool {
    forall|lba: int|
        0 <= lba <= u32::MAX && !(lo <= lba < hi) ==> #[trigger] at(d1, lba) == at(d2, lba)
}

/// The number of a cluster of the volume.
pub open spec fn on_volume(b: Bpb, c: u16) -> bool {
    2 <= c <= bpb::clusters(b) + 1
}

/// The table can be read.
pub open spec fn table_readable(d: DiskModel, b: Bpb) -> bool {
    readable(d, b.reserved_sectors as int, bpb::root_start(b))
}

/// The entries of the clusters of the volume but for those in `changed` are the same.
pub open spec fn same_links(d1: DiskModel, d2: DiskModel, b: Bpb, changed: Set<u16>) -> bool {
    forall|c: u16|
        on_volume(b, c) && !changed.contains(c) ==> #[trigger] table::link(d1, b, c)
            == table::link(d2, b, c)
}

/// Only the table differs.
pub open spec fn same_beside_table(d1: DiskModel, d2: DiskModel, b: Bpb) -> bool {
    same_outside(d1, d2, b.reserved_sectors as int, bpb::root_start(b))
}

pub proof fn lemma_stored(d: DiskModel, lba: int, data: Seq<u8>)
    requires
        0 <= lba <= u32::MAX,
        !(at(d, lba) matches Err(DiskError::Ata(_))),
    ensures
        disk::stored(d, lba as u32, data).1 is Ok,
        at(disk::stored(d, lba as u32, data).0, lba) == Ok::<Seq<u8>, DiskError>(data),
        same_outside(disk::stored(d, lba as u32, data).0, d, lba, lba + 1),
{
}

pub proof fn lemma_copies_fit(b: Bpb, copy: int)
    requires
        b.ok(),
        0 <= copy < b.num_fats,
    ensures
        0 <= copy * b.fat_size_sectors,
        copy * b.fat_size_sectors + b.fat_size_sectors <= b.num_fats * b.fat_size_sectors,
        copy * b.fat_size_sectors + b.fat_size_sectors == (copy + 1) * b.fat_size_sectors,
        bpb::root_start(b) <= 0x102_0000,
{
    bpb::regions_are_ordered(b);
    assert(0 <= copy * b.fat_size_sectors) by (nonlinear_arith)
        requires
            0 <= copy,
            b.fat_size_sectors >= 0,
    ;
    assert(copy * b.fat_size_sectors + b.fat_size_sectors == (copy + 1) * b.fat_size_sectors)
        by (nonlinear_arith);
    assert((copy + 1) * b.fat_size_sectors <= b.num_fats * b.fat_size_sectors) by (nonlinear_arith)
        requires
            copy + 1 <= b.num_fats,
            b.fat_size_sectors >= 0,
    ;
}

/// Storing an entry from a copy on touches nothing before that copy and nothing behind the
/// table.
pub proof fn lemma_entry_stored(d: DiskModel, b: Bpb, c: u16, v: u16, copy: int)
    requires
        sensible(b),
        table_readable(d, b),
        on_volume(b, c),
        0 <= copy <= b.num_fats,
    ensures
        table::entry_stored(d, b, c, v, copy).1 is Ok,
        table_readable(table::entry_stored(d, b, c, v, copy).0, b),
        same_outside(
            table::entry_stored(d, b, c, v, copy).0,
            d,
            b.reserved_sectors + copy * b.fat_size_sectors,
            bpb::root_start(b),
        ),
    decreases b.num_fats - copy,
{
    if copy < b.num_fats {
        lemma_copies_fit(b, copy);
        let lba = table::entry_sector(b, c, copy);
        assert(c * 2 / 512 < b.fat_size_sectors);
        assert(at(d, lba) is Ok);
        let s = at(d, lba).unwrap();
        let data = table::patched(s, table::entry_offset(c), v);
        lemma_stored(d, lba, data);
        let next = disk::stored(d, lba as u32, data).0;
        assert forall|l: int| b.reserved_sectors <= l < bpb::root_start(b) implies (#[trigger] at(
            next,
            l,
        ) matches Ok(t) && t.len() == 512) by {
            assert(at(d, l) is Ok);
            if l != lba {
                assert(at(next, l) == at(d, l));
            }
        }
        lemma_entry_stored(next, b, c, v, copy + 1);
        let after = table::entry_stored(next, b, c, v, copy + 1).0;
        assert forall|l: int|
            0 <= l <= u32::MAX && !(b.reserved_sectors + copy * b.fat_size_sectors <= l
                < bpb::root_start(b)) implies #[trigger] at(after, l) == at(d, l) by {
            assert(at(after, l) == at(next, l));
            assert(at(next, l) == at(d, l));
        }
    }
}

proof fn lemma_patched_reads(s: Seq<u8>, off: int, v: u16)
    requires
        0 <= off,
        off + 2 <= s.len(),
    ensures
        bytes::le16(table::patched(s, off, v), off) == v,
        forall|other: int|
            0 <= other && other + 2 <= s.len() && (other + 2 <= off || off + 2 <= other)
                ==> #[trigger] bytes::le16(table::patched(s, off, v), other) == bytes::le16(s, other),
{
}

/// A stored entry reads back, every other entry is left alone, and so is everything beside the
/// table.
pub proof fn stored_entry_reads_back(d: DiskModel, b: Bpb, c: u16, v: u16)
    requires
        sensible(b),
        table_readable(d, b),
        on_volume(b, c),
    ensures
        ({
            let (after, r) = table::entry_stored(d, b, c, v, 0);
            &&& r is Ok
            &&& table_readable(after, b)
            &&& table::link(after, b, c) == Ok::<u16, FatError>(v)
            &&& same_links(after, d, b, set![c])
            &&& same_beside_table(after, d, b)
        }),
{
    lemma_entry_stored(d, b, c, v, 0);
    lemma_copies_fit(b, 0);
    assert(0 * b.fat_size_sectors == 0);
    let lba = table::entry_sector(b, c, 0);
    let off = table::entry_offset(c);
    assert(c * 2 / 512 < b.fat_size_sectors);
    assert(at(d, lba) is Ok);
    let s = at(d, lba).unwrap();
    let data = table::patched(s, off, v);
    lemma_stored(d, lba, data);
    let next = disk::stored(d, lba as u32, data).0;
    assert(table_readable(next, b)) by {
        assert forall|l: int| b.reserved_sectors <= l < bpb::root_start(b) implies (#[trigger] at(
            next,
            l,
        ) matches Ok(t) && t.len() == 512) by {
            assert(at(d, l) is Ok);
            if l != lba {
                assert(at(next, l) == at(d, l));
            }
        }
    }
    lemma_entry_stored(next, b, c, v, 1);
    let after = table::entry_stored(d, b, c, v, 0).0;
    assert(after == table::entry_stored(next, b, c, v, 1).0);
    lemma_patched_reads(s, off, v);
    assert(at(after, lba) == at(next, lba));
    assert forall|o: u16| on_volume(b, o) && !set![c].contains(o) implies #[trigger] table::link(
        after,
        b,
        o,
    ) == table::link(d, b, o) by {
        let l = table::entry_sector(b, o, 0);
        assert(o * 2 / 512 < b.fat_size_sectors);
        assert(at(after, l) == at(next, l));
        if l != lba {
            assert(at(next, l) == at(d, l));
        }
    }
}

/// Every copy of the table holds the same.
pub open spec fn copies_agree(d: DiskModel, b: Bpb) -> bool {
    forall|copy: int, s: int|
        0 <= copy < b.num_fats && 0 <= s < b.fat_size_sectors ==> #[trigger] at(
            d,
            b.reserved_sectors + copy * b.fat_size_sectors + s,
        ) == at(d, b.reserved_sectors + s)
}

/// The sector with the entry of `c` has been patched in the copies before `copy`; everything
/// else is as in `d`.
proof fn lemma_patches(d0: DiskModel, d: DiskModel, b: Bpb, c: u16, v: u16, copy: int)
    requires
        sensible(b),
        table_readable(d0, b),
        table_readable(d, b),
        on_volume(b, c),
        0 <= copy <= b.num_fats,
        copies_agree(d0, b),
        forall|j: int, s: int|
            0 <= j < b.num_fats && 0 <= s < b.fat_size_sectors ==> #[trigger] at(
                d,
                b.reserved_sectors + j * b.fat_size_sectors + s,
            ) == if j < copy && s == c * 2 / 512 {
                Ok(
                    table::patched(
                        at(d0, b.reserved_sectors + s).unwrap(),
                        table::entry_offset(c),
                        v,
                    ),
                )
            } else {
                at(d0, b.reserved_sectors + s)
            },
    ensures
        copies_agree(table::entry_stored(d, b, c, v, copy).0, b),
    decreases b.num_fats - copy,
{
    let q = c * 2 / 512;
    assert(0 <= q < b.fat_size_sectors);
    if copy < b.num_fats {
        lemma_copies_fit(b, copy);
        let lba = table::entry_sector(b, c, copy);
        assert(lba == b.reserved_sectors + copy * b.fat_size_sectors + q);
        lemma_copies_fit(b, 0);
        assert(at(d0, b.reserved_sectors + q) is Ok);
        assert(at(d, lba) == at(d0, b.reserved_sectors + q));
        let s0 = at(d, lba).unwrap();
        let data = table::patched(s0, table::entry_offset(c), v);
        lemma_stored(d, lba, data);
        let next = disk::stored(d, lba as u32, data).0;
        assert(table_readable(next, b)) by {
            assert forall|l: int|
                b.reserved_sectors <= l < bpb::root_start(b) implies (#[trigger] at(
                next,
                l,
            ) matches Ok(t) && t.len() == 512) by {
                assert(at(d, l) is Ok);
                if l != lba {
                    assert(at(next, l) == at(d, l));
                }
            }
        }
        assert forall|j: int, s: int| 0 <= j < b.num_fats && 0 <= s < b.fat_size_sectors implies #[trigger] at(
            next,
            b.reserved_sectors + j * b.fat_size_sectors + s,
        ) == (if j < copy + 1 && s == c * 2 / 512 {
            Ok(
                table::patched(
                    at(d0, b.reserved_sectors + s).unwrap(),
                    table::entry_offset(c),
                    v,
                ),
            )
        } else {
            at(d0, b.reserved_sectors + s)
        }) by {
            lemma_copies_fit(b, j);
            let l = b.reserved_sectors + j * b.fat_size_sectors + s;
            assert(at(d, l) == if j < copy && s == q {
                Ok(
                    table::patched(
                        at(d0, b.reserved_sectors + s).unwrap(),
                        table::entry_offset(c),
                        v,
                    ),
                )
            } else {
                at(d0, b.reserved_sectors + s)
            });
            if j != copy {
                lemma_apart(b, j, copy);
            }
            if l != lba {
                assert(at(next, l) == at(d, l));
            }
        }
        lemma_patches(d0, next, b, c, v, copy + 1);
    } else {
        assert forall|j: int, s: int| 0 <= j < b.num_fats && 0 <= s < b.fat_size_sectors implies #[trigger] at(
            d,
            b.reserved_sectors + j * b.fat_size_sectors + s,
        ) == at(d, b.reserved_sectors + s) by {
            assert(0 * b.fat_size_sectors == 0);
            assert(at(d, b.reserved_sectors + 0 * b.fat_size_sectors + s) == if 0 < copy && s == q {
                Ok(
                    table::patched(
                        at(d0, b.reserved_sectors + s).unwrap(),
                        table::entry_offset(c),
                        v,
                    ),
                )
            } else {
                at(d0, b.reserved_sectors + s)
            });
        }
    }
}

/// Different copies lie apart.
proof fn lemma_apart(b: Bpb, i: int, j: int)
    requires
        b.ok(),
        0 <= i < b.num_fats,
        0 <= j < b.num_fats,
        i != j,
    ensures
        i < j ==> i * b.fat_size_sectors + b.fat_size_sectors <= j * b.fat_size_sectors,
        j < i ==> j * b.fat_size_sectors + b.fat_size_sectors <= i * b.fat_size_sectors,
{
    lemma_copies_fit(b, i);
    lemma_copies_fit(b, j);
    if i < j {
        assert((i + 1) * b.fat_size_sectors <= j * b.fat_size_sectors) by (nonlinear_arith)
            requires
                i + 1 <= j,
                b.fat_size_sectors >= 0,
        ;
    } else {
        assert((j + 1) * b.fat_size_sectors <= i * b.fat_size_sectors) by (nonlinear_arith)
            requires
                j + 1 <= i,
                b.fat_size_sectors >= 0,
        ;
    }
}

/// Storing an entry keeps the copies of the table identical.
pub proof fn copies_stay_identical(d: DiskModel, b: Bpb, c: u16, v: u16)
    requires
        sensible(b),
        table_readable(d, b),
        on_volume(b, c),
        copies_agree(d, b),
    ensures
        copies_agree(table::entry_stored(d, b, c, v, 0).0, b),
{
    lemma_patches(d, d, b, c, v, 0);
}

/// A free cluster that is found is one of the volume and has a free entry.
pub proof fn lemma_free_from(d: DiskModel, b: Bpb, n: int)
    requires
        sensible(b),
        0 <= n,
    ensures
        table::free_from(d, b, n) matches Ok(Some(c)) ==> on_volume(b, c) && table::link(d, b, c)
            == Ok::<u16, FatError>(FAT_ENTRY_FREE),
    decreases b.fat_size_sectors * 256 - n,
{
    if n / 256 < b.fat_size_sectors {
        lemma_free_from(d, b, n + 1);
        assert(0 * b.fat_size_sectors == 0);
        if 2 <= n <= bpb::clusters(b) + 1 {
            let c = n as u16;
            assert(c * 2 / 512 == n / 256);
            assert(c * 2 % 512 == n % 256 * 2);
        }
    }
}

} // verus!
