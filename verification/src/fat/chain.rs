//! The contents of files: chains of clusters.

use vstd::prelude::*;

use crate::bytes::append;
use crate::disk;
use crate::disk::{Disk, DiskModel};
use crate::fat::bpb;
use crate::fat::bpb::{Bpb, FatError};
use crate::fat::table;
use crate::fat::table::{
    alloc_cluster, is_data_cluster, next_cluster, write_fat_entry, FAT_ENTRY_FREE,
};

verus! {

/// The first sector of cluster `c`.
pub open spec fn cluster_start(b: Bpb, c: u16) -> int {
    bpb::data_start(b) + (c - 2) * b.sectors_per_cluster
}

proof fn lemma_cluster_in_reach(b: Bpb, c: u16)
    requires
        b.ok(),
        c >= 2,
    ensures
        0 <= (c - 2) * b.sectors_per_cluster <= 0xFFFF * 255,
        0 <= cluster_start(b, c) <= 0x202_0000,
{
    bpb::regions_are_ordered(b);
    assert(0 <= (c - 2) * b.sectors_per_cluster <= 0xFFFF * 255) by (nonlinear_arith)
        requires
            2 <= c <= 0xFFFF,
            b.sectors_per_cluster <= 255,
    ;
}

/// The first sector of `cluster`.
fn cluster_lba(b: &Bpb, cluster: u16) -> (lba: u32)
    requires
        b.ok(),
        cluster >= 2,
    ensures
        lba == cluster_start(*b, cluster),
        lba <= 0x202_0000,
{
    proof {
        lemma_cluster_in_reach(*b, cluster);
    }
    b.data_start_sector() + (cluster as u32 - 2) * b.sectors_per_cluster as u32
}

/// `data` with the `n` sectors from `lba` on appended.
pub open spec fn sectors_read(d: DiskModel, lba: int, n: int, data: Seq<u8>) -> Result<
    Seq<u8>,
    FatError,
>
    decreases n,
{
    if n <= 0 {
        Ok(data)
    } else {
        match disk::sector(d, lba as u32) {
            Ok(s) => sectors_read(d, lba + 1, n - 1, data + s),
            Err(e) => Err(bpb::sector_error(e)),
        }
    }
}

/// Appends the `n` sectors from `lba` on.
fn read_sectors(disk: &Disk, lba: u32, n: u32, data: &mut Vec<u8>) -> (r: Result<(), FatError>)
    requires
        disk::whole(disk@),
        lba + n <= u32::MAX,
    ensures
        match r {
            Ok(()) => sectors_read(disk@, lba as int, n as int, old(data)@) == Ok::<
                Seq<u8>,
                FatError,
            >(final(data)@),
            Err(e) => sectors_read(disk@, lba as int, n as int, old(data)@) == Err::<
                Seq<u8>,
                FatError,
            >(e),
        },
{
    let ghost before = data@;
    let mut i: u32 = 0;
    while i < n
        invariant
            disk::whole(disk@),
            lba + n <= u32::MAX,
            i <= n,
            before == old(data)@,
            sectors_read(disk@, lba as int, n as int, before) == sectors_read(
                disk@,
                lba + i,
                n - i,
                data@,
            ),
        decreases n - i,
    {
        match disk.read(lba + i) {
            Ok(s) => {
                append(data, &s);
            },
            Err(e) => {
                return Err(FatError::from(e));
            },
        }
        i = i + 1;
    }
    Ok(())
}

/// The first `size` bytes of a chain that goes on at `c`, after `data` has been read in `steps`
/// clusters.
pub open spec fn chain_read(
    d: DiskModel,
    b: Bpb,
    c: u16,
    size: int,
    steps: int,
    data: Seq<u8>,
) -> Result<Seq<u8>, FatError>
    decreases table::max_steps(b) - steps,
{
    if !table::is_cluster(c) {
        if data.len() < size {
            Err(FatError::BadChain)
        } else {
            Ok(data.take(size))
        }
    } else if steps + 1 > table::max_steps(b) {
        Err(FatError::BadChain)
    } else {
        match sectors_read(d, cluster_start(b, c), b.sectors_per_cluster as int, data) {
            Err(e) => Err(e),
            Ok(more) => if more.len() >= size {
                Ok(more.take(size))
            } else {
                match table::link(d, b, c) {
                    Err(e) => Err(e),
                    Ok(next) => chain_read(d, b, next, size, steps + 1, more),
                }
            },
        }
    }
}

/// Reads the first `size` bytes of the chain that starts at `first`.
pub fn read_chain(disk: &Disk, b: &Bpb, first: u16, size: usize) -> (r: Result<Vec<u8>, FatError>)
    requires
        disk::whole(disk@),
        b.ok(),
    ensures
        match r {
            Ok(data) => chain_read(disk@, *b, first, size as int, 0, Seq::empty()) == Ok::<
                Seq<u8>,
                FatError,
            >(data@),
            Err(e) => chain_read(disk@, *b, first, size as int, 0, Seq::empty()) == Err::<
                Seq<u8>,
                FatError,
            >(e),
        },
{
    let limit: u64 = b.count_of_clusters() as u64 + 2;
    let mut data: Vec<u8> = Vec::new();
    let mut cluster: u16 = first;
    let mut steps: u64 = 0;
    while is_data_cluster(cluster)
        invariant
            disk::whole(disk@),
            b.ok(),
            limit == table::max_steps(*b),
            steps <= limit,
            chain_read(disk@, *b, first, size as int, 0, Seq::empty()) == chain_read(
                disk@,
                *b,
                cluster,
                size as int,
                steps as int,
                data@,
            ),
        decreases limit - steps,
    {
        steps = steps + 1;
        if steps > limit {
            return Err(FatError::BadChain);
        }
        let lba: u32 = cluster_lba(b, cluster);
        if let Err(e) = read_sectors(disk, lba, b.sectors_per_cluster as u32, &mut data) {
            return Err(e);
        }
        if data.len() >= size {
            let ghost all = data@;
            data.truncate(size);
            assert(data@ =~= all.take(size as int));
            return Ok(data);
        }
        match next_cluster(disk, b, cluster) {
            Ok(next) => {
                cluster = next;
            },
            Err(e) => {
                return Err(e);
            },
        }
    }
    if data.len() < size {
        return Err(FatError::BadChain);
    }
    let ghost all = data@;
    data.truncate(size);
    assert(data@ =~= all.take(size as int));
    Ok(data)
}

/// What freeing clusters one by one does; failures are passed over.
pub open spec fn released(d: DiskModel, b: Bpb, taken: Seq<u16>) -> DiskModel
    decreases taken.len(),
{
    if taken.len() == 0 {
        d
    } else {
        released(
            table::entry_stored(d, b, taken[0], FAT_ENTRY_FREE, 0).0,
            b,
            taken.drop_first(),
        )
    }
}

/// What claiming `n` clusters more does. When the volume is full, those taken are released.
pub open spec fn reserved(d: DiskModel, b: Bpb, taken: Seq<u16>, n: nat) -> (
    DiskModel,
    Result<Seq<u16>, FatError>,
)
    decreases n,
{
    if n == 0 {
        (d, Ok(taken))
    } else {
        match table::claimed(d, b) {
            (after, Ok(Some(c))) => reserved(after, b, taken.push(c), (n - 1) as nat),
            (after, Ok(None)) => (released(after, b, taken), Err(FatError::NoSpace)),
            (after, Err(e)) => (after, Err(e)),
        }
    }
}

/// What linking each cluster to the next does, from position `i` on.
pub open spec fn joined(d: DiskModel, b: Bpb, cs: Seq<u16>, i: int) -> (
    DiskModel,
    Result<(), FatError>,
)
    decreases cs.len() - i,
{
    if i + 1 >= cs.len() {
        (d, Ok(()))
    } else {
        match table::entry_stored(d, b, cs[i], cs[i + 1], 0) {
            (after, Ok(())) => joined(after, b, cs, i + 1),
            (after, Err(e)) => (after, Err(e)),
        }
    }
}

/// The sector's worth of `data` from `pos` on, with zeros where `data` ends.
pub open spec fn piece(data: Seq<u8>, pos: int) -> Seq<u8> {
    Seq::new(
        512,
        |i: int|
            if pos + i < data.len() {
                data[pos + i]
            } else {
                0u8
            },
    )
}

/// The position `n` bytes after `pos`, not beyond the end of `data`.
pub open spec fn forward(data: Seq<u8>, pos: int, n: int) -> int {
    if pos + n < data.len() {
        pos + n
    } else {
        data.len() as int
    }
}

/// What storing `n` sectors' worth of `data` does, from sector `lba` and position `pos` on.
pub open spec fn sectors_stored(d: DiskModel, lba: int, n: int, data: Seq<u8>, pos: int) -> (
    DiskModel,
    Result<(), FatError>,
)
    decreases n,
{
    if n <= 0 {
        (d, Ok(()))
    } else {
        match disk::stored(d, lba as u32, piece(data, pos)) {
            (after, Ok(())) => sectors_stored(after, lba + 1, n - 1, data, forward(data, pos, 512)),
            (after, Err(e)) => (after, Err(bpb::sector_error(e))),
        }
    }
}

/// What storing `data` from position `pos` on in clusters does, from cluster `i` on.
pub open spec fn clusters_stored(
    d: DiskModel,
    b: Bpb,
    cs: Seq<u16>,
    i: int,
    data: Seq<u8>,
    pos: int,
) -> (DiskModel, Result<(), FatError>)
    decreases cs.len() - i,
{
    if i >= cs.len() {
        (d, Ok(()))
    } else {
        match sectors_stored(d, cluster_start(b, cs[i]), b.sectors_per_cluster as int, data, pos) {
            (after, Ok(())) => clusters_stored(
                after,
                b,
                cs,
                i + 1,
                data,
                forward(data, pos, b.sectors_per_cluster * 512),
            ),
            (after, Err(e)) => (after, Err(e)),
        }
    }
}

/// How many clusters `n` bytes take.
pub open spec fn clusters_for(b: Bpb, n: int) -> int {
    let size = b.sectors_per_cluster * 512;
    n / size + if n % size != 0 {
        1int
    } else {
        0int
    }
}

/// What writing `data` to a fresh chain does; its first cluster is the result, 0 for no data.
pub open spec fn chain_written(d: DiskModel, b: Bpb, data: Seq<u8>) -> (
    DiskModel,
    Result<u16, FatError>,
) {
    if data.len() == 0 {
        (d, Ok(0))
    } else {
        match reserved(d, b, Seq::empty(), clusters_for(b, data.len() as int) as nat) {
            (d1, Err(e)) => (d1, Err(e)),
            (d1, Ok(cs)) => match joined(d1, b, cs, 0) {
                (d2, Err(e)) => (d2, Err(e)),
                (d2, Ok(())) => match clusters_stored(d2, b, cs, 0, data, 0) {
                    (d3, Err(e)) => (d3, Err(e)),
                    (d3, Ok(())) => (d3, Ok(cs[0])),
                },
            },
        }
    }
}

/// Frees clusters one by one, passing over failures.
fn release(disk: &mut Disk, b: &Bpb, taken: &Vec<u16>)
    requires
        disk::whole(old(disk)@),
        b.ok(),
    ensures
        disk::whole(final(disk)@),
        final(disk)@ == released(old(disk)@, *b, taken@),
{
    let ghost before = disk@;
    let mut i: usize = 0;
    assert(taken@.skip(0) =~= taken@);
    while i < taken.len()
        invariant
            disk::whole(disk@),
            b.ok(),
            i <= taken@.len(),
            before == old(disk)@,
            released(before, *b, taken@) == released(disk@, *b, taken@.skip(i as int)),
        decreases taken@.len() - i,
    {
        assert(taken@.skip(i as int)[0] == taken@[i as int]);
        assert(taken@.skip(i as int).drop_first() =~= taken@.skip(i + 1));
        let _freed: Result<(), FatError> = write_fat_entry(disk, b, taken[i], FAT_ENTRY_FREE);
        i = i + 1;
    }
}

/// Claims `n` clusters.
fn reserve(disk: &mut Disk, b: &Bpb, n: usize) -> (r: Result<Vec<u16>, FatError>)
    requires
        disk::whole(old(disk)@),
        b.ok(),
        bpb::clusters(*b) < 65525,
    ensures
        disk::whole(final(disk)@),
        match r {
            Ok(cs) => reserved(old(disk)@, *b, Seq::empty(), n as nat) == (
                final(disk)@,
                Ok::<Seq<u16>, FatError>(cs@),
            ) && cs@.len() == n && forall|i: int| 0 <= i < n ==> cs@[i] >= 2,
            Err(e) => reserved(old(disk)@, *b, Seq::empty(), n as nat) == (
                final(disk)@,
                Err::<Seq<u16>, FatError>(e),
            ),
        },
{
    let ghost before = disk@;
    let mut taken: Vec<u16> = Vec::new();
    assert(taken@ =~= Seq::empty());
    while taken.len() < n
        invariant
            disk::whole(disk@),
            b.ok(),
            bpb::clusters(*b) < 65525,
            taken@.len() <= n,
            forall|i: int| 0 <= i < taken@.len() ==> taken@[i] >= 2,
            before == old(disk)@,
            reserved(before, *b, Seq::empty(), n as nat) == reserved(
                disk@,
                *b,
                taken@,
                (n - taken@.len()) as nat,
            ),
        decreases n - taken@.len(),
    {
        proof {
            lemma_free_is_cluster(disk@, *b, 0);
        }
        match alloc_cluster(disk, b) {
            Ok(Some(c)) => {
                taken.push(c);
            },
            Ok(None) => {
                release(disk, b, &taken);
                return Err(FatError::NoSpace);
            },
            Err(e) => {
                return Err(e);
            },
        }
    }
    Ok(taken)
}

/// A free cluster that is found has a cluster's number.
pub proof fn lemma_free_is_cluster(d: DiskModel, b: Bpb, n: int)
    requires
        0 <= n,
        bpb::clusters(b) < 65525,
    ensures
        table::free_from(d, b, n) matches Ok(Some(c)) ==> 2 <= c <= bpb::clusters(b) + 1 && n <= c,
    decreases b.fat_size_sectors * 256 - n,
{
    if n / 256 < b.fat_size_sectors {
        lemma_free_is_cluster(d, b, n + 1);
    }
}

/// Links each cluster to the next.
fn join(disk: &mut Disk, b: &Bpb, cs: &Vec<u16>) -> (r: Result<(), FatError>)
    requires
        disk::whole(old(disk)@),
        b.ok(),
    ensures
        disk::whole(final(disk)@),
        (final(disk)@, r) == joined(old(disk)@, *b, cs@, 0),
{
    let ghost before = disk@;
    let mut i: usize = 0;
    while cs.len() > 0 && i < cs.len() - 1
        invariant
            disk::whole(disk@),
            b.ok(),
            i <= cs@.len(),
            before == old(disk)@,
            joined(before, *b, cs@, 0) == joined(disk@, *b, cs@, i as int),
        decreases cs@.len() - i,
    {
        if let Err(e) = write_fat_entry(disk, b, cs[i], cs[i + 1]) {
            return Err(e);
        }
        i = i + 1;
    }
    Ok(())
}

/// The sector's worth of `data` from `pos` on.
fn cut(data: &[u8], pos: usize) -> (s: Vec<u8>)
    requires
        pos <= data@.len(),
    ensures
        s@ == piece(data@, pos as int),
        s@.len() == 512,
{
    let mut s: Vec<u8> = Vec::new();
    let left: usize = data.len() - pos;
    let mut i: usize = 0;
    while i < 512
        invariant
            i <= 512,
            pos <= data@.len(),
            left == data@.len() - pos,
            s@.len() == i,
            forall|j: int| 0 <= j < i ==> s@[j] == piece(data@, pos as int)[j],
        decreases 512 - i,
    {
        if i < left {
            assert(pos + i < data.len());
            s.push(data[pos + i]);
        } else {
            s.push(0);
        }
        i = i + 1;
    }
    assert(s@ =~= piece(data@, pos as int));
    s
}

/// The position `n` bytes after `pos`.
fn advance(data: &[u8], pos: usize, n: usize) -> (next: usize)
    requires
        pos <= data@.len(),
    ensures
        next == forward(data@, pos as int, n as int),
        next <= data@.len(),
{
    if n < data.len() - pos {
        pos + n
    } else {
        data.len()
    }
}

/// Stores `n` sectors' worth of `data`.
fn store_sectors(disk: &mut Disk, lba: u32, n: u32, data: &[u8], pos: usize) -> (r: Result<
    (),
    FatError,
>)
    requires
        disk::whole(old(disk)@),
        lba + n <= u32::MAX,
        pos <= data@.len(),
    ensures
        disk::whole(final(disk)@),
        (final(disk)@, r) == sectors_stored(
            old(disk)@,
            lba as int,
            n as int,
            data@,
            pos as int,
        ),
{
    let ghost before = disk@;
    let mut at: usize = pos;
    let mut i: u32 = 0;
    while i < n
        invariant
            disk::whole(disk@),
            lba + n <= u32::MAX,
            i <= n,
            at <= data@.len(),
            before == old(disk)@,
            sectors_stored(before, lba as int, n as int, data@, pos as int) == sectors_stored(
                disk@,
                lba + i,
                n - i,
                data@,
                at as int,
            ),
        decreases n - i,
    {
        let s: Vec<u8> = cut(data, at);
        if let Err(e) = disk.write(lba + i, s) {
            return Err(FatError::from(e));
        }
        at = advance(data, at, 512);
        i = i + 1;
    }
    Ok(())
}

/// Stores `data` in clusters.
fn store_clusters(disk: &mut Disk, b: &Bpb, cs: &Vec<u16>, data: &[u8]) -> (r: Result<
    (),
    FatError,
>)
    requires
        disk::whole(old(disk)@),
        b.ok(),
        forall|i: int| 0 <= i < cs@.len() ==> cs@[i] >= 2,
    ensures
        disk::whole(final(disk)@),
        (final(disk)@, r) == clusters_stored(old(disk)@, *b, cs@, 0, data@, 0),
{
    let ghost before = disk@;
    let mut at: usize = 0;
    let mut i: usize = 0;
    while i < cs.len()
        invariant
            disk::whole(disk@),
            b.ok(),
            forall|i: int| 0 <= i < cs@.len() ==> cs@[i] >= 2,
            i <= cs@.len(),
            at <= data@.len(),
            before == old(disk)@,
            clusters_stored(before, *b, cs@, 0, data@, 0) == clusters_stored(
                disk@,
                *b,
                cs@,
                i as int,
                data@,
                at as int,
            ),
        decreases cs@.len() - i,
    {
        let lba: u32 = cluster_lba(b, cs[i]);
        if let Err(e) = store_sectors(disk, lba, b.sectors_per_cluster as u32, data, at) {
            return Err(e);
        }
        at = advance(data, at, b.sectors_per_cluster as usize * 512);
        i = i + 1;
    }
    Ok(())
}

/// Writes `data` to a fresh chain and returns its first cluster, 0 for no data. The last sector
/// is padded with zeros. If the volume fills up, the clusters taken are released.
pub fn write_chain(disk: &mut Disk, b: &Bpb, data: &[u8]) -> (r: Result<u16, FatError>)
    requires
        disk::whole(old(disk)@),
        b.ok(),
        bpb::clusters(*b) < 65525,
        b.sectors_per_cluster > 0,
    ensures
        disk::whole(final(disk)@),
        (final(disk)@, r) == chain_written(old(disk)@, *b, data@),
{
    if data.len() == 0 {
        return Ok(0);
    }
    let size: usize = b.sectors_per_cluster as usize * 512;
    let full: usize = data.len() / size;
    let rest: usize = data.len() % size;
    proof {
        lemma_quotient(data.len() as int, size as int);
    }
    let count: usize = if rest != 0 {
        full + 1
    } else {
        full
    };
    match reserve(disk, b, count) {
        Ok(cs) => {
            if let Err(e) = join(disk, b, &cs) {
                return Err(e);
            }
            if let Err(e) = store_clusters(disk, b, &cs, data) {
                return Err(e);
            }
            Ok(cs[0])
        },
        Err(e) => Err(e),
    }
}

proof fn lemma_quotient(n: int, size: int)
    requires
        n > 0,
        size >= 512,
    ensures
        0 <= n / size <= n / 512,
        n % size == 0 ==> n / size > 0,
{
    vstd::arithmetic::div_mod::lemma_fundamental_div_mod(n, size);
    assert(n / size <= n / 512) by {
        vstd::arithmetic::div_mod::lemma_div_is_ordered_by_denominator(n, 512, size);
    }
    assert(n / size >= 0) by {
        vstd::arithmetic::div_mod::lemma_div_pos_is_pos(n, size);
    }
    if n / size == 0 {
        assert(size * (n / size) == 0);
    }
}

} // verus!
