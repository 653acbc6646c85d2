//! Reading a volume that other tools made: the geometry in its boot sector, the chains in its
//! table, and the files that its entries name.

use vstd::prelude::*;

use crate::disk;
use crate::disk::DiskModel;
use crate::fat::bpb;
use crate::fat::bpb::{Bpb, FatError};
use crate::fat::chain;
use crate::fat::dir;
use crate::fat::laws::directory;
use crate::fat::laws::directory::sector_is;
use crate::fat::table;
use crate::fat::volume;

verus! {

/// Two bytes as a number, the lower first.
pub open spec fn word(s: Seq<u8>, i: int) -> int {
    s[i] + s[i + 1] * 256
}

/// The number of clusters of a volume: what is left of its sectors behind the reserved ones, the
/// tables and the root directory, in units of a cluster.
pub open spec fn cluster_count(total: int, reserved: int, fats: int, fat_size: int, root: int, per_cluster: int) -> int {
    let before = reserved + fats * fat_size + (root * 32 + 511) / 512;
    if total <= before {
        0
    } else {
        (total - before) / per_cluster
    }
}

/// A boot sector is understood if it ends with its signature, has sectors of 512 bytes and as many
/// clusters as a FAT16 volume may have; then each field is read from where the format has it. The
/// number of sectors is the 32-bit one where the 16-bit one is zero.
pub proof fn boot_sector_is_understood(s: Seq<u8>)
    requires
        s.len() == 512,
        s[13] > 0,
    ensures
        ({
            let small = word(s, 19);
            let total = if small != 0 {
                small
            } else {
                s[32] + s[33] * 0x100 + s[34] * 0x1_0000 + s[35] * 0x100_0000
            };
            let count = cluster_count(
                total,
                word(s, 14),
                s[16] as int,
                word(s, 22),
                word(s, 17),
                s[13] as int,
            );
            &&& s[510] != 0x55 || s[511] != 0xAA ==> bpb::parsed(s) == Err::<Bpb, FatError>(
                FatError::BadSignature,
            )
            &&& s[510] == 0x55 && s[511] == 0xAA && word(s, 11) != 512 ==> bpb::parsed(s) == Err::<
                Bpb,
                FatError,
            >(FatError::UnsupportedSectorSize(word(s, 11) as u16))
            &&& s[510] == 0x55 && s[511] == 0xAA && word(s, 11) == 512 && !(4085 <= count < 65525)
                ==> bpb::parsed(s) == Err::<Bpb, FatError>(FatError::NotFat16)
            &&& s[510] == 0x55 && s[511] == 0xAA && word(s, 11) == 512 && 4085 <= count < 65525
                ==> bpb::parsed(s) == Ok::<Bpb, FatError>(
                Bpb {
                    bytes_per_sector: 512,
                    sectors_per_cluster: s[13],
                    reserved_sectors: word(s, 14) as u16,
                    num_fats: s[16],
                    root_entry_count: word(s, 17) as u16,
                    total_sectors: total as u32,
                    fat_size_sectors: word(s, 22) as u32,
                },
            )
        }),
{
}

/// The first sector of a cluster: behind the reserved sectors, the tables and the root directory
/// come the clusters, from number 2 on.
pub open spec fn first_sector(b: Bpb, c: int) -> int {
    b.reserved_sectors + b.num_fats * b.fat_size_sectors + (b.root_entry_count * 32 + 511) / 512 + (
    c - 2) * b.sectors_per_cluster
}

/// The table says `v` of cluster `c`.
pub open spec fn table_says(d: DiskModel, b: Bpb, c: int, v: int) -> bool {
    exists|s: Seq<u8>|
        sector_is(d, b.reserved_sectors + c / 256, s) && s.len() == 512 && #[trigger] word(
            s,
            c % 256 * 2,
        ) == v
}

/// The clusters `cs` form a chain in the table, each naming the next.
pub open spec fn chained(d: DiskModel, b: Bpb, cs: Seq<u16>) -> bool {
    &&& forall|i: int| 0 <= i < cs.len() ==> 2 <= #[trigger] cs[i] <= 0xFFEF
    &&& forall|i: int| 0 <= i < cs.len() - 1 ==> table_says(d, b, #[trigger] cs[i] as int, cs[i + 1] as int)
}

/// The clusters `cs`, one after the other, hold `data`.
pub open spec fn clusters_hold(d: DiskModel, b: Bpb, cs: Seq<u16>, data: Seq<u8>) -> bool {
    &&& data.len() == cs.len() * (b.sectors_per_cluster * 512)
    &&& forall|i: int, k: int|
        0 <= i < cs.len() && 0 <= k < b.sectors_per_cluster ==> sector_is(
            d,
            #[trigger] first_sector(b, cs[i] as int) + k,
            #[trigger] data.subrange(
                i * (b.sectors_per_cluster * 512) + k * 512,
                i * (b.sectors_per_cluster * 512) + k * 512 + 512,
            ),
        )
}

proof fn lemma_link(d: DiskModel, b: Bpb, c: u16, v: u16)
    requires
        table_says(d, b, c as int, v as int),
    ensures
        table::link(d, b, c) == Ok::<u16, FatError>(v),
{
    let s = choose|s: Seq<u8>|
        sector_is(d, b.reserved_sectors + c as int / 256, s) && s.len() == 512 && #[trigger] word(
            s,
            c as int % 256 * 2,
        ) == v;
    assert(0 * b.fat_size_sectors == 0);
    assert(table::entry_sector(b, c, 0) == b.reserved_sectors + c as int / 256);
    assert(table::entry_offset(c) == c as int % 256 * 2);
    assert(disk::sector(d, table::entry_sector(b, c, 0) as u32) == Ok::<Seq<u8>, disk::DiskError>(
        s,
    ));
}

proof fn lemma_sectors(d: DiskModel, lba: int, n: int, data: Seq<u8>, at: int)
    requires
        0 <= n,
        0 <= at,
        at + n * 512 <= data.len(),
        forall|k: int|
            0 <= k < n ==> sector_is(
                d,
                lba + k,
                #[trigger] data.subrange(at + k * 512, at + k * 512 + 512),
            ),
    ensures
        chain::sectors_read(d, lba, n, data.take(at)) == Ok::<Seq<u8>, FatError>(
            data.take(at + n * 512),
        ),
    decreases n,
{
    if n > 0 {
        let s = data.subrange(at + 0 * 512, at + 0 * 512 + 512);
        assert(sector_is(d, lba + 0, s));
        assert(disk::sector(d, lba as u32) == Ok::<Seq<u8>, disk::DiskError>(s));
        assert(data.take(at) + s =~= data.take(at + 512));
        assert forall|k: int| 0 <= k < n - 1 implies sector_is(
            d,
            lba + 1 + k,
            #[trigger] data.subrange(at + 512 + k * 512, at + 512 + k * 512 + 512),
        ) by {
            assert(data.subrange(at + (k + 1) * 512, at + (k + 1) * 512 + 512) == data.subrange(
                at + 512 + k * 512,
                at + 512 + k * 512 + 512,
            ));
        }
        lemma_sectors(d, lba + 1, n - 1, data, at + 512);
    }
}

proof fn lemma_cluster(d: DiskModel, b: Bpb, cs: Seq<u16>, data: Seq<u8>, i: int)
    requires
        b.ok(),
        chained(d, b, cs),
        clusters_hold(d, b, cs, data),
        0 <= i < cs.len(),
    ensures
        ({
            let size = b.sectors_per_cluster * 512;
            &&& 0 <= i * size
            &&& (i + 1) * size == i * size + size
            &&& (i + 1) * size <= data.len()
            &&& chain::sectors_read(
                d,
                chain::cluster_start(b, cs[i]),
                b.sectors_per_cluster as int,
                data.take(i * size),
            ) == Ok::<Seq<u8>, FatError>(data.take((i + 1) * size))
        }),
{
    let size = b.sectors_per_cluster * 512;
    assert((i + 1) * size == i * size + size) by (nonlinear_arith);
    assert((i + 1) * size <= cs.len() * size) by (nonlinear_arith)
        requires
            i + 1 <= cs.len(),
            size >= 0,
    ;
    assert(0 <= i * size) by (nonlinear_arith)
        requires
            0 <= i,
            size >= 0,
    ;
    assert(2 <= cs[i]);
    let lba = chain::cluster_start(b, cs[i]);
    assert(lba == first_sector(b, cs[i] as int));
    assert forall|k: int| 0 <= k < b.sectors_per_cluster implies sector_is(
        d,
        lba + k,
        #[trigger] data.subrange(i * size + k * 512, i * size + k * 512 + 512),
    ) by {
        assert(first_sector(b, cs[i] as int) + k == lba + k);
    }
    lemma_sectors(d, lba, b.sectors_per_cluster as int, data, i * size);
}

/// The contents of a file are those of its clusters, in the order of the chain, cut to its size,
/// however the clusters lie on the volume.
pub proof fn chain_reads_as_its_clusters(
    d: DiskModel,
    b: Bpb,
    cs: Seq<u16>,
    data: Seq<u8>,
    size: int,
)
    requires
        b.ok(),
        b.sectors_per_cluster > 0,
        0 < cs.len() <= bpb::clusters(b),
        chained(d, b, cs),
        clusters_hold(d, b, cs, data),
        0 <= size <= data.len(),
    ensures
        chain::chain_read(d, b, cs[0], size, 0, Seq::empty()) == Ok::<Seq<u8>, FatError>(
            data.take(size),
        ),
{
    assert(data.take(0) =~= Seq::empty());
    assert(0 * (b.sectors_per_cluster * 512) == 0);
    lemma_chain_from(d, b, cs, data, size, 0);
}

proof fn lemma_chain_from(
    d: DiskModel,
    b: Bpb,
    cs: Seq<u16>,
    data: Seq<u8>,
    size: int,
    i: int,
)
    requires
        b.ok(),
        b.sectors_per_cluster > 0,
        0 <= i < cs.len() <= bpb::clusters(b),
        chained(d, b, cs),
        clusters_hold(d, b, cs, data),
        0 <= size <= data.len(),
    ensures
        chain::chain_read(d, b, cs[i], size, i, data.take(i * (b.sectors_per_cluster * 512)))
            == Ok::<Seq<u8>, FatError>(data.take(size)),
    decreases cs.len() - i,
{
    let cluster = b.sectors_per_cluster * 512;
    assert(table::is_cluster(cs[i]));
    lemma_cluster(d, b, cs, data, i);
    let more = data.take((i + 1) * cluster);
    if more.len() >= size {
        assert(more.take(size) =~= data.take(size));
    } else {
        if i + 1 == cs.len() {
            assert((i + 1) * cluster == data.len());
        }
        assert(table_says(d, b, cs[i] as int, cs[i + 1] as int));
        lemma_link(d, b, cs[i], cs[i + 1]);
        lemma_chain_from(d, b, cs, data, size, i + 1);
    }
}

/// A chain that ends before the size of the file is reached is broken, and nothing is read from
/// it.
pub proof fn short_chain_is_broken(
    d: DiskModel,
    b: Bpb,
    cs: Seq<u16>,
    data: Seq<u8>,
    size: int,
    end: u16,
)
    requires
        b.ok(),
        b.sectors_per_cluster > 0,
        0 < cs.len() <= bpb::clusters(b),
        chained(d, b, cs),
        clusters_hold(d, b, cs, data),
        data.len() < size,
        end < 2 || end > 0xFFEF,
        table_says(d, b, cs.last() as int, end as int),
    ensures
        chain::chain_read(d, b, cs[0], size, 0, Seq::empty()) == Err::<Seq<u8>, FatError>(
            FatError::BadChain,
        ),
{
    assert(data.take(0) =~= Seq::empty());
    assert(0 * (b.sectors_per_cluster * 512) == 0);
    lemma_short_from(d, b, cs, data, size, end, 0);
}

proof fn lemma_short_from(
    d: DiskModel,
    b: Bpb,
    cs: Seq<u16>,
    data: Seq<u8>,
    size: int,
    end: u16,
    i: int,
)
    requires
        b.ok(),
        b.sectors_per_cluster > 0,
        0 <= i < cs.len() <= bpb::clusters(b),
        chained(d, b, cs),
        clusters_hold(d, b, cs, data),
        data.len() < size,
        end < 2 || end > 0xFFEF,
        table_says(d, b, cs.last() as int, end as int),
    ensures
        chain::chain_read(d, b, cs[i], size, i, data.take(i * (b.sectors_per_cluster * 512)))
            == Err::<Seq<u8>, FatError>(FatError::BadChain),
    decreases cs.len() - i,
{
    assert(table::is_cluster(cs[i]));
    lemma_cluster(d, b, cs, data, i);
    if i + 1 == cs.len() {
        lemma_link(d, b, cs[i], end);
        let more = data.take((i + 1) * (b.sectors_per_cluster * 512));
        assert(chain::chain_read(d, b, end, size, i + 1, more) == Err::<Seq<u8>, FatError>(
            FatError::BadChain,
        ));
    } else {
        assert(table_says(d, b, cs[i] as int, cs[i + 1] as int));
        lemma_link(d, b, cs[i], cs[i + 1]);
        lemma_short_from(d, b, cs, data, size, end, i + 1);
    }
}

/// A file is read by its name: the first entry that answers to it names the first cluster and
/// the size, and the chain from there holds the contents.
pub proof fn file_is_read_by_its_name(
    d: DiskModel,
    b: Bpb,
    es: Seq<Seq<u8>>,
    want: Seq<char>,
    k: int,
    cs: Seq<u16>,
    data: Seq<u8>,
)
    requires
        b.ok(),
        b.sectors_per_cluster > 0,
        directory::begins_with(d, b, es),
        0 <= k < es.len(),
        directory::answers_to(es[k], want),
        forall|j: int| 0 <= j < k ==> !directory::answers_to(#[trigger] es[j], want),
        es[k][11] & 0x10 == 0,
        0 < cs.len() <= bpb::clusters(b),
        word(es[k], 26) == cs[0],
        chained(d, b, cs),
        clusters_hold(d, b, cs, data),
        word(es[k], 28) + word(es[k], 30) * 0x1_0000 <= data.len(),
    ensures
        volume::file_read(d, b, want) == Ok::<Seq<u8>, FatError>(
            data.take(word(es[k], 28) + word(es[k], 30) * 0x1_0000),
        ),
{
    directory::name_finds_its_entry(d, b, es, want, k);
    let e = es[k];
    let size = word(e, 28) + word(e, 30) * 0x1_0000;
    assert(dir::file_size(e) == size);
    chain_reads_as_its_clusters(d, b, cs, data, size);
}

/// A subdirectory cannot be read as a file, a file without data reads as nothing, and a name to
/// which nothing answers is not found.
pub proof fn other_names_are_told_apart(
    d: DiskModel,
    b: Bpb,
    es: Seq<Seq<u8>>,
    want: Seq<char>,
    k: int,
)
    requires
        b.ok(),
        directory::consists_of(d, b, es),
        0 <= k <= es.len(),
        forall|j: int| 0 <= j < k ==> !directory::answers_to(#[trigger] es[j], want),
        k < es.len() ==> directory::answers_to(es[k], want),
    ensures
        k == es.len() ==> volume::file_read(d, b, want) == Err::<Seq<u8>, FatError>(
            FatError::NotFound,
        ),
        k < es.len() && es[k][11] & 0x10 != 0 ==> volume::file_read(d, b, want) == Err::<
            Seq<u8>,
            FatError,
        >(FatError::IsDirectory),
        k < es.len() && es[k][11] & 0x10 == 0 && word(es[k], 26) == 0 && word(es[k], 28) == 0
            && word(es[k], 30) == 0 ==> volume::file_read(d, b, want) == Ok::<Seq<u8>, FatError>(
            Seq::<u8>::empty(),
        ),
{
    if k < es.len() {
        directory::name_finds_its_entry(d, b, es, want, k);
        assert(Seq::<u8>::empty().take(0) =~= Seq::<u8>::empty());
    } else {
        directory::unknown_name_is_not_found(d, b, es, want);
    }
}

} // verus!
