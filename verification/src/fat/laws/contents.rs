//! The contents of clusters on a sound volume: what is stored in a chain is read back from it.

use vstd::prelude::*;

use crate::disk;
use crate::disk::{DiskError, DiskModel};
use crate::fat::bpb;
use crate::fat::bpb::{Bpb, FatError};
use crate::fat::chain;
use crate::fat::laws::claim;
use crate::fat::laws::entries;
use crate::fat::table;

verus! {

/// No sector from `lo` to `hi` fails.
pub open spec fn unfailing(d: DiskModel, lo: int, hi: int) -> bool {
    forall|lba: int| lo <= lba < hi ==> !(#[trigger] entries::at(d, lba) matches Err(
        DiskError::Ata(_),
    ))
}

/// The end of the clusters.
pub open spec fn data_end(b: Bpb) -> int {
    bpb::data_start(b) + bpb::clusters(b) * b.sectors_per_cluster
}

/// The position `x`, not beyond the end of `data`.
pub open spec fn clamped(data: Seq<u8>, x: int) -> int {
    chain::forward(data, 0, x)
}

/// The first `n` bytes of `data` followed by zeros without end.
pub open spec fn stream(data: Seq<u8>, n: nat) -> Seq<u8> {
    Seq::new(
        n,
        |i: int|
            if i < data.len() {
                data[i]
            } else {
                0u8
            },
    )
}

/// The sectors of a cluster lie within the data, and those of different clusters lie apart.
pub proof fn lemma_cluster_place(b: Bpb, c: u16)
    requires
        entries::sensible(b),
        entries::on_volume(b, c),
    ensures
        bpb::data_start(b) <= chain::cluster_start(b, c),
        chain::cluster_start(b, c) + b.sectors_per_cluster <= data_end(b),
        data_end(b) <= b.total_sectors,
        bpb::root_start(b) <= bpb::data_start(b),
{
    bpb::regions_are_ordered(b);
    let n = b.sectors_per_cluster as int;
    assert(0 <= (c - 2) * n) by (nonlinear_arith)
        requires
            c >= 2,
            n > 0,
    ;
    assert((c - 2) * n + n <= bpb::clusters(b) * n) by (nonlinear_arith)
        requires
            c - 1 <= bpb::clusters(b),
            n > 0,
    ;
    let room = b.total_sectors - bpb::data_start(b);
    assert(bpb::clusters(b) == room / n);
    vstd::arithmetic::div_mod::lemma_fundamental_div_mod(room, n);
    vstd::arithmetic::mul::lemma_mul_is_commutative(n, room / n);
}

pub proof fn lemma_clusters_apart(b: Bpb, c1: u16, c2: u16)
    requires
        c1 != c2,
    ensures
        c1 < c2 ==> chain::cluster_start(b, c1) + b.sectors_per_cluster <= chain::cluster_start(
            b,
            c2,
        ),
        c2 < c1 ==> chain::cluster_start(b, c2) + b.sectors_per_cluster <= chain::cluster_start(
            b,
            c1,
        ),
{
    let n = b.sectors_per_cluster as int;
    if c1 < c2 {
        assert((c1 - 2) * n + n <= (c2 - 2) * n) by (nonlinear_arith)
            requires
                c1 + 1 <= c2,
                n >= 0,
        ;
    } else {
        assert((c2 - 2) * n + n <= (c1 - 2) * n) by (nonlinear_arith)
            requires
                c2 + 1 <= c1,
                n >= 0,
        ;
    }
}

/// The `n` sectors from `lba` on hold `data` from position `pos` on.
pub open spec fn holds_data(d: DiskModel, lba: int, n: int, data: Seq<u8>, pos: int) -> bool {
    forall|j: int|
        0 <= j < n ==> #[trigger] entries::at(d, lba + j) == Ok::<Seq<u8>, DiskError>(
            chain::piece(data, clamped(data, pos + 512 * j)),
        )
}

proof fn lemma_sectors_stored(d: DiskModel, lba: int, n: int, data: Seq<u8>, pos: int)
    requires
        0 <= lba,
        0 <= n,
        lba + n <= u32::MAX,
        0 <= pos,
        unfailing(d, lba, lba + n),
    ensures
        ({
            let (after, r) = chain::sectors_stored(d, lba, n, data, clamped(data, pos));
            &&& r is Ok
            &&& holds_data(after, lba, n, data, pos)
            &&& entries::same_outside(after, d, lba, lba + n)
        }),
    decreases n,
{
    if n > 0 {
        assert(!(entries::at(d, lba) matches Err(DiskError::Ata(_))));
        let first = chain::piece(data, clamped(data, pos));
        entries::lemma_stored(d, lba, first);
        let d1 = disk::stored(d, lba as u32, first).0;
        assert forall|l: int| lba + 1 <= l < lba + n implies !(#[trigger] entries::at(
            d1,
            l,
        ) matches Err(DiskError::Ata(_))) by {
            assert(entries::at(d1, l) == entries::at(d, l));
        }
        assert(chain::forward(data, clamped(data, pos), 512) == clamped(data, pos + 512));
        lemma_sectors_stored(d1, lba + 1, n - 1, data, pos + 512);
        let after = chain::sectors_stored(d1, lba + 1, n - 1, data, clamped(data, pos + 512)).0;
        assert forall|j: int| 0 <= j < n implies #[trigger] entries::at(after, lba + j) == Ok::<
            Seq<u8>,
            DiskError,
        >(chain::piece(data, clamped(data, pos + 512 * j))) by {
            if j == 0 {
                assert(entries::at(after, lba) == entries::at(d1, lba));
            } else {
                assert(entries::at(after, lba + 1 + (j - 1)) == Ok::<Seq<u8>, DiskError>(
                    chain::piece(data, clamped(data, pos + 512 + 512 * (j - 1))),
                ));
            }
        }
        assert forall|l: int| 0 <= l <= u32::MAX && !(lba <= l < lba + n) implies #[trigger] entries::at(
            after,
            l,
        ) == entries::at(d, l) by {
            assert(entries::at(after, l) == entries::at(d1, l));
            assert(entries::at(d1, l) == entries::at(d, l));
        }
    }
}

/// Sector `l` lies in one of the clusters from position `i` on.
pub open spec fn in_clusters(b: Bpb, cs: Seq<u16>, i: int, l: int) -> bool {
    exists|j: int|
        i <= j < cs.len() && chain::cluster_start(b, #[trigger] cs[j]) <= l < chain::cluster_start(
            b,
            cs[j],
        ) + b.sectors_per_cluster
}

/// How many bytes a cluster holds.
pub open spec fn cluster_bytes(b: Bpb) -> int {
    b.sectors_per_cluster * 512
}

proof fn lemma_step(k: int, size: int)
    ensures
        (k + 1) * size == k * size + size,
{
    assert((k + 1) * size == k * size + size) by (nonlinear_arith);
}

pub proof fn lemma_clusters_stored(
    d: DiskModel,
    b: Bpb,
    cs: Seq<u16>,
    i: int,
    data: Seq<u8>,
)
    requires
        entries::sensible(b),
        claim::distinct_clusters(b, cs),
        0 <= i <= cs.len(),
        unfailing(d, bpb::data_start(b), data_end(b)),
    ensures
        ({
            let (after, r) = chain::clusters_stored(
                d,
                b,
                cs,
                i,
                data,
                clamped(data, i * cluster_bytes(b)),
            );
            &&& r is Ok
            &&& forall|j: int|
                i <= j < cs.len() ==> holds_data(
                    after,
                    chain::cluster_start(b, #[trigger] cs[j]),
                    b.sectors_per_cluster as int,
                    data,
                    j * cluster_bytes(b),
                )
            &&& forall|l: int|
                0 <= l <= u32::MAX && !in_clusters(b, cs, i, l) ==> #[trigger] entries::at(after, l)
                    == entries::at(d, l)
        }),
    decreases cs.len() - i,
{
    let size = cluster_bytes(b);
    if i < cs.len() {
        let n = b.sectors_per_cluster as int;
        assert(entries::on_volume(b, cs[i]));
        lemma_cluster_place(b, cs[i]);
        let lba = chain::cluster_start(b, cs[i]);
        let pos = i * size;
        assert(0 <= pos) by (nonlinear_arith)
            requires
                0 <= i,
                size >= 0,
                pos == i * size,
        ;
        assert(unfailing(d, lba, lba + n)) by {
            assert forall|l: int| lba <= l < lba + n implies !(#[trigger] entries::at(
                d,
                l,
            ) matches Err(DiskError::Ata(_))) by {
                assert(bpb::data_start(b) <= l < data_end(b));
            }
        }
        lemma_sectors_stored(d, lba, n, data, pos);
        let d1 = chain::sectors_stored(d, lba, n, data, clamped(data, pos)).0;
        lemma_step(i, size);
        assert(chain::forward(data, clamped(data, pos), n * 512) == clamped(
            data,
            (i + 1) * size,
        ));
        assert forall|l: int| bpb::data_start(b) <= l < data_end(b) implies !(#[trigger] entries::at(
            d1,
            l,
        ) matches Err(DiskError::Ata(_))) by {
            if lba <= l < lba + n {
                assert(entries::at(d1, lba + (l - lba)) is Ok);
            } else {
                assert(entries::at(d1, l) == entries::at(d, l));
            }
        }
        lemma_clusters_stored(d1, b, cs, i + 1, data);
        let after = chain::clusters_stored(
            d1,
            b,
            cs,
            i + 1,
            data,
            clamped(data, (i + 1) * size),
        ).0;
        assert forall|j: int| i <= j < cs.len() implies holds_data(
            after,
            chain::cluster_start(b, #[trigger] cs[j]),
            n,
            data,
            j * size,
        ) by {
            if j == i {
                assert forall|k: int| 0 <= k < n implies #[trigger] entries::at(after, lba + k)
                    == Ok::<Seq<u8>, DiskError>(
                    chain::piece(data, clamped(data, pos + 512 * k)),
                ) by {
                    if in_clusters(b, cs, i + 1, lba + k) {
                        let o = choose|o: int|
                            i + 1 <= o < cs.len() && chain::cluster_start(b, #[trigger] cs[o]) <= lba
                                + k < chain::cluster_start(b, cs[o]) + n;
                        assert(cs[o] != cs[i]);
                        lemma_clusters_apart(b, cs[o], cs[i]);
                    }
                    assert(entries::at(after, lba + k) == entries::at(d1, lba + k));
                }
            }
        }
        assert forall|l: int| 0 <= l <= u32::MAX && !in_clusters(b, cs, i, l) implies #[trigger] entries::at(
            after,
            l,
        ) == entries::at(d, l) by {
            if in_clusters(b, cs, i + 1, l) {
                let o = choose|o: int|
                    i + 1 <= o < cs.len() && chain::cluster_start(b, #[trigger] cs[o]) <= l
                        < chain::cluster_start(b, cs[o]) + n;
                assert(i <= o < cs.len());
            }
            assert(entries::at(after, l) == entries::at(d1, l));
            if lba <= l < lba + n {
                assert(chain::cluster_start(b, cs[i]) <= l);
                assert(in_clusters(b, cs, i, l));
            }
            assert(entries::at(d1, l) == entries::at(d, l));
        }
    }
}

proof fn lemma_stream_grows(data: Seq<u8>, pos: nat)
    ensures
        stream(data, pos) + chain::piece(data, clamped(data, pos as int)) == stream(data, pos + 512),
{
    assert(stream(data, pos) + chain::piece(data, clamped(data, pos as int)) =~= stream(
        data,
        pos + 512,
    ));
}

proof fn lemma_sectors_read(d: DiskModel, lba: int, n: int, data: Seq<u8>, pos: nat)
    requires
        0 <= n,
        holds_data(d, lba, n, data, pos as int),
    ensures
        chain::sectors_read(d, lba, n, stream(data, pos)) == Ok::<Seq<u8>, FatError>(
            stream(data, (pos + 512 * n) as nat),
        ),
    decreases n,
{
    if n > 0 {
        assert(entries::at(d, lba + 0int) == Ok::<Seq<u8>, DiskError>(
            chain::piece(data, clamped(data, pos as int)),
        ));
        lemma_stream_grows(data, pos);
        assert forall|j: int| 0 <= j < n - 1 implies #[trigger] entries::at(d, lba + 1 + j) == Ok::<
            Seq<u8>,
            DiskError,
        >(chain::piece(data, clamped(data, (pos + 512) + 512 * j))) by {
            assert(entries::at(d, lba + (1 + j)) == Ok::<Seq<u8>, DiskError>(
                chain::piece(data, clamped(data, pos + 512 * (1 + j))),
            ));
        }
        lemma_sectors_read(d, lba + 1, n - 1, data, pos + 512);
    }
}

/// The clusters `cs` form a chain that holds `data`.
pub open spec fn chain_holds(d: DiskModel, b: Bpb, cs: Seq<u16>, data: Seq<u8>) -> bool {
    &&& claim::distinct_clusters(b, cs)
    &&& forall|j: int|
        0 <= j < cs.len() - 1 ==> table::link(d, b, #[trigger] cs[j]) == Ok::<u16, FatError>(
            cs[j + 1],
        )
    &&& forall|j: int|
        0 <= j < cs.len() ==> holds_data(
            d,
            chain::cluster_start(b, #[trigger] cs[j]),
            b.sectors_per_cluster as int,
            data,
            j * cluster_bytes(b),
        )
    &&& (cs.len() - 1) * cluster_bytes(b) < data.len() <= cs.len() * cluster_bytes(b)
}

proof fn lemma_chain_fits(b: Bpb, cs: Seq<u16>)
    requires
        claim::distinct_clusters(b, cs),
        entries::sensible(b),
    ensures
        cs.len() <= bpb::clusters(b),
{
    let numbers = Seq::new(cs.len(), |i: int| cs[i] as int);
    assert(numbers.no_duplicates());
    numbers.unique_seq_to_set();
    let range = vstd::set_lib::set_int_range(2, bpb::clusters(b) + 2);
    vstd::set_lib::lemma_int_range(2, bpb::clusters(b) + 2);
    assert(numbers.to_set().subset_of(range)) by {
        assert forall|x: int| numbers.to_set().contains(x) implies range.contains(x) by {
            let i = choose|i: int| 0 <= i < numbers.len() && numbers[i] == x;
            assert(entries::on_volume(b, cs[i]));
        }
    }
    vstd::set_lib::lemma_len_subset(numbers.to_set(), range);
}

/// A chain that holds data reads back as that data.
pub proof fn held_data_reads_back(d: DiskModel, b: Bpb, cs: Seq<u16>, data: Seq<u8>, i: int)
    requires
        entries::sensible(b),
        chain_holds(d, b, cs, data),
        0 <= i < cs.len(),
    ensures
        chain::chain_read(
            d,
            b,
            cs[i],
            data.len() as int,
            i,
            stream(data, (i * cluster_bytes(b)) as nat),
        ) == Ok::<Seq<u8>, FatError>(data),
    decreases cs.len() - i,
{
    let size = cluster_bytes(b);
    let n = b.sectors_per_cluster as int;
    lemma_chain_fits(b, cs);
    assert(entries::on_volume(b, cs[i]));
    lemma_step(i, size);
    assert(0 <= i * size) by (nonlinear_arith)
        requires
            0 <= i,
            size >= 0,
    ;
    let pos = (i * size) as nat;
    lemma_sectors_read(d, chain::cluster_start(b, cs[i]), n, data, pos);
    let next = ((i + 1) * size) as nat;
    assert(pos + 512 * n == next);
    let more = stream(data, next);
    if next >= data.len() {
        assert(more.take(data.len() as int) =~= data);
    } else {
        assert(i + 1 < cs.len()) by {
            if i + 1 == cs.len() {
                assert(cs.len() * size == (i + 1) * size);
            }
        }
        assert(table::link(d, b, cs[i]) == Ok::<u16, FatError>(cs[i + 1]));
        held_data_reads_back(d, b, cs, data, i + 1);
    }
}

} // verus!
