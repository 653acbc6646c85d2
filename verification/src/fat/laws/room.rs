//! Writing succeeds where there is room.

use vstd::prelude::*;

use crate::disk::{DiskError, DiskModel};
use crate::fat::bpb;
use crate::fat::bpb::{Bpb, FatError};
use crate::fat::chain;
use crate::fat::dir;
use crate::fat::laws::claim;
use crate::fat::laws::contents;
use crate::fat::laws::entries;
use crate::fat::laws::files;
use crate::fat::name;
use crate::fat::table;
use crate::fat::volume;

verus! {

/// The clusters `free` are free, and no two of them the same.
pub open spec fn are_free(d: DiskModel, b: Bpb, free: Seq<u16>) -> bool {
    &&& claim::distinct_clusters(b, free)
    &&& forall|i: int|
        0 <= i < free.len() ==> table::link(d, b, #[trigger] free[i]) == Ok::<u16, FatError>(0)
}

/// Where a cluster is free, one is found.
proof fn lemma_one_is_found(d: DiskModel, b: Bpb, c: u16, n: int)
    requires
        entries::sensible(b),
        entries::table_readable(d, b),
        entries::on_volume(b, c),
        table::link(d, b, c) == Ok::<u16, FatError>(0),
        0 <= n <= c,
    ensures
        table::free_from(d, b, n) matches Ok(Some(_)),
    decreases c - n,
{
    entries::lemma_copies_fit(b, 0);
    assert(0 * b.fat_size_sectors == 0);
    assert(n / 256 < b.fat_size_sectors);
    let lba = b.reserved_sectors + n / 256;
    assert(entries::at(d, lba) is Ok);
    if n < c {
        lemma_one_is_found(d, b, c, n + 1);
    } else {
        assert(c * 2 / 512 == n / 256);
        assert(c * 2 % 512 == n % 256 * 2);
    }
}

/// As many clusters as are free can be claimed.
proof fn lemma_claims(d: DiskModel, b: Bpb, taken: Seq<u16>, n: nat, free: Seq<u16>)
    requires
        entries::sensible(b),
        entries::table_readable(d, b),
        are_free(d, b, free),
        n <= free.len(),
    ensures
        chain::reserved(d, b, taken, n).1 is Ok,
    decreases n,
{
    if n > 0 {
        assert(entries::on_volume(b, free[0]));
        lemma_one_is_found(d, b, free[0], 0);
        entries::lemma_free_from(d, b, 0);
        let c = table::free_from(d, b, 0).unwrap().unwrap();
        claim::lemma_store(d, b, c, 0xFFFF);
        let d1 = table::entry_stored(d, b, c, 0xFFFF, 0).0;
        let rest = if free.contains(c) {
            free.remove(free.index_of(c))
        } else {
            free.drop_last()
        };
        assert forall|i: int| 0 <= i < rest.len() implies rest[i] != c && entries::on_volume(
            b,
            #[trigger] rest[i],
        ) && table::link(d1, b, rest[i]) == Ok::<u16, FatError>(0) by {
            if free.contains(c) {
                let k = free.index_of(c);
                assert(free[k] == c);
                if i < k {
                    assert(rest[i] == free[i]);
                } else {
                    assert(rest[i] == free[i + 1]);
                }
            } else {
                assert(rest[i] == free[i]);
                assert(free.contains(free[i]));
            }
        }
        assert(rest.no_duplicates()) by {
            assert forall|i: int, j: int| 0 <= i < rest.len() && 0 <= j < rest.len() && i
                != j implies rest[i] != rest[j] by {
                if free.contains(c) {
                    let k = free.index_of(c);
                    let fi = if i < k {
                        i
                    } else {
                        i + 1
                    };
                    let fj = if j < k {
                        j
                    } else {
                        j + 1
                    };
                    assert(rest[i] == free[fi] && rest[j] == free[fj]);
                } else {
                    assert(rest[i] == free[i] && rest[j] == free[j]);
                }
            }
        }
        lemma_claims(d1, b, taken.push(c), (n - 1) as nat, rest);
    }
}

/// A file can be written on a sound volume if its name fits, an entry of the directory is left
/// for it or already its own and no subdirectory, and as many clusters are free as its data
/// takes, those that it had before included.
pub proof fn write_succeeds_where_there_is_room(
    d: DiskModel,
    b: Bpb,
    want: Seq<char>,
    data: Seq<u8>,
    slot: int,
    existing: Option<(u16, bool)>,
    free: Seq<u16>,
)
    requires
        files::sound(d, b),
        name::short_name(want) is Some,
        dir::slot_for(d, b, name::short_name(want).unwrap(), 0, None) == Ok::<
            (int, Option<(u16, bool)>),
            FatError,
        >((slot, existing)),
        volume::vacated(d, b, existing).1 is Ok,
        are_free(volume::vacated(d, b, existing).0, b, free),
        data.len() <= free.len() * (b.sectors_per_cluster * 512),
    ensures
        volume::file_written(d, b, want, data).1 is Ok,
{
    let short = name::short_name(want).unwrap();
    name::short_name_is_stored(want);
    bpb::regions_are_ordered(b);
    let gone = files::all_clusters(b);
    files::lemma_replaced_on_volume(d, b, want);
    files::lemma_placed(d, b, short, 0, None);
    files::lemma_vacated(d, b, existing, gone);
    let d1 = volume::vacated(d, b, existing).0;
    let (d2, first) = if data.len() == 0 {
        (d1, 0u16)
    } else {
        let n = chain::clusters_for(b, data.len() as int) as nat;
        files::lemma_count(b, data.len() as int);
        assert(n <= free.len()) by (nonlinear_arith)
            requires
                (n - 1) * (b.sectors_per_cluster * 512) < data.len(),
                data.len() <= free.len() * (b.sectors_per_cluster * 512),
        ;
        lemma_claims(d1, b, Seq::empty(), n, free);
        claim::lemma_reserved(d1, b, Seq::empty(), n);
        let (da, ra) = chain::reserved(d1, b, Seq::empty(), n);
        let cs = ra.unwrap();
        claim::lemma_joined(da, b, cs, 0);
        let db = chain::joined(da, b, cs, 0).0;
        assert(contents::unfailing(db, bpb::data_start(b), contents::data_end(b))) by {
            assert forall|l: int| bpb::data_start(b) <= l < contents::data_end(b) implies !(#[trigger] entries::at(
                db,
                l,
            ) matches Err(DiskError::Ata(_))) by {
                contents::lemma_cluster_place(b, 2);
                assert(entries::at(db, l) == entries::at(da, l));
                assert(entries::at(da, l) == entries::at(d1, l));
                assert(entries::at(d1, l) == entries::at(d, l));
            }
        }
        assert(0 * contents::cluster_bytes(b) == 0);
        contents::lemma_clusters_stored(db, b, cs, 0, data);
        let d2 = chain::clusters_stored(db, b, cs, 0, data, 0).0;
        assert forall|l: int| bpb::root_start(b) <= l < bpb::data_start(b) implies #[trigger] entries::at(
            d2,
            l,
        ) == entries::at(d, l) by {
            assert(!contents::in_clusters(b, cs, 0, l)) by {
                if contents::in_clusters(b, cs, 0, l) {
                    let j = choose|j: int|
                        0 <= j < cs.len() && chain::cluster_start(b, #[trigger] cs[j]) <= l
                            < chain::cluster_start(b, cs[j]) + b.sectors_per_cluster;
                    assert(entries::on_volume(b, cs[j]));
                    contents::lemma_cluster_place(b, cs[j]);
                }
            }
            assert(entries::at(d2, l) == entries::at(db, l));
            assert(entries::at(db, l) == entries::at(da, l));
            assert(entries::at(da, l) == entries::at(d1, l));
            assert(entries::at(d1, l) == entries::at(d, l));
        }
        (d2, cs[0])
    };
    assert(chain::chain_written(d1, b, data) == (d2, Ok::<u16, FatError>(first)));
    assert forall|l: int| bpb::root_start(b) <= l < bpb::data_start(b) implies (#[trigger] entries::at(
        d2,
        l,
    ) matches Ok(s) && s.len() == 512) by {
        assert(entries::at(d1, l) == entries::at(d, l));
        assert(entries::at(d2, l) == entries::at(d, l));
        assert(entries::at(d, l) is Ok);
    }
    let e = dir::file_entry(short, first, (data.len() % 0x1_0000_0000) as u32);
    files::lemma_entry_written(d2, b, slot, e);
}

} // verus!
