//! Claiming, linking and freeing clusters on a sound volume.

use vstd::prelude::*;

use crate::disk::DiskModel;
use crate::fat::bpb;
use crate::fat::bpb::{Bpb, FatError};
use crate::fat::chain;
use crate::fat::laws::entries;
use crate::fat::table;
use crate::fat::table::{FAT_ENTRY_EOC, FAT_ENTRY_FREE};

verus! {

/// What the entry of `c` names, if it names a cluster, is in `cs`.
pub open spec fn leads_into(d: DiskModel, b: Bpb, c: u16, cs: Set<u16>) -> bool {
    match table::link(d, b, c) {
        Ok(v) => table::is_cluster(v) ==> cs.contains(v),
        Err(_) => true,
    }
}

/// `cs` are clusters of the volume, and their chains stay within `cs`.
pub open spec fn closed_under_links(d: DiskModel, b: Bpb, cs: Set<u16>) -> bool {
    forall|c: u16| #[trigger]
        cs.contains(c) ==> entries::on_volume(b, c) && leads_into(d, b, c, cs)
}

/// Every entry is what it was or has become free.
pub open spec fn only_freed(after: DiskModel, d: DiskModel, b: Bpb) -> bool {
    forall|c: u16|
        entries::on_volume(b, c) ==> #[trigger] table::link(after, b, c) == table::link(d, b, c)
            || table::link(after, b, c) == Ok::<u16, FatError>(FAT_ENTRY_FREE)
}

/// The sectors from the table to the data are as sound as before: the table can be read, the
/// rest is the same, and copies that agreed still do.
pub open spec fn table_kept(after: DiskModel, d: DiskModel, b: Bpb) -> bool {
    &&& entries::table_readable(after, b)
    &&& entries::same_beside_table(after, d, b)
    &&& entries::copies_agree(d, b) ==> entries::copies_agree(after, b)
}

proof fn lemma_kept_twice(d2: DiskModel, d1: DiskModel, d: DiskModel, b: Bpb)
    requires
        table_kept(d2, d1, b),
        table_kept(d1, d, b),
    ensures
        table_kept(d2, d, b),
{
    let lo = b.reserved_sectors as int;
    let hi = bpb::root_start(b);
    assert forall|lba: int| 0 <= lba <= u32::MAX && !(lo <= lba < hi) implies #[trigger] entries::at(
        d2,
        lba,
    ) == entries::at(d, lba) by {
        assert(entries::at(d2, lba) == entries::at(d1, lba));
        assert(entries::at(d1, lba) == entries::at(d, lba));
    }
}

/// Storing an entry, with everything it keeps.
pub proof fn lemma_store(d: DiskModel, b: Bpb, c: u16, v: u16)
    requires
        entries::sensible(b),
        entries::table_readable(d, b),
        entries::on_volume(b, c),
    ensures
        table::entry_stored(d, b, c, v, 0).1 is Ok,
        table_kept(table::entry_stored(d, b, c, v, 0).0, d, b),
        table::link(table::entry_stored(d, b, c, v, 0).0, b, c) == Ok::<u16, FatError>(v),
        entries::same_links(table::entry_stored(d, b, c, v, 0).0, d, b, set![c]),
{
    entries::stored_entry_reads_back(d, b, c, v);
    if entries::copies_agree(d, b) {
        entries::copies_stay_identical(d, b, c, v);
    }
}

/// Freeing a chain frees entries of the chain and changes no other.
pub proof fn lemma_freed(d: DiskModel, b: Bpb, c: u16, steps: int, cs: Set<u16>)
    requires
        entries::sensible(b),
        entries::table_readable(d, b),
        closed_under_links(d, b, cs),
        table::is_cluster(c) ==> cs.contains(c),
    ensures
        ({
            let after = table::freed(d, b, c, steps).0;
            &&& table_kept(after, d, b)
            &&& entries::same_links(after, d, b, cs)
            &&& only_freed(after, d, b)
        }),
    decreases table::max_steps(b) - steps,
{
    if table::is_cluster(c) && steps + 1 <= table::max_steps(b) {
        assert(entries::on_volume(b, c));
        if let Ok(next) = table::link(d, b, c) {
            lemma_store(d, b, c, FAT_ENTRY_FREE);
            let d1 = table::entry_stored(d, b, c, FAT_ENTRY_FREE, 0).0;
            assert forall|x: u16| #[trigger] cs.contains(x) implies entries::on_volume(b, x)
                && leads_into(d1, b, x, cs) by {
                if x != c {
                    assert(table::link(d1, b, x) == table::link(d, b, x));
                }
            }
            lemma_freed(d1, b, next, steps + 1, cs);
            let after = table::freed(d1, b, next, steps + 1).0;
            lemma_kept_twice(after, d1, d, b);
            assert forall|x: u16| entries::on_volume(b, x) && !cs.contains(x) implies #[trigger] table::link(
                after,
                b,
                x,
            ) == table::link(d, b, x) by {
                assert(table::link(after, b, x) == table::link(d1, b, x));
                assert(table::link(d1, b, x) == table::link(d, b, x));
            }
            assert forall|x: u16| entries::on_volume(b, x) implies #[trigger] table::link(
                after,
                b,
                x,
            ) == table::link(d, b, x) || table::link(after, b, x) == Ok::<u16, FatError>(
                FAT_ENTRY_FREE,
            ) by {
                if x != c {
                    assert(table::link(d1, b, x) == table::link(d, b, x));
                }
                assert(table::link(after, b, x) == table::link(d1, b, x) || table::link(
                    after,
                    b,
                    x,
                ) == Ok::<u16, FatError>(FAT_ENTRY_FREE));
            }
        }
    }
}

/// Clusters of the volume, none twice.
pub open spec fn distinct_clusters(b: Bpb, cs: Seq<u16>) -> bool {
    &&& cs.no_duplicates()
    &&& forall|i: int| 0 <= i < cs.len() ==> entries::on_volume(b, #[trigger] cs[i])
}

/// Releasing clusters makes their entries free and changes no other.
proof fn lemma_released(d: DiskModel, b: Bpb, taken: Seq<u16>)
    requires
        entries::sensible(b),
        entries::table_readable(d, b),
        distinct_clusters(b, taken),
    ensures
        ({
            let after = chain::released(d, b, taken);
            &&& table_kept(after, d, b)
            &&& forall|c: u16|
                entries::on_volume(b, c) ==> #[trigger] table::link(after, b, c)
                    == if taken.contains(c) {
                    Ok(FAT_ENTRY_FREE)
                } else {
                    table::link(d, b, c)
                }
        }),
    decreases taken.len(),
{
    if taken.len() > 0 {
        assert(entries::on_volume(b, taken[0]));
        lemma_store(d, b, taken[0], FAT_ENTRY_FREE);
        let d1 = table::entry_stored(d, b, taken[0], FAT_ENTRY_FREE, 0).0;
        let rest = taken.drop_first();
        assert forall|i: int| 0 <= i < rest.len() implies entries::on_volume(
            b,
            #[trigger] rest[i],
        ) by {
            assert(rest[i] == taken[i + 1]);
        }
        lemma_released(d1, b, rest);
        let after = chain::released(d1, b, rest);
        lemma_kept_twice(after, d1, d, b);
        assert forall|c: u16| entries::on_volume(b, c) implies #[trigger] table::link(after, b, c)
            == (if taken.contains(c) {
            Ok(FAT_ENTRY_FREE)
        } else {
            table::link(d, b, c)
        }) by {
            assert(taken =~= seq![taken[0]] + rest);
            if c != taken[0] {
                assert(table::link(d1, b, c) == table::link(d, b, c));
                if taken.contains(c) {
                    let i = choose|i: int| 0 <= i < taken.len() && taken[i] == c;
                    assert(rest[i - 1] == c);
                } else if rest.contains(c) {
                    let i = choose|i: int| 0 <= i < rest.len() && rest[i] == c;
                    assert(taken[i + 1] == c);
                }
            } else {
                if rest.contains(c) {
                    let i = choose|i: int| 0 <= i < rest.len() && rest[i] == c;
                    assert(taken[i + 1] == taken[0]);
                }
                assert(taken[0] == c);
                assert(table::link(after, b, c) == table::link(d1, b, c));
            }
        }
    } else {
        assert forall|c: u16| !taken.contains(c) by {}
    }
}

/// What claiming clusters leaves: those taken before and the new ones end chains; the new ones
/// were free; no other entry is changed.
pub open spec fn all_claimed(
    after: DiskModel,
    d: DiskModel,
    b: Bpb,
    taken: Seq<u16>,
    cs: Seq<u16>,
    n: nat,
) -> bool {
    &&& cs.len() == taken.len() + n
    &&& distinct_clusters(b, cs)
    &&& forall|i: int| 0 <= i < taken.len() ==> #[trigger] cs[i] == taken[i]
    &&& forall|i: int|
        0 <= i < cs.len() ==> table::link(after, b, #[trigger] cs[i]) == Ok::<u16, FatError>(
            FAT_ENTRY_EOC,
        )
    &&& forall|i: int|
        taken.len() <= i < cs.len() ==> table::link(d, b, #[trigger] cs[i]) == Ok::<u16, FatError>(
            FAT_ENTRY_FREE,
        )
    &&& entries::same_links(after, d, b, cs.to_set())
}

/// What is left when the volume is full: the clusters taken are free again and no other entry is
/// changed.
pub open spec fn rolled_back(after: DiskModel, d: DiskModel, b: Bpb, taken: Seq<u16>) -> bool {
    forall|c: u16|
        entries::on_volume(b, c) ==> #[trigger] table::link(after, b, c) == if taken.contains(c) {
            Ok(FAT_ENTRY_FREE)
        } else {
            table::link(d, b, c)
        }
}

pub proof fn lemma_reserved(d: DiskModel, b: Bpb, taken: Seq<u16>, n: nat)
    requires
        entries::sensible(b),
        entries::table_readable(d, b),
        distinct_clusters(b, taken),
        forall|i: int|
            0 <= i < taken.len() ==> table::link(d, b, #[trigger] taken[i]) == Ok::<u16, FatError>(
                FAT_ENTRY_EOC,
            ),
    ensures
        ({
            let (after, r) = chain::reserved(d, b, taken, n);
            &&& table_kept(after, d, b)
            &&& r matches Ok(cs) ==> all_claimed(after, d, b, taken, cs, n)
            &&& r == Err::<Seq<u16>, FatError>(FatError::NoSpace) ==> rolled_back(
                after,
                d,
                b,
                taken,
            )
        }),
    decreases n,
{
    if n > 0 {
        entries::lemma_free_from(d, b, 0);
        match table::free_from(d, b, 0) {
            Ok(Some(c)) => {
                lemma_store(d, b, c, FAT_ENTRY_EOC);
                let d1 = table::entry_stored(d, b, c, FAT_ENTRY_EOC, 0).0;
                let more = taken.push(c);
                assert forall|i: int| 0 <= i < taken.len() implies #[trigger] taken[i] != c by {
                    assert(table::link(d, b, taken[i]) == Ok::<u16, FatError>(FAT_ENTRY_EOC));
                }
                assert forall|i: int| 0 <= i < more.len() implies entries::on_volume(
                    b,
                    #[trigger] more[i],
                ) && table::link(d1, b, more[i]) == Ok::<u16, FatError>(FAT_ENTRY_EOC) by {
                    if i < taken.len() {
                        assert(more[i] == taken[i]);
                        assert(entries::on_volume(b, taken[i]));
                        assert(table::link(d1, b, taken[i]) == table::link(d, b, taken[i]));
                    }
                }
                assert(more.no_duplicates());
                lemma_reserved(d1, b, more, (n - 1) as nat);
                let (after, r) = chain::reserved(d1, b, more, (n - 1) as nat);
                lemma_kept_twice(after, d1, d, b);
                if let Ok(cs) = r {
                    assert(cs[taken.len() as int] == more[taken.len() as int]);
                    assert forall|i: int| 0 <= i < taken.len() implies #[trigger] cs[i]
                        == taken[i] by {
                        assert(cs[i] == more[i]);
                    }
                    assert forall|i: int| taken.len() <= i < cs.len() implies table::link(
                        d,
                        b,
                        #[trigger] cs[i],
                    ) == Ok::<u16, FatError>(FAT_ENTRY_FREE) by {
                        if i > taken.len() {
                            assert(cs[i] != cs[taken.len() as int]);
                            assert(entries::on_volume(b, cs[i]));
                            assert(table::link(d1, b, cs[i]) == table::link(d, b, cs[i]));
                        }
                    }
                    assert forall|x: u16|
                        entries::on_volume(b, x) && !cs.to_set().contains(x) implies #[trigger] table::link(
                        after,
                        b,
                        x,
                    ) == table::link(d, b, x) by {
                        assert(x != c) by {
                            assert(cs.contains(cs[taken.len() as int]));
                        }
                        assert(table::link(after, b, x) == table::link(d1, b, x));
                        assert(table::link(d1, b, x) == table::link(d, b, x));
                    }
                } else if r == Err::<Seq<u16>, FatError>(FatError::NoSpace) {
                    assert forall|x: u16| entries::on_volume(b, x) implies #[trigger] table::link(
                        after,
                        b,
                        x,
                    ) == (if taken.contains(x) {
                        Ok(FAT_ENTRY_FREE)
                    } else {
                        table::link(d, b, x)
                    }) by {
                        if x == c {
                            assert(more[taken.len() as int] == c);
                            if taken.contains(x) {
                                let i = choose|i: int| 0 <= i < taken.len() && taken[i] == x;
                                assert(taken[i] != c);
                            }
                        } else {
                            assert(table::link(d1, b, x) == table::link(d, b, x));
                            if taken.contains(x) {
                                let i = choose|i: int| 0 <= i < taken.len() && taken[i] == x;
                                assert(more[i] == x);
                            } else if more.contains(x) {
                                let i = choose|i: int| 0 <= i < more.len() && more[i] == x;
                                assert(taken[i] == x);
                            }
                        }
                    }
                }
            },
            Ok(None) => {
                lemma_released(d, b, taken);
            },
            Err(e) => {
                lemma_error_is_not_full(d, b, 0);
            },
        }
    }
}

/// A search for a free cluster fails only on a sector.
proof fn lemma_error_is_not_full(d: DiskModel, b: Bpb, n: int)
    ensures
        table::free_from(d, b, n) matches Err(e) ==> e != FatError::NoSpace,
    decreases b.fat_size_sectors * 256 - n,
{
    if n / 256 < b.fat_size_sectors {
        lemma_error_is_not_full(d, b, n + 1);
    }
}

/// When the volume fills up while clusters are being claimed, every entry is what it was.
pub proof fn full_volume_rolls_back(d: DiskModel, b: Bpb, n: nat)
    requires
        entries::sensible(b),
        entries::table_readable(d, b),
        chain::reserved(d, b, Seq::empty(), n).1 == Err::<Seq<u16>, FatError>(FatError::NoSpace),
    ensures
        entries::same_links(chain::reserved(d, b, Seq::empty(), n).0, d, b, Set::empty()),
{
    lemma_reserved(d, b, Seq::empty(), n);
}

/// Linking clusters makes each entry name the next cluster and changes no other.
pub proof fn lemma_joined(d: DiskModel, b: Bpb, cs: Seq<u16>, i: int)
    requires
        entries::sensible(b),
        entries::table_readable(d, b),
        distinct_clusters(b, cs),
        0 <= i,
    ensures
        ({
            let (after, r) = chain::joined(d, b, cs, i);
            &&& r is Ok
            &&& table_kept(after, d, b)
            &&& forall|j: int|
                i <= j < cs.len() - 1 ==> table::link(after, b, #[trigger] cs[j]) == Ok::<
                    u16,
                    FatError,
                >(cs[j + 1])
            &&& forall|j: int|
                0 <= j < cs.len() && (j < i || j == cs.len() - 1) ==> table::link(
                    after,
                    b,
                    #[trigger] cs[j],
                ) == table::link(d, b, cs[j])
            &&& entries::same_links(after, d, b, cs.to_set())
        }),
    decreases cs.len() - i,
{
    if i + 1 < cs.len() {
        assert(entries::on_volume(b, cs[i]));
        lemma_store(d, b, cs[i], cs[i + 1]);
        let d1 = table::entry_stored(d, b, cs[i], cs[i + 1], 0).0;
        lemma_joined(d1, b, cs, i + 1);
        let after = chain::joined(d1, b, cs, i + 1).0;
        lemma_kept_twice(after, d1, d, b);
        assert forall|j: int| i <= j < cs.len() - 1 implies table::link(after, b, #[trigger] cs[j])
            == Ok::<u16, FatError>(cs[j + 1]) by {
            if j == i {
                assert(table::link(after, b, cs[i]) == table::link(d1, b, cs[i]));
            }
        }
        assert forall|j: int| 0 <= j < cs.len() && (j < i || j == cs.len() - 1) implies table::link(
            after,
            b,
            #[trigger] cs[j],
        ) == table::link(d, b, cs[j]) by {
            assert(cs[j] != cs[i]);
            assert(entries::on_volume(b, cs[j]));
            assert(table::link(after, b, cs[j]) == table::link(d1, b, cs[j]));
            assert(table::link(d1, b, cs[j]) == table::link(d, b, cs[j]));
        }
        assert forall|x: u16| entries::on_volume(b, x) && !cs.to_set().contains(x) implies #[trigger] table::link(
            after,
            b,
            x,
        ) == table::link(d, b, x) by {
            assert(cs.contains(cs[i]));
            assert(table::link(after, b, x) == table::link(d1, b, x));
            assert(table::link(d1, b, x) == table::link(d, b, x));
        }
    }
}

} // verus!
