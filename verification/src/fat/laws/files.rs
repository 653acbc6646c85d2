//! Files on a sound volume: what is written is read back, and other files are left alone.

use vstd::prelude::*;

use crate::bytes;
use crate::disk;
use crate::disk::{DiskError, DiskModel};
use crate::fat::bpb;
use crate::fat::bpb::{Bpb, FatError};
use crate::fat::chain;
use crate::fat::dir;
use crate::fat::laws::claim;
use crate::fat::laws::contents;
use crate::fat::laws::entries;
use crate::fat::name;
use crate::fat::table;
use crate::fat::table::FAT_ENTRY_FREE;
use crate::fat::volume;

verus! {

/// The clusters of the volume.
pub open spec fn all_clusters(b: Bpb) -> Set<u16> {
    Set::new(|c: u16| entries::on_volume(b, c))
}

/// Entry `k` of the root directory does not end it.
pub open spec fn goes_on(d: DiskModel, b: Bpb, k: int) -> bool {
    dir::entry_at(d, b, k) matches Ok(e) && e[0] != dir::NAME_END
}

/// Entry `k` and all before it do not end the directory.
pub open spec fn live(d: DiskModel, b: Bpb, k: int) -> bool {
    forall|j: int| 0 <= j <= k ==> #[trigger] goes_on(d, b, j)
}

/// An entry of a file or subdirectory has a proper name, and what it names as its first cluster
/// is on the volume.
pub open spec fn proper(b: Bpb, e: Seq<u8>) -> bool {
    dir::in_use(e) && dir::is_real(e) ==> name::is_short_name(e.take(11)) && (table::is_cluster(
        dir::first_cluster(e),
    ) ==> entries::on_volume(b, dir::first_cluster(e)))
}

/// A sound volume: its geometry makes sense, its table and root directory can be read, no sector
/// of its data fails, chains stay on the volume, and the entries before the end of the directory
/// are proper.
pub open spec fn sound(d: DiskModel, b: Bpb) -> bool {
    &&& entries::sensible(b)
    &&& entries::readable(d, b.reserved_sectors as int, bpb::data_start(b))
    &&& contents::unfailing(d, bpb::data_start(b), contents::data_end(b))
    &&& claim::closed_under_links(d, b, all_clusters(b))
    &&& forall|k: int|
        0 <= k < dir::slots(b) && live(d, b, k) ==> proper(
            b,
            (#[trigger] dir::entry_at(d, b, k)).unwrap(),
        )
}

/// Entry `k` is that of the stored name `short`.
pub open spec fn named(d: DiskModel, b: Bpb, short: Seq<u8>, k: int) -> bool {
    dir::entry_at(d, b, k) matches Ok(e) && dir::in_use(e) && dir::is_real(e) && e.take(11)
        == short
}

/// What is known of the entries before `k` while the place of a name is looked for.
pub open spec fn passed_over(d: DiskModel, b: Bpb, short: Seq<u8>, k: int, free: Option<int>) -> bool {
    &&& forall|j: int| 0 <= j < k ==> #[trigger] goes_on(d, b, j)
    &&& forall|j: int| 0 <= j < k ==> !#[trigger] named(d, b, short, j)
    &&& free matches Some(f) ==> 0 <= f < k && !dir::in_use(dir::entry_at(d, b, f).unwrap())
}

/// The place found for a name.
pub open spec fn placed(d: DiskModel, b: Bpb, short: Seq<u8>, slot: int, existing: Option<(u16, bool)>) -> bool {
    &&& 0 <= slot < dir::slots(b)
    &&& dir::entry_at(d, b, slot) is Ok
    &&& forall|j: int| 0 <= j < slot ==> #[trigger] goes_on(d, b, j)
    &&& forall|j: int| 0 <= j < slot ==> !#[trigger] named(d, b, short, j)
    &&& existing matches Some((first, is_dir)) ==> goes_on(d, b, slot) && named(d, b, short, slot)
        && first == dir::first_cluster(dir::entry_at(d, b, slot).unwrap()) && is_dir
        == dir::is_subdir(dir::entry_at(d, b, slot).unwrap())
    &&& existing is None ==> !dir::in_use(dir::entry_at(d, b, slot).unwrap()) && forall|j: int|
        0 <= j < dir::slots(b) && live(d, b, j) ==> !#[trigger] named(d, b, short, j)
}

pub(crate) proof fn lemma_placed(d: DiskModel, b: Bpb, short: Seq<u8>, k: int, free: Option<int>)
    requires
        0 <= k <= dir::slots(b),
        passed_over(d, b, short, k, free),
    ensures
        dir::slot_for(d, b, short, k, free) matches Ok((slot, existing)) ==> placed(
            d,
            b,
            short,
            slot,
            existing,
        ),
    decreases dir::slots(b) - k,
{
    if k < dir::slots(b) {
        if let Ok(e) = dir::entry_at(d, b, k) {
            let next = if free is None && !dir::in_use(e) {
                Some(k)
            } else {
                free
            };
            if dir::in_use(e) && dir::is_real(e) && e.take(11) == short {
                assert(named(d, b, short, k) && goes_on(d, b, k));
            } else if e[0] == dir::NAME_END {
                let slot = next.unwrap();
                assert(goes_on(d, b, slot) || slot == k);
                assert(!goes_on(d, b, k));
                assert forall|j: int| 0 <= j < dir::slots(b) && live(d, b, j) implies !#[trigger] named(
                    d,
                    b,
                    short,
                    j,
                ) by {
                    if j >= k {
                        assert(goes_on(d, b, k));
                    }
                }
            } else {
                assert(goes_on(d, b, k));
                assert(!named(d, b, short, k));
                assert(passed_over(d, b, short, k + 1, next));
                lemma_placed(d, b, short, k + 1, next);
            }
        }
    } else if let Some(f) = free {
        assert(goes_on(d, b, f));
    }
}

/// Entry `k` is shown as the name `want`.
pub open spec fn shown_as(d: DiskModel, b: Bpb, want: Seq<char>, k: int) -> bool {
    dir::entry_at(d, b, k) matches Ok(e) && dir::in_use(e) && dir::is_real(e) && name::same_name(
        name::shown_name(e.take(11)),
        want,
    )
}

/// The entry that a name is found at: those before it neither end the directory nor are shown
/// as the name.
proof fn lemma_found(d: DiskModel, b: Bpb, want: Seq<char>, k: int, slot: int)
    requires
        0 <= k <= slot < dir::slots(b),
        shown_as(d, b, want, slot),
        forall|j: int| k <= j < slot ==> #[trigger] goes_on(d, b, j) && !shown_as(d, b, want, j),
    ensures
        dir::found(d, b, want, k) == Ok::<Option<Seq<u8>>, FatError>(
            Some(dir::entry_at(d, b, slot).unwrap()),
        ),
    decreases slot - k,
{
    if k < slot {
        assert(goes_on(d, b, k));
        lemma_found(d, b, want, k + 1, slot);
    }
}

/// Where the name that is found stands.
proof fn lemma_found_at(d: DiskModel, b: Bpb, want: Seq<char>, k: int) -> (slot: int)
    requires
        0 <= k,
        dir::found(d, b, want, k) matches Ok(Some(_)),
    ensures
        k <= slot < dir::slots(b),
        goes_on(d, b, slot),
        dir::found(d, b, want, k) == Ok::<Option<Seq<u8>>, FatError>(
            Some(dir::entry_at(d, b, slot).unwrap()),
        ),
        shown_as(d, b, want, slot),
        forall|j: int| k <= j < slot ==> #[trigger] goes_on(d, b, j) && !shown_as(d, b, want, j),
    decreases dir::slots(b) - k,
{
    assert(goes_on(d, b, k));
    if shown_as(d, b, want, k) {
        k
    } else {
        lemma_found_at(d, b, want, k + 1)
    }
}

/// The root directory is the same.
pub open spec fn same_root(d1: DiskModel, d2: DiskModel, b: Bpb) -> bool {
    forall|lba: int|
        bpb::root_start(b) <= lba < bpb::data_start(b) ==> #[trigger] entries::at(d1, lba)
            == entries::at(d2, lba)
}

/// The allocation table is the same.
pub open spec fn same_table(d1: DiskModel, d2: DiskModel, b: Bpb) -> bool {
    forall|lba: int|
        b.reserved_sectors <= lba < bpb::root_start(b) ==> #[trigger] entries::at(d1, lba)
            == entries::at(d2, lba)
}

proof fn lemma_slot_place(b: Bpb, k: int)
    requires
        b.ok(),
        0 <= k < dir::slots(b),
    ensures
        bpb::root_start(b) <= dir::slot_sector(b, k) < bpb::data_start(b),
        bpb::data_start(b) <= 0x102_0000,
        0 <= dir::slot_offset(k) <= 480,
{
    bpb::regions_are_ordered(b);
}

proof fn lemma_same_entries(d1: DiskModel, d2: DiskModel, b: Bpb, k: int)
    requires
        b.ok(),
        same_root(d1, d2, b),
        0 <= k < dir::slots(b),
    ensures
        dir::entry_at(d1, b, k) == dir::entry_at(d2, b, k),
        goes_on(d1, b, k) == goes_on(d2, b, k),
{
    lemma_slot_place(b, k);
    assert(entries::at(d1, dir::slot_sector(b, k)) == entries::at(d2, dir::slot_sector(b, k)));
}

pub(crate) proof fn lemma_same_links(d1: DiskModel, d2: DiskModel, b: Bpb, c: u16)
    requires
        entries::sensible(b),
        same_table(d1, d2, b),
        entries::on_volume(b, c),
    ensures
        table::link(d1, b, c) == table::link(d2, b, c),
{
    entries::lemma_copies_fit(b, 0);
    assert(0 * b.fat_size_sectors == 0);
    assert(c * 2 / 512 < b.fat_size_sectors);
    let lba = table::entry_sector(b, c, 0);
    assert(entries::at(d1, lba) == entries::at(d2, lba));
}

proof fn lemma_same_copies(d1: DiskModel, d2: DiskModel, b: Bpb)
    requires
        entries::sensible(b),
        same_table(d1, d2, b),
        entries::copies_agree(d2, b),
    ensures
        entries::copies_agree(d1, b),
{
    assert forall|copy: int, s: int| 0 <= copy < b.num_fats && 0 <= s < b.fat_size_sectors implies #[trigger] entries::at(
        d1,
        b.reserved_sectors + copy * b.fat_size_sectors + s,
    ) == entries::at(d1, b.reserved_sectors + s) by {
        entries::lemma_copies_fit(b, copy);
        entries::lemma_copies_fit(b, 0);
        let l = b.reserved_sectors + copy * b.fat_size_sectors + s;
        assert(entries::at(d1, l) == entries::at(d2, l));
        assert(entries::at(d1, b.reserved_sectors + s) == entries::at(d2, b.reserved_sectors + s));
        assert(entries::at(d2, b.reserved_sectors + copy * b.fat_size_sectors + s) == entries::at(
            d2,
            b.reserved_sectors + s,
        ));
    }
}

/// Writing an entry of the root directory changes that entry and nothing else.
pub(crate) proof fn lemma_entry_written(d: DiskModel, b: Bpb, k: int, e: Seq<u8>)
    requires
        b.ok(),
        0 <= k < dir::slots(b),
        entries::readable(d, bpb::root_start(b), bpb::data_start(b)),
        e.len() == 32,
    ensures
        ({
            let (after, r) = dir::entry_written(d, b, k, e);
            &&& r is Ok
            &&& dir::entry_at(after, b, k) == Ok::<Seq<u8>, FatError>(e)
            &&& forall|j: int|
                0 <= j < dir::slots(b) && j != k ==> #[trigger] dir::entry_at(after, b, j)
                    == dir::entry_at(d, b, j)
            &&& entries::same_outside(after, d, bpb::root_start(b), bpb::data_start(b))
        }),
{
    lemma_slot_place(b, k);
    let lba = dir::slot_sector(b, k);
    let off = dir::slot_offset(k);
    assert(entries::at(d, lba) is Ok);
    let s = entries::at(d, lba).unwrap();
    let new = dir::with_entry(s, off, e);
    entries::lemma_stored(d, lba, new);
    let after = disk::stored(d, lba as u32, new).0;
    assert(new.subrange(off, off + 32) =~= e);
    assert forall|j: int| 0 <= j < dir::slots(b) && j != k implies #[trigger] dir::entry_at(
        after,
        b,
        j,
    ) == dir::entry_at(d, b, j) by {
        lemma_slot_place(b, j);
        let l = dir::slot_sector(b, j);
        let o = dir::slot_offset(j);
        if l == lba {
            assert(j % 16 != k % 16);
            assert(o + 32 <= off || off + 32 <= o);
            assert(new.subrange(o, o + 32) =~= s.subrange(o, o + 32));
        } else {
            assert(entries::at(after, l) == entries::at(d, l));
        }
    }
    assert forall|l: int|
        0 <= l <= u32::MAX && !(bpb::root_start(b) <= l < bpb::data_start(b)) implies #[trigger] entries::at(
        after,
        l,
    ) == entries::at(d, l) by {
        assert(l != lba);
    }
}

/// The first cluster of the file that writing `want` replaces.
pub open spec fn replaced(d: DiskModel, b: Bpb, want: Seq<char>) -> Option<u16> {
    match name::short_name(want) {
        Some(short) => match dir::slot_for(d, b, short, 0, None) {
            Ok((k, Some((first, is_dir)))) => if table::is_cluster(first) {
                Some(first)
            } else {
                None
            },
            _ => None,
        },
        None => None,
    }
}

pub(crate) proof fn lemma_replaced_on_volume(d: DiskModel, b: Bpb, want: Seq<char>)
    requires
        sound(d, b),
    ensures
        replaced(d, b, want) matches Some(c) ==> all_clusters(b).contains(c),
{
    if let Some(short) = name::short_name(want) {
        bpb::regions_are_ordered(b);
        lemma_placed(d, b, short, 0, None);
        if let Ok((slot, Some((first, is_dir)))) = dir::slot_for(d, b, short, 0, None) {
            assert(live(d, b, slot));
            assert(proper(b, dir::entry_at(d, b, slot).unwrap()));
        }
    }
}

/// What is left of a write that succeeds: where its entry stands, and the clusters it took.
pub struct Trace {
    pub slot: int,
    pub existing: Option<(u16, bool)>,
    pub d1: DiskModel,
    pub cs: Seq<u16>,
    pub d2: DiskModel,
}

/// How a successful write went: the place of the entry, the disk `d1` after the old chain was
/// freed, the clusters `cs`, and the disk `d2` with the data in them.
pub open spec fn went(
    d: DiskModel,
    b: Bpb,
    want: Seq<char>,
    data: Seq<u8>,
    gone: Set<u16>,
    t: Trace,
) -> bool {
    let short = name::short_name(want).unwrap();
    let first = if data.len() == 0 {
        0u16
    } else {
        t.cs[0]
    };
    &&& placed(d, b, short, t.slot, t.existing)
    &&& claim::table_kept(t.d1, d, b)
    &&& entries::same_links(t.d1, d, b, gone)
    &&& claim::only_freed(t.d1, d, b)
    &&& claim::distinct_clusters(b, t.cs)
    &&& forall|i: int|
        0 <= i < t.cs.len() ==> table::link(t.d1, b, #[trigger] t.cs[i]) == Ok::<u16, FatError>(
            FAT_ENTRY_FREE,
        )
    &&& data.len() > 0 ==> t.cs.len() > 0 && contents::chain_holds(t.d2, b, t.cs, data)
    &&& entries::table_readable(t.d2, b)
    &&& entries::copies_agree(d, b) ==> entries::copies_agree(t.d2, b)
    &&& entries::same_links(t.d2, t.d1, b, t.cs.to_set())
    &&& forall|l: int|
        bpb::root_start(b) <= l <= u32::MAX && !contents::in_clusters(b, t.cs, 0, l)
            ==> #[trigger] entries::at(t.d2, l) == entries::at(d, l)
    &&& volume::file_written(d, b, want, data) == dir::entry_written(
        t.d2,
        b,
        t.slot,
        dir::file_entry(short, first, (data.len() % 0x1_0000_0000) as u32),
    )
}

pub(crate) proof fn lemma_count(b: Bpb, n: int)
    requires
        b.sectors_per_cluster > 0,
        n > 0,
    ensures
        ({
            let size = contents::cluster_bytes(b);
            let count = chain::clusters_for(b, n);
            &&& count > 0
            &&& (count - 1) * size < n <= count * size
        }),
{
    let size = contents::cluster_bytes(b);
    let q = n / size;
    let r = n % size;
    vstd::arithmetic::div_mod::lemma_fundamental_div_mod(n, size);
    vstd::arithmetic::mul::lemma_mul_is_commutative(size, q);
    vstd::arithmetic::div_mod::lemma_div_pos_is_pos(n, size);
    assert((q + 1) * size == q * size + size) by (nonlinear_arith);
    assert((q - 1) * size == q * size - size) by (nonlinear_arith);
    if q == 0 {
        assert(0 * size == 0);
    }
}

/// The disk after the old chain has been freed.
pub(crate) proof fn lemma_vacated(
    d: DiskModel,
    b: Bpb,
    existing: Option<(u16, bool)>,
    gone: Set<u16>,
)
    requires
        sound(d, b),
        claim::closed_under_links(d, b, gone),
        existing matches Some((first, _)) ==> (table::is_cluster(first) ==> gone.contains(first)),
    ensures
        ({
            let d1 = volume::vacated(d, b, existing).0;
            &&& claim::table_kept(d1, d, b)
            &&& entries::same_links(d1, d, b, gone)
            &&& claim::only_freed(d1, d, b)
        }),
{
    bpb::regions_are_ordered(b);
    assert(entries::table_readable(d, b));
    if let Some((first, is_dir)) = existing {
        if !is_dir && first >= 2 {
            claim::lemma_freed(d, b, first, 0, gone);
        }
    }
}

/// Puts together how a successful write went.
proof fn lemma_went(d: DiskModel, b: Bpb, want: Seq<char>, data: Seq<u8>, gone: Set<u16>) -> (t: Trace)
    requires
        sound(d, b),
        volume::file_written(d, b, want, data).1 is Ok,
        claim::closed_under_links(d, b, gone),
        replaced(d, b, want) matches Some(c) ==> gone.contains(c),
    ensures
        went(d, b, want, data, gone, t),
{
    let short = name::short_name(want).unwrap();
    bpb::regions_are_ordered(b);
    assert(passed_over(d, b, short, 0, None));
    lemma_placed(d, b, short, 0, None);
    let (slot, existing) = dir::slot_for(d, b, short, 0, None)->Ok_0;
    lemma_vacated(d, b, existing, gone);
    let d1 = volume::vacated(d, b, existing).0;
    if data.len() == 0 {
        let t = Trace { slot, existing, d1, cs: Seq::empty(), d2: d1 };
        assert forall|l: int|
            bpb::root_start(b) <= l <= u32::MAX && !contents::in_clusters(
                b,
                t.cs,
                0,
                l,
            ) implies #[trigger] entries::at(t.d2, l) == entries::at(d, l) by {}
        t
    } else {
        let n = chain::clusters_for(b, data.len() as int) as nat;
        lemma_count(b, data.len() as int);
        claim::lemma_reserved(d1, b, Seq::empty(), n);
        let (da, ra) = chain::reserved(d1, b, Seq::empty(), n);
        let cs = ra.unwrap();
        claim::lemma_joined(da, b, cs, 0);
        let db = chain::joined(da, b, cs, 0).0;
        assert(claim::table_kept(da, d1, b) && claim::table_kept(db, da, b));
        assert(contents::unfailing(db, bpb::data_start(b), contents::data_end(b))) by {
            assert forall|l: int| bpb::data_start(b) <= l < contents::data_end(b) implies !(#[trigger] entries::at(
                db,
                l,
            ) matches Err(DiskError::Ata(_))) by {
                contents::lemma_cluster_place(b, 2);
                assert(entries::at(db, l) == entries::at(da, l));
                assert(entries::at(da, l) == entries::at(d1, l));
                assert(entries::at(d1, l) == entries::at(d, l));
            }
        }
        assert(0 * contents::cluster_bytes(b) == 0);
        contents::lemma_clusters_stored(db, b, cs, 0, data);
        let d2 = chain::clusters_stored(db, b, cs, 0, data, 0).0;
        let t = Trace { slot, existing, d1, cs, d2 };
        // The data lies behind the table.
        assert forall|l: int| contents::in_clusters(b, cs, 0, l) implies l >= bpb::data_start(b) by {
            let j = choose|j: int|
                0 <= j < cs.len() && chain::cluster_start(b, #[trigger] cs[j]) <= l
                    < chain::cluster_start(b, cs[j]) + b.sectors_per_cluster;
            assert(entries::on_volume(b, cs[j]));
            contents::lemma_cluster_place(b, cs[j]);
        }
        assert(same_table(d2, db, b)) by {
            assert forall|l: int| b.reserved_sectors <= l < bpb::root_start(b) implies #[trigger] entries::at(
                d2,
                l,
            ) == entries::at(db, l) by {}
        }
        if entries::copies_agree(d, b) {
            lemma_same_copies(d2, db, b);
        }
        assert(entries::table_readable(d2, b)) by {
            assert forall|l: int| b.reserved_sectors <= l < bpb::root_start(b) implies (#[trigger] entries::at(
                d2,
                l,
            ) matches Ok(s) && s.len() == 512) by {
                assert(entries::at(d2, l) == entries::at(db, l));
                assert(entries::at(db, l) is Ok);
            }
        }
        assert forall|c: u16| entries::on_volume(b, c) && !cs.to_set().contains(c) implies #[trigger] table::link(
            d2,
            b,
            c,
        ) == table::link(d1, b, c) by {
            lemma_same_links(d2, db, b, c);
            assert(table::link(db, b, c) == table::link(da, b, c));
            assert(table::link(da, b, c) == table::link(d1, b, c));
        }
        assert forall|j: int| 0 <= j < cs.len() - 1 implies table::link(d2, b, #[trigger] cs[j])
            == Ok::<u16, FatError>(cs[j + 1]) by {
            assert(entries::on_volume(b, cs[j]));
            lemma_same_links(d2, db, b, cs[j]);
        }
        assert forall|l: int|
            bpb::root_start(b) <= l <= u32::MAX && !contents::in_clusters(
                b,
                cs,
                0,
                l,
            ) implies #[trigger] entries::at(d2, l) == entries::at(d, l) by {
            assert(entries::at(d2, l) == entries::at(db, l));
            assert(entries::at(db, l) == entries::at(da, l));
            assert(entries::at(da, l) == entries::at(d1, l));
            assert(entries::at(d1, l) == entries::at(d, l));
        }
        assert(contents::chain_holds(d2, b, cs, data));
        t
    }
}

/// The root directory is untouched until the entry is written.
proof fn lemma_root_until_entry(
    d: DiskModel,
    b: Bpb,
    want: Seq<char>,
    data: Seq<u8>,
    gone: Set<u16>,
    t: Trace,
)
    requires
        sound(d, b),
        went(d, b, want, data, gone, t),
    ensures
        same_root(t.d2, d, b),
        entries::readable(t.d2, bpb::root_start(b), bpb::data_start(b)),
{
    bpb::regions_are_ordered(b);
    assert forall|l: int| bpb::root_start(b) <= l < bpb::data_start(b) implies #[trigger] entries::at(
        t.d2,
        l,
    ) == entries::at(d, l) by {
        if contents::in_clusters(b, t.cs, 0, l) {
            let j = choose|j: int|
                0 <= j < t.cs.len() && chain::cluster_start(b, #[trigger] t.cs[j]) <= l
                    < chain::cluster_start(b, t.cs[j]) + b.sectors_per_cluster;
            assert(entries::on_volume(b, t.cs[j]));
            contents::lemma_cluster_place(b, t.cs[j]);
        }
    }
    assert forall|l: int| bpb::root_start(b) <= l < bpb::data_start(b) implies (#[trigger] entries::at(
        t.d2,
        l,
    ) matches Ok(s) && s.len() == 512) by {
        assert(entries::at(d, l) is Ok);
    }
}

proof fn lemma_file_entry(short: Seq<u8>, first: u16, size: u32)
    requires
        short.len() == 11,
    ensures
        ({
            let e = dir::file_entry(short, first, size);
            &&& e.len() == 32
            &&& e.take(11) == short
            &&& dir::is_real(e)
            &&& !dir::is_subdir(e)
            &&& dir::first_cluster(e) == first
            &&& dir::file_size(e) == size
            &&& e[0] == short[0]
        }),
{
    let e = dir::file_entry(short, first, size);
    assert(e.take(11) =~= short);
    assert(e[11] == dir::ATTR_ARCHIVE);
    assert(0x20u8 & 0x08u8 == 0u8 && 0x20u8 & 0x10u8 == 0u8) by (bit_vector);
    assert(e[0x1A] == bytes::le16_bytes(first)[0] && e[0x1B] == bytes::le16_bytes(first)[1]);
    assert(e[0x1C] == bytes::le32_bytes(size)[0] && e[0x1D] == bytes::le32_bytes(size)[1] && e[0x1E]
        == bytes::le32_bytes(size)[2] && e[0x1F] == bytes::le32_bytes(size)[3]);
}

/// On a sound volume an entry that is shown as a name is that of the name's stored form.
proof fn lemma_shown_is_named(d: DiskModel, b: Bpb, want: Seq<char>, k: int)
    requires
        sound(d, b),
        0 <= k < dir::slots(b),
        live(d, b, k),
        shown_as(d, b, want, k),
    ensures
        name::short_name(want) is Some,
        named(d, b, name::short_name(want).unwrap(), k),
{
    let e = dir::entry_at(d, b, k).unwrap();
    assert(proper(b, e));
    name::shown_name_is_unique(e.take(11), want);
}

/// The entry of a file that has been written is found under the file's name.
proof fn lemma_new_entry_found(
    d: DiskModel,
    b: Bpb,
    want: Seq<char>,
    data: Seq<u8>,
    gone: Set<u16>,
    t: Trace,
    e: Seq<u8>,
)
    requires
        sound(d, b),
        went(d, b, want, data, gone, t),
        name::short_name(want) is Some,
        want.last() != '.',
        e.len() == 32,
        e.take(11) == name::short_name(want).unwrap(),
        dir::is_real(e),
        e[0] == name::short_name(want).unwrap()[0],
    ensures
        dir::found(dir::entry_written(t.d2, b, t.slot, e).0, b, want, 0) == Ok::<
            Option<Seq<u8>>,
            FatError,
        >(Some(e)),
{
    lemma_root_until_entry(d, b, want, data, gone, t);
    name::short_name_is_stored(want);
    name::short_name_shows_the_name(want);
    lemma_entry_written(t.d2, b, t.slot, e);
    let after = dir::entry_written(t.d2, b, t.slot, e).0;
    assert forall|j: int| 0 <= j < t.slot implies #[trigger] goes_on(after, b, j) && !shown_as(
        after,
        b,
        want,
        j,
    ) by {
        lemma_same_entries(t.d2, d, b, j);
        assert(goes_on(d, b, j));
        assert(dir::entry_at(after, b, j) == dir::entry_at(t.d2, b, j));
        if shown_as(after, b, want, j) {
            lemma_shown_is_named(d, b, want, j);
        }
    }
    assert(shown_as(after, b, want, t.slot));
    lemma_found(after, b, want, 0, t.slot);
}

/// A file reads back as it was written, under the name that it was written under. The name must
/// not end in a dot, which the stored form does not keep, and the size must fit the 32 bits that
/// an entry has for it.
pub proof fn written_file_reads_back(d: DiskModel, b: Bpb, want: Seq<char>, data: Seq<u8>)
    requires
        sound(d, b),
        volume::file_written(d, b, want, data).1 is Ok,
        want.last() != '.',
        data.len() <= u32::MAX,
    ensures
        volume::file_read(volume::file_written(d, b, want, data).0, b, want) == Ok::<
            Seq<u8>,
            FatError,
        >(data),
{
    let gone = all_clusters(b);
    lemma_replaced_on_volume(d, b, want);
    let t = lemma_went(d, b, want, data, gone);
    lemma_trace_reads_back(d, b, want, data, gone, t);
}

/// What was written on the way is read.
#[verifier::spinoff_prover]
#[verifier::rlimit(60)]
proof fn lemma_trace_reads_back(
    d: DiskModel,
    b: Bpb,
    want: Seq<char>,
    data: Seq<u8>,
    gone: Set<u16>,
    t: Trace,
)
    requires
        sound(d, b),
        went(d, b, want, data, gone, t),
        name::short_name(want) is Some,
        want.last() != '.',
        data.len() <= u32::MAX,
    ensures
        volume::file_read(volume::file_written(d, b, want, data).0, b, want) == Ok::<
            Seq<u8>,
            FatError,
        >(data),
{
    let short = name::short_name(want).unwrap();
    let first = if data.len() == 0 {
        0u16
    } else {
        t.cs[0]
    };
    let e = dir::file_entry(short, first, data.len() as u32);
    lemma_file_entry_of(want, first, data.len() as u32);
    lemma_new_entry_found(d, b, want, data, gone, t, e);
    lemma_root_until_entry(d, b, want, data, gone, t);
    lemma_entry_written(t.d2, b, t.slot, e);
    let after = dir::entry_written(t.d2, b, t.slot, e).0;
    assert(data.len() % 0x1_0000_0000 == data.len());
    assert(after == volume::file_written(d, b, want, data).0);
    lemma_new_file_read(t.d2, after, b, want, t.cs, data, e);
}

/// The entry of a file that is written holds its name, its first cluster and its size.
proof fn lemma_file_entry_of(want: Seq<char>, first: u16, size: u32)
    requires
        name::short_name(want) is Some,
    ensures
        ({
            let short = name::short_name(want).unwrap();
            let e = dir::file_entry(short, first, size);
            &&& e.len() == 32
            &&& e.take(11) == short
            &&& dir::is_real(e)
            &&& !dir::is_subdir(e)
            &&& dir::first_cluster(e) == first
            &&& dir::file_size(e) == size
            &&& e[0] == short[0]
        }),
{
    name::short_name_is_stored(want);
    lemma_file_entry(name::short_name(want).unwrap(), first, size);
}

/// A file whose entry is found and whose clusters hold its data is read.
proof fn lemma_new_file_read(
    d: DiskModel,
    after: DiskModel,
    b: Bpb,
    want: Seq<char>,
    cs: Seq<u16>,
    data: Seq<u8>,
    e: Seq<u8>,
)
    requires
        entries::sensible(b),
        dir::found(after, b, want, 0) == Ok::<Option<Seq<u8>>, FatError>(Some(e)),
        !dir::is_subdir(e),
        dir::file_size(e) == data.len(),
        data.len() == 0 ==> dir::first_cluster(e) == 0,
        data.len() > 0 ==> cs.len() > 0 && dir::first_cluster(e) == cs[0]
            && contents::chain_holds(d, b, cs, data),
        entries::same_outside(after, d, bpb::root_start(b), bpb::data_start(b)),
    ensures
        volume::file_read(after, b, want) == Ok::<Seq<u8>, FatError>(data),
{
    if data.len() == 0 {
        assert(Seq::<u8>::empty().take(0) =~= data);
    } else {
        lemma_chain_after_entry(d, after, b, cs, data);
        contents::held_data_reads_back(after, b, cs, data, 0);
        assert(0 * contents::cluster_bytes(b) == 0);
        assert(contents::stream(data, 0) =~= Seq::empty());
    }
}

/// Writing an entry of the root directory leaves the chains alone.
proof fn lemma_chain_after_entry(
    d: DiskModel,
    after: DiskModel,
    b: Bpb,
    cs: Seq<u16>,
    data: Seq<u8>,
)
    requires
        entries::sensible(b),
        contents::chain_holds(d, b, cs, data),
        entries::same_outside(after, d, bpb::root_start(b), bpb::data_start(b)),
    ensures
        contents::chain_holds(after, b, cs, data),
{
    bpb::regions_are_ordered(b);
    assert(same_table(after, d, b)) by {
        assert forall|l: int| b.reserved_sectors <= l < bpb::root_start(b) implies #[trigger] entries::at(
            after,
            l,
        ) == entries::at(d, l) by {}
    }
    assert forall|j: int| 0 <= j < cs.len() - 1 implies table::link(after, b, #[trigger] cs[j])
        == Ok::<u16, FatError>(cs[j + 1]) by {
        assert(entries::on_volume(b, cs[j]));
        lemma_same_links(after, d, b, cs[j]);
    }
    assert forall|j: int| 0 <= j < cs.len() implies contents::holds_data(
        after,
        chain::cluster_start(b, #[trigger] cs[j]),
        b.sectors_per_cluster as int,
        data,
        j * contents::cluster_bytes(b),
    ) by {
        let lba = chain::cluster_start(b, cs[j]);
        assert(entries::on_volume(b, cs[j]));
        contents::lemma_cluster_place(b, cs[j]);
        assert forall|k: int| 0 <= k < b.sectors_per_cluster implies #[trigger] entries::at(
            after,
            lba + k,
        ) == Ok::<Seq<u8>, DiskError>(
            chain::piece(
                data,
                contents::clamped(data, j * contents::cluster_bytes(b) + 512 * k),
            ),
        ) by {
            assert(entries::at(after, lba + k) == entries::at(d, lba + k));
        }
    }
}

/// Writing a file keeps the copies of the allocation table identical.
pub proof fn writing_keeps_copies_identical(d: DiskModel, b: Bpb, want: Seq<char>, data: Seq<u8>)
    requires
        sound(d, b),
        volume::file_written(d, b, want, data).1 is Ok,
        entries::copies_agree(d, b),
    ensures
        entries::copies_agree(volume::file_written(d, b, want, data).0, b),
{
    let short = name::short_name(want).unwrap();
    let gone = all_clusters(b);
    lemma_replaced_on_volume(d, b, want);
    let t = lemma_went(d, b, want, data, gone);
    lemma_root_until_entry(d, b, want, data, gone, t);
    let first = if data.len() == 0 {
        0u16
    } else {
        t.cs[0]
    };
    let e = dir::file_entry(short, first, (data.len() % 0x1_0000_0000) as u32);
    name::short_name_is_stored(want);
    lemma_file_entry(short, first, (data.len() % 0x1_0000_0000) as u32);
    lemma_entry_written(t.d2, b, t.slot, e);
    let after = dir::entry_written(t.d2, b, t.slot, e).0;
    bpb::regions_are_ordered(b);
    assert(same_table(after, t.d2, b)) by {
        assert forall|l: int| b.reserved_sectors <= l < bpb::root_start(b) implies #[trigger] entries::at(
            after,
            l,
        ) == entries::at(t.d2, l) by {}
    }
    lemma_same_copies(after, t.d2, b);
}

proof fn lemma_same_sectors(d1: DiskModel, d2: DiskModel, lba: int, n: int, data: Seq<u8>)
    requires
        forall|l: int| lba <= l < lba + n ==> #[trigger] entries::at(d1, l) == entries::at(d2, l),
    ensures
        chain::sectors_read(d1, lba, n, data) == chain::sectors_read(d2, lba, n, data),
    decreases n,
{
    if n > 0 {
        assert(entries::at(d1, lba) == entries::at(d2, lba));
        if let Ok(s) = entries::at(d1, lba) {
            lemma_same_sectors(d1, d2, lba + 1, n - 1, data + s);
        }
    }
}

/// A chain whose clusters keep their entries and contents reads as before.
proof fn lemma_same_chain(
    d1: DiskModel,
    d2: DiskModel,
    b: Bpb,
    own: Set<u16>,
    c: u16,
    size: int,
    steps: int,
    data: Seq<u8>,
)
    requires
        entries::sensible(b),
        claim::closed_under_links(d2, b, own),
        table::is_cluster(c) ==> own.contains(c),
        forall|x: u16| #[trigger] own.contains(x) ==> table::link(d1, b, x) == table::link(d2, b, x),
        forall|x: u16, l: int|
            own.contains(x) && chain::cluster_start(b, x) <= l < chain::cluster_start(b, x)
                + b.sectors_per_cluster ==> #[trigger] entries::at(d1, l) == entries::at(d2, l)
                || !#[trigger] own.contains(x),
    ensures
        chain::chain_read(d1, b, c, size, steps, data) == chain::chain_read(
            d2,
            b,
            c,
            size,
            steps,
            data,
        ),
    decreases table::max_steps(b) - steps,
{
    if table::is_cluster(c) && steps + 1 <= table::max_steps(b) {
        let lba = chain::cluster_start(b, c);
        let n = b.sectors_per_cluster as int;
        assert forall|l: int| lba <= l < lba + n implies #[trigger] entries::at(d1, l)
            == entries::at(d2, l) by {
            assert(own.contains(c));
        }
        lemma_same_sectors(d1, d2, lba, n, data);
        if let Ok(more) = chain::sectors_read(d2, lba, n, data) {
            if more.len() < size {
                if let Ok(next) = table::link(d2, b, c) {
                    assert(claim::leads_into(d2, b, c, own));
                    lemma_same_chain(d1, d2, b, own, next, size, steps + 1, more);
                }
            }
        }
    }
}

/// Writing a file leaves every other file alone: one whose clusters `own` are in use and shared
/// neither with the chain `gone` of the file that is replaced nor with a free entry reads as it
/// did before.
#[verifier::spinoff_prover]
#[verifier::rlimit(60)]
pub proof fn other_files_are_left_alone(
    d: DiskModel,
    b: Bpb,
    want: Seq<char>,
    data: Seq<u8>,
    other: Seq<char>,
    own: Set<u16>,
    gone: Set<u16>,
)
    requires
        sound(d, b),
        volume::file_written(d, b, want, data).1 is Ok,
        claim::closed_under_links(d, b, gone),
        replaced(d, b, want) matches Some(c) ==> gone.contains(c),
        name::short_name(other) != name::short_name(want),
        dir::found(d, b, other, 0) matches Ok(Some(_)),
        claim::closed_under_links(d, b, own),
        ({
            let c = dir::first_cluster(dir::found(d, b, other, 0).unwrap().unwrap());
            table::is_cluster(c) ==> own.contains(c)
        }),
        forall|c: u16| #[trigger]
            own.contains(c) ==> !gone.contains(c) && table::link(d, b, c) != Ok::<u16, FatError>(
                FAT_ENTRY_FREE,
            ),
    ensures
        volume::file_read(volume::file_written(d, b, want, data).0, b, other)
            == volume::file_read(d, b, other),
{
    let short = name::short_name(want).unwrap();
    let t = lemma_went(d, b, want, data, gone);
    lemma_root_until_entry(d, b, want, data, gone, t);
    let first = if data.len() == 0 {
        0u16
    } else {
        t.cs[0]
    };
    let size = (data.len() % 0x1_0000_0000) as u32;
    let e = dir::file_entry(short, first, size);
    name::short_name_is_stored(want);
    lemma_file_entry(short, first, size);
    lemma_entry_written(t.d2, b, t.slot, e);
    let after = dir::entry_written(t.d2, b, t.slot, e).0;
    // The entry of the other file is still the one found.
    let k = lemma_found_at(d, b, other, 0);
    let raw = dir::entry_at(d, b, k).unwrap();
    lemma_shown_is_named(d, b, other, k);
    assert(k != t.slot) by {
        if k == t.slot {
            assert(dir::in_use(dir::entry_at(d, b, t.slot).unwrap()));
            assert(named(d, b, short, t.slot));
        }
    }
    lemma_same_entries(t.d2, d, b, k);
    assert(dir::entry_at(after, b, k) == dir::entry_at(t.d2, b, k));
    assert forall|j: int| 0 <= j < k implies #[trigger] goes_on(after, b, j) && !shown_as(
        after,
        b,
        other,
        j,
    ) by {
        assert(goes_on(d, b, j));
        if j == t.slot {
            if name::same_name(name::shown_name(short), other) {
                name::shown_name_is_unique(short, other);
            }
        } else {
            lemma_same_entries(t.d2, d, b, j);
            assert(dir::entry_at(after, b, j) == dir::entry_at(t.d2, b, j));
        }
    }
    assert(shown_as(after, b, other, k));
    lemma_found(after, b, other, 0, k);
    // Its clusters keep their entries and contents.
    bpb::regions_are_ordered(b);
    assert(same_table(after, t.d2, b)) by {
        assert forall|l: int| b.reserved_sectors <= l < bpb::root_start(b) implies #[trigger] entries::at(
            after,
            l,
        ) == entries::at(t.d2, l) by {}
    }
    assert forall|c: u16| #[trigger] own.contains(c) implies !t.cs.contains(c) && table::link(
        after,
        b,
        c,
    ) == table::link(d, b, c) by {
        assert(entries::on_volume(b, c));
        assert(table::link(t.d1, b, c) == table::link(d, b, c));
        if t.cs.contains(c) {
            let i = choose|i: int| 0 <= i < t.cs.len() && t.cs[i] == c;
            assert(table::link(t.d1, b, t.cs[i]) == Ok::<u16, FatError>(FAT_ENTRY_FREE));
        }
        lemma_same_links(after, t.d2, b, c);
        assert(table::link(t.d2, b, c) == table::link(t.d1, b, c));
    }
    assert forall|x: u16, l: int|
        own.contains(x) && chain::cluster_start(b, x) <= l < chain::cluster_start(b, x)
            + b.sectors_per_cluster implies #[trigger] entries::at(after, l) == entries::at(d, l)
        || !#[trigger] own.contains(x) by {
        assert(entries::on_volume(b, x));
        contents::lemma_cluster_place(b, x);
        assert(entries::at(after, l) == entries::at(t.d2, l));
        if contents::in_clusters(b, t.cs, 0, l) {
            let j = choose|j: int|
                0 <= j < t.cs.len() && chain::cluster_start(b, #[trigger] t.cs[j]) <= l
                    < chain::cluster_start(b, t.cs[j]) + b.sectors_per_cluster;
            assert(t.cs.contains(t.cs[j]));
            assert(t.cs[j] != x);
            contents::lemma_clusters_apart(b, t.cs[j], x);
        }
        assert(entries::at(t.d2, l) == entries::at(d, l));
    }
    lemma_same_chain(
        after,
        d,
        b,
        own,
        dir::first_cluster(raw),
        dir::file_size(raw) as int,
        0,
        Seq::empty(),
    );
}

} // verus!
