//! What becomes of the clusters of a file that is replaced.

use vstd::prelude::*;

use crate::disk::DiskModel;
use crate::fat::bpb;
use crate::fat::bpb::{Bpb, FatError};
use crate::fat::dir;
use crate::fat::laws::claim;
use crate::fat::laws::entries;
use crate::fat::laws::files;
use crate::fat::laws::room;
use crate::fat::name;
use crate::fat::table;
use crate::fat::volume;

verus! {

/// The clusters `cs` of the volume form a chain: each leads to the next, and the last to no
/// other.
pub open spec fn is_chain(d: DiskModel, b: Bpb, cs: Seq<u16>) -> bool {
    &&& cs.len() > 0
    &&& claim::distinct_clusters(b, cs)
    &&& forall|i: int|
        0 <= i < cs.len() - 1 ==> table::link(d, b, #[trigger] cs[i]) == Ok::<u16, FatError>(
            cs[i + 1],
        )
    &&& table::link(d, b, cs[cs.len() - 1]) matches Ok(end) && end >= 0xFFF8
}

/// Freeing a chain frees all of it and nothing else.
proof fn lemma_all_freed(d: DiskModel, b: Bpb, cs: Seq<u16>, steps: int)
    requires
        entries::sensible(b),
        entries::table_readable(d, b),
        is_chain(d, b, cs),
        0 <= steps,
        steps + cs.len() <= bpb::clusters(b) + 2,
    ensures
        ({
            let (after, r) = table::freed(d, b, cs[0], steps);
            &&& r is Ok
            &&& claim::table_kept(after, d, b)
            &&& entries::same_links(after, d, b, cs.to_set())
            &&& room::are_free(after, b, cs)
        }),
    decreases cs.len(),
{
    let c = cs[0];
    assert(entries::on_volume(b, c));
    let next = table::link(d, b, c).unwrap();
    claim::lemma_store(d, b, c, 0);
    let d1 = table::entry_stored(d, b, c, 0, 0).0;
    let after = table::freed(d, b, c, steps).0;
    assert(table::freed(d, b, c, steps) == table::freed(d1, b, next, steps + 1));
    if cs.len() == 1 {
        assert(!table::is_cluster(next));
        assert(after == d1);
        assert forall|x: u16| entries::on_volume(b, x) && !cs.to_set().contains(
            x,
        ) implies #[trigger] table::link(after, b, x) == table::link(d, b, x) by {
            assert(cs.contains(c));
        }
    } else {
        let rest = cs.skip(1);
        assert(rest[0] == next);
        assert forall|i: int| 0 <= i < rest.len() implies entries::on_volume(b, #[trigger] rest[i])
            && rest[i] != c && table::link(d1, b, rest[i]) == table::link(d, b, rest[i]) by {
            assert(rest[i] == cs[i + 1]);
        }
        assert(rest.no_duplicates()) by {
            assert forall|i: int, j: int|
                0 <= i < rest.len() && 0 <= j < rest.len() && i != j implies rest[i] != rest[j] by {
                assert(rest[i] == cs[i + 1] && rest[j] == cs[j + 1]);
            }
        }
        assert forall|i: int| 0 <= i < rest.len() - 1 implies table::link(d1, b, #[trigger] rest[i])
            == Ok::<u16, FatError>(rest[i + 1]) by {
            assert(rest[i] == cs[i + 1]);
        }
        assert(rest[rest.len() - 1] == cs[cs.len() - 1]);
        lemma_all_freed(d1, b, rest, steps + 1);
        assert(!rest.to_set().contains(c)) by {
            if rest.contains(c) {
                let i = choose|i: int| 0 <= i < rest.len() && rest[i] == c;
                assert(rest[i] != c);
            }
        }
        assert forall|x: u16| entries::on_volume(b, x) && !cs.to_set().contains(
            x,
        ) implies #[trigger] table::link(after, b, x) == table::link(d, b, x) by {
            assert(cs.contains(c));
            assert(x != c);
            if rest.contains(x) {
                let i = choose|i: int| 0 <= i < rest.len() && rest[i] == x;
                assert(cs[i + 1] == x);
            }
        }
        assert forall|i: int| 0 <= i < cs.len() implies table::link(after, b, #[trigger] cs[i])
            == Ok::<u16, FatError>(0) by {
            if i > 0 {
                assert(rest[i - 1] == cs[i]);
            }
        }
        let lo = b.reserved_sectors as int;
        let hi = bpb::root_start(b);
        assert forall|lba: int|
            0 <= lba <= u32::MAX && !(lo <= lba < hi) implies #[trigger] entries::at(after, lba)
            == entries::at(d, lba) by {
            assert(entries::at(after, lba) == entries::at(d1, lba));
            assert(entries::at(d1, lba) == entries::at(d, lba));
        }
    }
}

/// There are no more different clusters than the volume has.
proof fn lemma_no_more_than_there_are(b: Bpb, cs: Seq<u16>)
    requires
        claim::distinct_clusters(b, cs),
    ensures
        cs.len() <= bpb::clusters(b) + 2,
{
    let top = bpb::clusters(b) + 2;
    if top >= 0 {
        let all = vstd::set_lib::set_int_range(0, top);
        vstd::set_lib::lemma_int_range(0, top);
        let ids = cs.map_values(|c: u16| c as int);
        assert(ids.no_duplicates()) by {
            assert forall|i: int, j: int|
                0 <= i < ids.len() && 0 <= j < ids.len() && i != j implies ids[i] != ids[j] by {
                assert(cs[i] != cs[j]);
            }
        }
        ids.unique_seq_to_set();
        assert(ids.to_set().subset_of(all)) by {
            assert forall|x: int| ids.to_set().contains(x) implies all.contains(x) by {
                let i = choose|i: int| 0 <= i < ids.len() && ids[i] == x;
                assert(entries::on_volume(b, cs[i]));
            }
        }
        vstd::set_lib::lemma_len_subset(ids.to_set(), all);
    } else if cs.len() > 0 {
        assert(entries::on_volume(b, cs[0]));
    }
}

/// Writing nothing over a file gives all its clusters back, and changes no other entry of the
/// table.
pub proof fn emptied_file_gives_its_clusters_back(
    d: DiskModel,
    b: Bpb,
    want: Seq<char>,
    slot: int,
    cs: Seq<u16>,
)
    requires
        files::sound(d, b),
        name::short_name(want) is Some,
        is_chain(d, b, cs),
        dir::slot_for(d, b, name::short_name(want).unwrap(), 0, None) == Ok::<
            (int, Option<(u16, bool)>),
            FatError,
        >((slot, Some((cs[0], false)))),
    ensures
        ({
            let (after, r) = volume::file_written(d, b, want, Seq::empty());
            &&& r is Ok
            &&& room::are_free(after, b, cs)
            &&& entries::same_links(after, d, b, cs.to_set())
        }),
{
    let short = name::short_name(want).unwrap();
    let none = Seq::<u8>::empty();
    bpb::regions_are_ordered(b);
    assert(entries::on_volume(b, cs[0]));
    lemma_no_more_than_there_are(b, cs);
    lemma_all_freed(d, b, cs, 0);
    let d1 = table::freed(d, b, cs[0], 0).0;
    room::write_succeeds_where_there_is_room(
        d,
        b,
        want,
        none,
        slot,
        Some((cs[0], false)),
        Seq::empty(),
    );
    files::lemma_placed(d, b, short, 0, None);
    name::short_name_is_stored(want);
    let e = dir::file_entry(short, 0, 0);
    assert forall|l: int| bpb::root_start(b) <= l < bpb::data_start(b) implies (#[trigger] entries::at(
        d1,
        l,
    ) matches Ok(s) && s.len() == 512) by {
        assert(entries::at(d1, l) == entries::at(d, l));
        assert(entries::at(d, l) is Ok);
    }
    files::lemma_entry_written(d1, b, slot, e);
    let after = dir::entry_written(d1, b, slot, e).0;
    assert(volume::file_written(d, b, want, none) == dir::entry_written(d1, b, slot, e));
    assert(files::same_table(after, d1, b)) by {
        assert forall|l: int| b.reserved_sectors <= l < bpb::root_start(b) implies #[trigger] entries::at(
            after,
            l,
        ) == entries::at(d1, l) by {}
    }
    assert forall|c: u16| entries::on_volume(b, c) implies #[trigger] table::link(after, b, c)
        == table::link(d1, b, c) by {
        files::lemma_same_links(after, d1, b, c);
    }
}

/// A file can always be replaced by one that takes no more clusters, however full the volume is:
/// its own are given back first.
pub proof fn file_can_be_replaced(
    d: DiskModel,
    b: Bpb,
    want: Seq<char>,
    data: Seq<u8>,
    slot: int,
    cs: Seq<u16>,
)
    requires
        files::sound(d, b),
        name::short_name(want) is Some,
        is_chain(d, b, cs),
        dir::slot_for(d, b, name::short_name(want).unwrap(), 0, None) == Ok::<
            (int, Option<(u16, bool)>),
            FatError,
        >((slot, Some((cs[0], false)))),
        data.len() <= cs.len() * (b.sectors_per_cluster * 512),
    ensures
        volume::file_written(d, b, want, data).1 is Ok,
{
    bpb::regions_are_ordered(b);
    assert(entries::on_volume(b, cs[0]));
    lemma_no_more_than_there_are(b, cs);
    lemma_all_freed(d, b, cs, 0);
    room::write_succeeds_where_there_is_room(
        d,
        b,
        want,
        data,
        slot,
        Some((cs[0], false)),
        cs,
    );
}

/// A subdirectory is not replaced by a file, and a name that does not fit is refused; either way
/// nothing changes.
pub proof fn subdirectory_is_not_replaced(
    d: DiskModel,
    b: Bpb,
    want: Seq<char>,
    data: Seq<u8>,
    slot: int,
    first: u16,
)
    ensures
        name::short_name(want) is None ==> volume::file_written(d, b, want, data) == (
            d,
            Err::<(), FatError>(FatError::InvalidName),
        ),
        name::short_name(want) is Some && dir::slot_for(
            d,
            b,
            name::short_name(want).unwrap(),
            0,
            None,
        ) == Ok::<(int, Option<(u16, bool)>), FatError>((slot, Some((first, true))))
            ==> volume::file_written(d, b, want, data) == (
            d,
            Err::<(), FatError>(FatError::IsDirectory),
        ),
{
}

} // verus!
