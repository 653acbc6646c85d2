//! The root directory as the disk holds it: what a listing shows, what a name finds, and where an
//! entry goes.

use vstd::prelude::*;

use crate::disk;
use crate::disk::{DiskModel, SectorModel};
use crate::fat::bpb::{Bpb, FatError};
use crate::fat::dir;
use crate::fat::name;

verus! {

/// Sector `lba` holds the bytes `s`.
pub open spec fn sector_is(d: DiskModel, lba: int, s: Seq<u8>) -> bool {
    &&& 0 <= lba <= u32::MAX
    &&& d.sectors.contains_key(lba as u32)
    &&& d.sectors[lba as u32] == SectorModel::Good(s)
}

/// The sector with entry `k` of the root directory, which follows the copies of the table.
pub open spec fn sector_of(b: Bpb, k: int) -> int {
    b.reserved_sectors + b.num_fats * b.fat_size_sectors + k / 16
}

/// How many entries the sectors of the root directory hold.
pub open spec fn room(b: Bpb) -> int {
    (b.root_entry_count * 32 + 511) / 512 * 16
}

/// Entry `k` of the root directory holds the 32 bytes `e`.
pub open spec fn entry_is(d: DiskModel, b: Bpb, k: int, e: Seq<u8>) -> bool {
    exists|s: Seq<u8>|
        sector_is(d, sector_of(b, k), s) && s.len() == 512 && e == #[trigger] s.subrange(
            k % 16 * 32,
            k % 16 * 32 + 32,
        )
}

/// The first `n` entries of the root directory are `es`, and none of them ends it.
pub open spec fn begins_with(d: DiskModel, b: Bpb, es: Seq<Seq<u8>>) -> bool {
    &&& es.len() <= room(b)
    &&& forall|k: int| 0 <= k < es.len() ==> entry_is(d, b, k, #[trigger] es[k]) && es[k][0] != 0
}

/// The entries of the root directory are `es`: either they fill it, or the next one says that no
/// more follow.
pub open spec fn consists_of(d: DiskModel, b: Bpb, es: Seq<Seq<u8>>) -> bool {
    &&& begins_with(d, b, es)
    &&& es.len() == room(b) || exists|e: Seq<u8>|
        #[trigger] entry_is(d, b, es.len() as int, e) && e[0] == 0
}

/// Whether an entry stands for a file or a subdirectory: it is not deleted, and neither a piece
/// of a long name nor the label of the volume.
pub open spec fn stands_for_something(e: Seq<u8>) -> bool {
    e[0] != 0xE5 && e[11] != 0x0F && e[11] & 0x08 == 0
}

/// What the listing shows of an entry: its name, and whether it is a subdirectory.
pub open spec fn shown(e: Seq<u8>) -> (Seq<char>, bool) {
    (name::shown_name(e.take(11)), e[11] & 0x10 != 0)
}

proof fn lemma_entry(d: DiskModel, b: Bpb, k: int, e: Seq<u8>)
    requires
        b.ok(),
        0 <= k < room(b),
        entry_is(d, b, k, e),
    ensures
        dir::slots(b) == room(b),
        dir::entry_at(d, b, k) == Ok::<Seq<u8>, FatError>(e),
        e.len() == 32,
{
    let s = choose|s: Seq<u8>|
        sector_is(d, sector_of(b, k), s) && s.len() == 512 && e == #[trigger] s.subrange(
            k % 16 * 32,
            k % 16 * 32 + 32,
        );
    assert(disk::sector(d, sector_of(b, k) as u32) == Ok::<Seq<u8>, disk::DiskError>(s));
}

/// The listing of a root directory is complete, in order, and shows nothing else: it has one
/// item for each entry that stands for a file or a subdirectory, and the items come in the order
/// of the entries. `ks` are the places of those entries.
pub proof fn listing_is_complete(d: DiskModel, b: Bpb, es: Seq<Seq<u8>>) -> (ks: Seq<int>)
    requires
        b.ok(),
        consists_of(d, b, es),
    ensures
        dir::listed(d, b, 0) matches Ok(items) && items.len() == ks.len() && forall|i: int|
            0 <= i < ks.len() ==> 0 <= #[trigger] ks[i] < es.len() && stands_for_something(
                es[ks[i]],
            ) && items[i] == shown(es[ks[i]]),
        forall|i: int, j: int| 0 <= i < j < ks.len() ==> ks[i] < ks[j],
        forall|k: int|
            0 <= k < es.len() && stands_for_something(#[trigger] es[k]) ==> ks.contains(k),
{
    lemma_listed_from(d, b, es, 0)
}

proof fn lemma_listed_from(d: DiskModel, b: Bpb, es: Seq<Seq<u8>>, from: int) -> (ks: Seq<int>)
    requires
        b.ok(),
        consists_of(d, b, es),
        0 <= from <= es.len(),
    ensures
        dir::listed(d, b, from) matches Ok(items) && items.len() == ks.len() && forall|i: int|
            0 <= i < ks.len() ==> from <= #[trigger] ks[i] < es.len() && stands_for_something(
                es[ks[i]],
            ) && items[i] == shown(es[ks[i]]),
        forall|i: int, j: int| 0 <= i < j < ks.len() ==> ks[i] < ks[j],
        forall|k: int|
            from <= k < es.len() && stands_for_something(#[trigger] es[k]) ==> ks.contains(k),
    decreases es.len() - from,
{
    if from == es.len() {
        if from < room(b) {
            let e = choose|e: Seq<u8>| #[trigger]
                entry_is(d, b, es.len() as int, e) && e[0] == 0;
            lemma_entry(d, b, from, e);
        } else {
            assert(dir::slots(b) == room(b));
        }
        Seq::empty()
    } else {
        let e = es[from];
        assert(entry_is(d, b, from, e));
        lemma_entry(d, b, from, e);
        let rest = lemma_listed_from(d, b, es, from + 1);
        if stands_for_something(e) {
            let ks = seq![from] + rest;
            let later = dir::listed(d, b, from + 1).unwrap();
            let items = seq![shown(e)] + later;
            assert(dir::listed(d, b, from) == Ok::<Seq<(Seq<char>, bool)>, FatError>(items));
            assert forall|i: int| 0 <= i < ks.len() implies from <= #[trigger] ks[i] < es.len()
                && stands_for_something(es[ks[i]]) && items[i] == shown(es[ks[i]]) by {
                if i > 0 {
                    assert(ks[i] == rest[i - 1]);
                    assert(items[i] == later[i - 1]);
                }
            }
            assert forall|i: int, j: int| 0 <= i < j < ks.len() implies ks[i] < ks[j] by {
                if i > 0 {
                    assert(ks[i] == rest[i - 1]);
                }
                assert(ks[j] == rest[j - 1]);
            }
            assert forall|k: int|
                from <= k < es.len() && stands_for_something(
                    #[trigger] es[k],
                ) implies ks.contains(k) by {
                if k == from {
                    assert(ks[0] == k);
                } else {
                    let i = choose|i: int| 0 <= i < rest.len() && rest[i] == k;
                    assert(ks[i + 1] == k);
                }
            }
            ks
        } else {
            rest
        }
    }
}

/// A listing that cannot read an entry says why: the first entry whose sector is missing or
/// fails, before the directory ends, decides.
pub proof fn unreadable_entry_is_reported(d: DiskModel, b: Bpb, es: Seq<Seq<u8>>, e: FatError)
    requires
        b.ok(),
        begins_with(d, b, es),
        es.len() < room(b),
        ({
            let lba = sector_of(b, es.len() as int);
            ||| !d.sectors.contains_key(lba as u32) && e == FatError::NotLoaded(lba as u32)
            ||| d.sectors.contains_key(lba as u32) && (d.sectors[lba as u32] matches SectorModel::Bad(
                x,
            ) && e == FatError::Io(x))
        }),
    ensures
        dir::listed(d, b, 0) == Err::<Seq<(Seq<char>, bool)>, FatError>(e),
{
    lemma_unreadable_from(d, b, es, e, 0);
}

proof fn lemma_unreadable_from(d: DiskModel, b: Bpb, es: Seq<Seq<u8>>, e: FatError, from: int)
    requires
        b.ok(),
        begins_with(d, b, es),
        es.len() < room(b),
        dir::entry_at(d, b, es.len() as int) == Err::<Seq<u8>, FatError>(e),
        0 <= from <= es.len(),
    ensures
        dir::listed(d, b, from) == Err::<Seq<(Seq<char>, bool)>, FatError>(e),
    decreases es.len() - from,
{
    assert(dir::slots(b) == room(b));
    if from < es.len() {
        assert(entry_is(d, b, from, es[from]));
        lemma_entry(d, b, from, es[from]);
        lemma_unreadable_from(d, b, es, e, from + 1);
    }
}

/// Whether an entry answers to a name: it stands for something, and its shown name is the name
/// but for the case of letters.
pub open spec fn answers_to(e: Seq<u8>, want: Seq<char>) -> bool {
    stands_for_something(e) && name::same_name(name::shown_name(e.take(11)), want)
}

/// A name finds the first entry that answers to it, whatever entries stand before it: deleted
/// ones, labels, pieces of long names and other files.
pub proof fn name_finds_its_entry(d: DiskModel, b: Bpb, es: Seq<Seq<u8>>, want: Seq<char>, k: int)
    requires
        b.ok(),
        begins_with(d, b, es),
        0 <= k < es.len(),
        answers_to(es[k], want),
        forall|j: int| 0 <= j < k ==> !answers_to(#[trigger] es[j], want),
    ensures
        dir::found(d, b, want, 0) == Ok::<Option<Seq<u8>>, FatError>(Some(es[k])),
{
    lemma_found_from(d, b, es, want, k, 0);
}

proof fn lemma_found_from(
    d: DiskModel,
    b: Bpb,
    es: Seq<Seq<u8>>,
    want: Seq<char>,
    k: int,
    from: int,
)
    requires
        b.ok(),
        begins_with(d, b, es),
        0 <= from <= k < es.len(),
        answers_to(es[k], want),
        forall|j: int| 0 <= j < k ==> !answers_to(#[trigger] es[j], want),
    ensures
        dir::found(d, b, want, from) == Ok::<Option<Seq<u8>>, FatError>(Some(es[k])),
    decreases k - from,
{
    assert(entry_is(d, b, from, es[from]));
    lemma_entry(d, b, from, es[from]);
    if from < k {
        assert(!answers_to(es[from], want));
        lemma_found_from(d, b, es, want, k, from + 1);
    }
}

/// A name to which no entry answers is not found.
pub proof fn unknown_name_is_not_found(d: DiskModel, b: Bpb, es: Seq<Seq<u8>>, want: Seq<char>)
    requires
        b.ok(),
        consists_of(d, b, es),
        forall|j: int| 0 <= j < es.len() ==> !answers_to(#[trigger] es[j], want),
    ensures
        dir::found(d, b, want, 0) == Ok::<Option<Seq<u8>>, FatError>(None),
{
    lemma_not_found_from(d, b, es, want, 0);
}

proof fn lemma_not_found_from(
    d: DiskModel,
    b: Bpb,
    es: Seq<Seq<u8>>,
    want: Seq<char>,
    from: int,
)
    requires
        b.ok(),
        consists_of(d, b, es),
        forall|j: int| 0 <= j < es.len() ==> !answers_to(#[trigger] es[j], want),
        0 <= from <= es.len(),
    ensures
        dir::found(d, b, want, from) == Ok::<Option<Seq<u8>>, FatError>(None),
    decreases es.len() - from,
{
    assert(dir::slots(b) == room(b));
    if from == es.len() {
        if from < room(b) {
            let e = choose|e: Seq<u8>| #[trigger]
                entry_is(d, b, es.len() as int, e) && e[0] == 0;
            lemma_entry(d, b, from, e);
        }
    } else {
        assert(entry_is(d, b, from, es[from]));
        lemma_entry(d, b, from, es[from]);
        lemma_not_found_from(d, b, es, want, from + 1);
    }
}

/// Whatever a name finds is in the listing, and the listing shows nothing that no name finds.
pub proof fn listing_and_names_agree(d: DiskModel, b: Bpb, es: Seq<Seq<u8>>, want: Seq<char>)
    requires
        b.ok(),
        consists_of(d, b, es),
    ensures
        match dir::found(d, b, want, 0) {
            Ok(Some(e)) => name::same_name(shown(e).0, want) && dir::listed(
                d,
                b,
                0,
            ).unwrap().contains(shown(e)),
            Ok(None) => forall|i: int|
                0 <= i < dir::listed(d, b, 0).unwrap().len() ==> !name::same_name(
                    (#[trigger] dir::listed(d, b, 0).unwrap()[i]).0,
                    want,
                ),
            Err(_) => false,
        },
{
    let ks = listing_is_complete(d, b, es);
    let items = dir::listed(d, b, 0).unwrap();
    if exists|k: int| 0 <= k < es.len() && answers_to(#[trigger] es[k], want) {
        let any = choose|k: int| 0 <= k < es.len() && answers_to(#[trigger] es[k], want);
        let k = lemma_first_answer(es, want, any);
        name_finds_its_entry(d, b, es, want, k);
        let i = choose|i: int| 0 <= i < ks.len() && ks[i] == k;
        assert(items[i] == shown(es[ks[i]]));
    } else {
        unknown_name_is_not_found(d, b, es, want);
        assert forall|i: int| 0 <= i < items.len() implies !name::same_name(
            (#[trigger] items[i]).0,
            want,
        ) by {
            assert(!answers_to(es[ks[i]], want));
        }
    }
}

proof fn lemma_first_answer(es: Seq<Seq<u8>>, want: Seq<char>, any: int) -> (k: int)
    requires
        0 <= any < es.len(),
        answers_to(es[any], want),
    ensures
        0 <= k < es.len(),
        answers_to(es[k], want),
        forall|j: int| 0 <= j < k ==> !answers_to(#[trigger] es[j], want),
    decreases any,
{
    if exists|j: int| 0 <= j < any && answers_to(#[trigger] es[j], want) {
        let j = choose|j: int| 0 <= j < any && answers_to(#[trigger] es[j], want);
        lemma_first_answer(es, want, j)
    } else {
        any
    }
}

/// Whether an entry is that of a stored name.
pub open spec fn is_entry_of(e: Seq<u8>, short: Seq<u8>) -> bool {
    stands_for_something(e) && e.take(11) == short
}

/// A file that exists is overwritten in its own entry, wherever free entries are; what is found
/// of it is its first cluster and whether it is a subdirectory.
pub proof fn existing_entry_is_used_again(
    d: DiskModel,
    b: Bpb,
    es: Seq<Seq<u8>>,
    short: Seq<u8>,
    k: int,
)
    requires
        b.ok(),
        begins_with(d, b, es),
        0 <= k < es.len(),
        is_entry_of(es[k], short),
        forall|j: int| 0 <= j < k ==> !is_entry_of(#[trigger] es[j], short),
    ensures
        dir::slot_for(d, b, short, 0, None) == Ok::<(int, Option<(u16, bool)>), FatError>(
            (k, Some(((es[k][26] + es[k][27] * 256) as u16, es[k][11] & 0x10 != 0))),
        ),
{
    lemma_own_slot(d, b, es, short, k, 0, None);
}

proof fn lemma_own_slot(
    d: DiskModel,
    b: Bpb,
    es: Seq<Seq<u8>>,
    short: Seq<u8>,
    k: int,
    from: int,
    free: Option<int>,
)
    requires
        b.ok(),
        begins_with(d, b, es),
        0 <= from <= k < es.len(),
        is_entry_of(es[k], short),
        forall|j: int| 0 <= j < k ==> !is_entry_of(#[trigger] es[j], short),
    ensures
        dir::slot_for(d, b, short, from, free) == Ok::<(int, Option<(u16, bool)>), FatError>(
            (k, Some(((es[k][26] + es[k][27] * 256) as u16, es[k][11] & 0x10 != 0))),
        ),
    decreases k - from,
{
    assert(entry_is(d, b, from, es[from]));
    lemma_entry(d, b, from, es[from]);
    if from < k {
        assert(!is_entry_of(es[from], short));
        let next = if free is None && es[from][0] == 0xE5 {
            Some(from)
        } else {
            free
        };
        lemma_own_slot(d, b, es, short, k, from + 1, next);
    }
}

/// A new file goes to the first entry that was deleted, or else to the first behind all others;
/// a directory that is full has no room for it.
pub proof fn new_entry_takes_the_first_free(
    d: DiskModel,
    b: Bpb,
    es: Seq<Seq<u8>>,
    short: Seq<u8>,
    k: int,
)
    requires
        b.ok(),
        consists_of(d, b, es),
        forall|j: int| 0 <= j < es.len() ==> !is_entry_of(#[trigger] es[j], short),
        0 <= k <= es.len(),
        forall|j: int| 0 <= j < k ==> (#[trigger] es[j])[0] != 0xE5,
        k < es.len() ==> es[k][0] == 0xE5,
    ensures
        dir::slot_for(d, b, short, 0, None) == if k < room(b) {
            Ok::<(int, Option<(u16, bool)>), FatError>((k, None))
        } else {
            Err(FatError::DirFull)
        },
{
    lemma_free_slot(d, b, es, short, k, 0);
}

proof fn lemma_free_slot(
    d: DiskModel,
    b: Bpb,
    es: Seq<Seq<u8>>,
    short: Seq<u8>,
    k: int,
    from: int,
)
    requires
        b.ok(),
        consists_of(d, b, es),
        forall|j: int| 0 <= j < es.len() ==> !is_entry_of(#[trigger] es[j], short),
        0 <= k <= es.len(),
        forall|j: int| 0 <= j < k ==> (#[trigger] es[j])[0] != 0xE5,
        k < es.len() ==> es[k][0] == 0xE5,
        0 <= from <= es.len(),
    ensures
        dir::slot_for(
            d,
            b,
            short,
            from,
            if from <= k {
                None
            } else {
                Some(k)
            },
        ) == if k < room(b) {
            Ok::<(int, Option<(u16, bool)>), FatError>((k, None))
        } else {
            Err(FatError::DirFull)
        },
    decreases es.len() - from,
{
    assert(dir::slots(b) == room(b));
    if from == es.len() {
        if from < room(b) {
            let e = choose|e: Seq<u8>| #[trigger]
                entry_is(d, b, es.len() as int, e) && e[0] == 0;
            lemma_entry(d, b, from, e);
        }
    } else {
        assert(entry_is(d, b, from, es[from]));
        lemma_entry(d, b, from, es[from]);
        assert(!is_entry_of(es[from], short));
        lemma_free_slot(d, b, es, short, k, from + 1);
    }
}

/// The entry of a written file holds its stored name, the attribute of a file, its first cluster
/// and its size, each where the format has it, and zeros elsewhere.
pub proof fn entry_has_the_layout(short: Seq<u8>, first: u16, size: u32)
    requires
        short.len() == 11,
    ensures
        ({
            let e = dir::file_entry(short, first, size);
            &&& e.len() == 32
            &&& e.take(11) == short
            &&& e[11] == 0x20
            &&& forall|i: int| 12 <= i < 26 ==> #[trigger] e[i] == 0
            &&& e[26] + e[27] * 256 == first
            &&& e[28] + e[29] * 256 + e[30] * 65536 + e[31] * 16777216 == size
        }),
{
    let e = dir::file_entry(short, first, size);
    assert(e.take(11) =~= short);
    let f = crate::bytes::le16_bytes(first);
    let z = crate::bytes::le32_bytes(size);
    assert(e[26] == f[0] && e[27] == f[1]);
    assert(e[28] == z[0] && e[29] == z[1] && e[30] == z[2] && e[31] == z[3]);
}

} // verus!
