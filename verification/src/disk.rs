//! What is known of a disk: the sectors fetched so far, and the writes not yet performed.
//!
//! An operation that needs a sector which has not been fetched says so, and is tried again once
//! the sector is there. What an operation writes is visible to it at once and is noted in order,
//! so that it can be carried out on the device afterwards.

use std::collections::BTreeMap;

use vstd::prelude::*;

use crate::ata::AtaError;
use crate::bytes::to_vec;

verus! {

/// What fetching a sector gave.
pub enum Sector {
    Good(Vec<u8>),
    Bad(AtaError),
}

/// What fetching a sector gave, over sequences.
pub enum SectorModel {
    Good(Seq<u8>),
    Bad(AtaError),
}

impl View for Sector {
    type V = SectorModel;

    open spec fn view(&self) -> SectorModel {
        match *self {
            Sector::Good(data) => SectorModel::Good(data@),
            Sector::Bad(e) => SectorModel::Bad(e),
        }
    }
}

/// What is known of a disk.
#[verifier::ext_equal]
pub struct DiskModel {
    pub sectors: Map<u32, SectorModel>,
    /// The writes to carry out, oldest first.
    pub log: Seq<(u32, Seq<u8>)>,
}

/// What can go wrong with a sector.
#[derive(Debug, Clone, Copy, PartialEq, Eq, Structural)]
pub enum DiskError {
    /// The sector has not been fetched.
    NotLoaded(u32),
    /// The device failed.
    Ata(AtaError),
}

/// What is known of a disk.
pub struct Disk {
    sectors: BTreeMap<u32, Sector>,
    log: Vec<(u32, Vec<u8>)>,
}

/// Writes, over sequences.
pub open spec fn log_view(log: Seq<(u32, Vec<u8>)>) -> Seq<(u32, Seq<u8>)> {
    Seq::new(log.len(), |i: int| (log[i].0, log[i].1@))
}

impl View for Disk {
    type V = DiskModel;

    closed spec fn view(&self) -> DiskModel {
        DiskModel {
            sectors: self.sectors@.map_values(|s: Sector| s@),
            log: log_view(self.log@),
        }
    }
}

/// Every sector at hand holds 512 bytes.
pub open spec fn whole(d: DiskModel) -> bool {
    forall|lba: u32| #[trigger]
        d.sectors.contains_key(lba) ==> (d.sectors[lba] matches SectorModel::Good(s)
            ==> s.len() == 512)
}

/// The contents of sector `lba`.
pub open spec fn sector(d: DiskModel, lba: u32) -> Result<Seq<u8>, DiskError> {
    if !d.sectors.contains_key(lba) {
        Err(DiskError::NotLoaded(lba))
    } else {
        match d.sectors[lba] {
            SectorModel::Good(s) => Ok(s),
            SectorModel::Bad(e) => Err(DiskError::Ata(e)),
        }
    }
}

/// What writing sector `lba` does: a sector that fails cannot be written either.
pub open spec fn stored(d: DiskModel, lba: u32, data: Seq<u8>) -> (DiskModel, Result<(), DiskError>) {
    if d.sectors.contains_key(lba) && d.sectors[lba] is Bad {
        (d, Err(DiskError::Ata(d.sectors[lba]->Bad_0)))
    } else {
        (
            DiskModel {
                sectors: d.sectors.insert(lba, SectorModel::Good(data)),
                log: d.log.push((lba, data)),
            },
            Ok(()),
        )
    }
}

impl Disk {
    /// A disk of which nothing is known.
    pub fn new() -> (disk: Disk)
        ensures
            disk@ == (DiskModel { sectors: Map::empty(), log: Seq::empty() }),
            whole(disk@),
    {
        let disk = Disk { sectors: BTreeMap::new(), log: Vec::new() };
        assert(disk@ =~= DiskModel { sectors: Map::empty(), log: Seq::empty() });
        disk
    }

    /// Records what fetching sector `lba` gave.
    pub fn load(&mut self, lba: u32, fetched: Sector)
        requires
            whole(old(self)@),
            fetched@ matches SectorModel::Good(s) ==> s.len() == 512,
        ensures
            whole(final(self)@),
            final(self)@ == (DiskModel {
                sectors: old(self)@.sectors.insert(lba, fetched@),
                ..old(self)@
            }),
    {
        broadcast use vstd::std_specs::btree::group_btree_axioms;
        broadcast use vstd::laws_cmp::group_laws_cmp;

        let ghost before = self@;
        let ghost view = fetched@;
        self.sectors.insert(lba, fetched);
        assert(self@.sectors =~= before.sectors.insert(lba, view));
    }

    /// The contents of sector `lba`.
    pub fn read(&self, lba: u32) -> (r: Result<Vec<u8>, DiskError>)
        requires
            whole(self@),
        ensures
            match r {
                Ok(data) => sector(self@, lba) == Ok::<Seq<u8>, DiskError>(data@) && data@.len()
                    == 512,
                Err(e) => sector(self@, lba) == Err::<Seq<u8>, DiskError>(e),
            },
    {
        broadcast use vstd::std_specs::btree::group_btree_axioms;
        broadcast use vstd::laws_cmp::group_laws_cmp;

        match self.sectors.get(&lba) {
            Some(s) => {
                assert(self@.sectors.contains_key(lba) && self@.sectors[lba] == s@);
                match s {
                    Sector::Good(data) => Ok(to_vec(data)),
                    Sector::Bad(e) => Err(DiskError::Ata(*e)),
                }
            },
            None => Err(DiskError::NotLoaded(lba)),
        }
    }

    /// Writes sector `lba`.
    pub fn write(&mut self, lba: u32, data: Vec<u8>) -> (r: Result<(), DiskError>)
        requires
            whole(old(self)@),
            data@.len() == 512,
        ensures
            whole(final(self)@),
            (final(self)@, r) == stored(old(self)@, lba, data@),
    {
        broadcast use vstd::std_specs::btree::group_btree_axioms;
        broadcast use vstd::laws_cmp::group_laws_cmp;

        let ghost before = self@;
        if let Some(s) = self.sectors.get(&lba) {
            assert(before.sectors.contains_key(lba) && before.sectors[lba] == s@);
            if let Sector::Bad(e) = s {
                return Err(DiskError::Ata(*e));
            }
        }
        let ghost view = data@;
        let noted: Vec<u8> = to_vec(&data);
        self.sectors.insert(lba, Sector::Good(data));
        self.log.push((lba, noted));
        assert(self@.sectors =~= before.sectors.insert(lba, SectorModel::Good(view)));
        assert(self@.log =~= before.log.push((lba, view)));
        Ok(())
    }

    /// Takes the writes to carry out, oldest first.
    pub fn take_log(&mut self) -> (log: Vec<(u32, Vec<u8>)>)
        ensures
            log_view(log@) == old(self)@.log,
            final(self)@ == (DiskModel { log: Seq::empty(), ..old(self)@ }),
    {
        let mut log: Vec<(u32, Vec<u8>)> = Vec::new();
        std::mem::swap(&mut log, &mut self.log);
        assert(log_view(self.log@) =~= Seq::empty());
        log
    }
}

/// A sector reads back as it was written, and writing it leaves every other sector alone.
pub proof fn written_sector_reads_back(d: DiskModel, lba: u32, data: Seq<u8>, other: u32)
    requires
        stored(d, lba, data).1 is Ok,
        other != lba,
    ensures
        sector(stored(d, lba, data).0, lba) == Ok::<Seq<u8>, DiskError>(data),
        sector(stored(d, lba, data).0, other) == sector(d, other),
{
}

/// Carrying out the first `n` noted writes on the sectors of a device.
pub open spec fn carried_out(
    sectors: Map<u32, SectorModel>,
    log: Seq<(u32, Seq<u8>)>,
    n: int,
) -> Map<u32, SectorModel>
    decreases n,
{
    if n <= 0 {
        sectors
    } else {
        carried_out(sectors, log, n - 1).insert(log[n - 1].0, SectorModel::Good(log[n - 1].1))
    }
}

/// The noted writes are exactly what separates the disk as it is seen from the disk as it was
/// fetched: writing a sector keeps that so.
pub proof fn log_accounts_for_writes(
    fetched: Map<u32, SectorModel>,
    d: DiskModel,
    lba: u32,
    data: Seq<u8>,
)
    requires
        d.sectors == carried_out(fetched, d.log, d.log.len() as int),
    ensures
        ({
            let after = stored(d, lba, data).0;
            after.sectors == carried_out(fetched, after.log, after.log.len() as int)
        }),
{
    let log = d.log.push((lba, data));
    lemma_same_log(fetched, d.log, log, d.log.len() as int);
}

proof fn lemma_same_log(
    sectors: Map<u32, SectorModel>,
    a: Seq<(u32, Seq<u8>)>,
    b: Seq<(u32, Seq<u8>)>,
    n: int,
)
    requires
        n <= a.len() <= b.len(),
        forall|i: int| 0 <= i < n ==> a[i] == b[i],
    ensures
        carried_out(sectors, a, n) == carried_out(sectors, b, n),
    decreases n,
{
    if n > 0 {
        lemma_same_log(sectors, a, b, n - 1);
    }
}

/// A sector is what was fetched or written last; one that has not been fetched is asked for, and
/// one that fails can be neither read nor written. Writing concerns no other sector, and is noted
/// behind what was noted before.
pub proof fn sectors_are_what_they_were_last(
    d: DiskModel,
    lba: u32,
    data: Seq<u8>,
    other: u32,
    e: AtaError,
)
    requires
        other != lba,
    ensures
        ({
            let (after, r) = stored(d, lba, data);
            let fails = d.sectors.contains_key(lba) && d.sectors[lba] == SectorModel::Bad(e);
            &&& fails ==> after == d && r == Err::<(), DiskError>(DiskError::Ata(e)) && sector(
                d,
                lba,
            ) == Err::<Seq<u8>, DiskError>(DiskError::Ata(e))
            &&& !(d.sectors.contains_key(lba) && d.sectors[lba] is Bad) ==> {
                &&& r is Ok
                &&& sector(after, lba) == Ok::<Seq<u8>, DiskError>(data)
                &&& sector(after, other) == sector(d, other)
                &&& after.log == d.log + seq![(lba, data)]
            }
            &&& !d.sectors.contains_key(lba) ==> sector(d, lba) == Err::<Seq<u8>, DiskError>(
                DiskError::NotLoaded(lba),
            )
        }),
{
    assert(d.log.push((lba, data)) =~= d.log + seq![(lba, data)]);
}

} // verus!
