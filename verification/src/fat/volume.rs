//! A mounted volume: reading and writing the files of its root directory.

use vstd::prelude::*;

use crate::ata::Drive;
use crate::disk;
use crate::disk::{Disk, DiskModel};
use crate::fat::bpb;
use crate::fat::bpb::{Bpb, FatError};
use crate::fat::chain;
use crate::fat::chain::{read_chain, write_chain};
use crate::fat::dir;
use crate::fat::dir::{find_dir_slot, find_root_entry, list_root, write_entry};
use crate::fat::name;
use crate::fat::name::string_to_short_name;
use crate::fat::table;
use crate::fat::table::free_chain;
use crate::fs;
use crate::fs::{components, FileSystem, FsError};
use crate::text;
use crate::text::{chars_of, string_of};

verus! {

/// A mounted volume.
pub struct Fat {
    drive: Drive,
    bpb: Bpb,
    pub disk: Disk,
}

/// The state of a mounted volume.
#[verifier::ext_equal]
pub struct FatModel {
    pub bpb: Bpb,
    pub disk: DiskModel,
}

/// The geometry of the volume on a disk.
pub open spec fn geometry(d: DiskModel) -> Result<Bpb, FatError> {
    match disk::sector(d, 0) {
        Ok(s) => bpb::parsed(s),
        Err(e) => Err(bpb::sector_error(e)),
    }
}

/// Reads the geometry of the volume on a disk.
pub fn read_bpb(disk: &Disk) -> (r: Result<Bpb, FatError>)
    requires
        disk::whole(disk@),
    ensures
        r == geometry(disk@),
        r matches Ok(b) ==> bpb::is_fat16(b),
{
    match disk.read(0) {
        Ok(s) => Bpb::parse(&s),
        Err(e) => Err(FatError::from(e)),
    }
}

/// What reading a file gives.
pub open spec fn file_read(d: DiskModel, b: Bpb, want: Seq<char>) -> Result<Seq<u8>, FatError> {
    match dir::found(d, b, want, 0) {
        Err(e) => Err(e),
        Ok(None) => Err(FatError::NotFound),
        Ok(Some(e)) => if dir::is_subdir(e) {
            Err(FatError::IsDirectory)
        } else {
            chain::chain_read(
                d,
                b,
                dir::first_cluster(e),
                dir::file_size(e) as int,
                0,
                Seq::empty(),
            )
        },
    }
}

/// What making room for a file does: the chain of the one that it replaces is freed.
pub open spec fn vacated(d: DiskModel, b: Bpb, existing: Option<(u16, bool)>) -> (
    DiskModel,
    Result<(), FatError>,
) {
    match existing {
        None => (d, Ok(())),
        Some((first, is_dir)) => if is_dir {
            (d, Err(FatError::IsDirectory))
        } else if first >= 2 {
            table::freed(d, b, first, 0)
        } else {
            (d, Ok(()))
        },
    }
}

/// What writing a file does: the name must fit the stored form and not be that of a
/// subdirectory; the chain of a file that it replaces is freed, the data goes to a fresh chain,
/// and the entry is written last.
pub open spec fn file_written(d: DiskModel, b: Bpb, want: Seq<char>, data: Seq<u8>) -> (
    DiskModel,
    Result<(), FatError>,
) {
    match name::short_name(want) {
        None => (d, Err(FatError::InvalidName)),
        Some(short) => match dir::slot_for(d, b, short, 0, None) {
            Err(e) => (d, Err(e)),
            Ok((k, existing)) => match vacated(d, b, existing) {
                (d1, Err(e)) => (d1, Err(e)),
                (d1, Ok(())) => match chain::chain_written(d1, b, data) {
                    (d2, Err(e)) => (d2, Err(e)),
                    (d2, Ok(first)) => dir::entry_written(
                        d2,
                        b,
                        k,
                        dir::file_entry(short, first, (data.len() % 0x1_0000_0000) as u32),
                    ),
                },
            },
        },
    }
}

impl Fat {
    /// Mounts the volume on `drive`, whose sectors are in `disk`.
    pub fn mount(drive: Drive, disk: Disk) -> (r: Result<Fat, FatError>)
        requires
            disk::whole(disk@),
        ensures
            match r {
                Ok(fat) => fat.ok() && geometry(disk@) == Ok::<Bpb, FatError>(fat.model().bpb)
                    && fat.model().disk == disk@ && fat.location() == drive,
                Err(e) => geometry(disk@) == Err::<Bpb, FatError>(e),
            },
    {
        match read_bpb(&disk) {
            Ok(b) => Ok(Fat { drive, bpb: b, disk }),
            Err(e) => Err(e),
        }
    }

    /// The drive that the volume is on.
    pub closed spec fn location(&self) -> Drive {
        self.drive
    }

    /// The drive that the volume is on.
    pub fn drive(&self) -> (d: Drive)
        ensures
            d == self.location(),
    {
        self.drive
    }

    /// The geometry of the volume.
    pub fn bpb(&self) -> (b: &Bpb)
        ensures
            *b == self.model().bpb,
    {
        &self.bpb
    }

    /// Reads a file of the root directory.
    pub fn read_file(&self, want: &str) -> (r: Result<Vec<u8>, FatError>)
        requires
            self.ok(),
        ensures
            match r {
                Ok(data) => file_read(self.model().disk, self.model().bpb, want@) == Ok::<
                    Seq<u8>,
                    FatError,
                >(data@),
                Err(e) => file_read(self.model().disk, self.model().bpb, want@) == Err::<
                    Seq<u8>,
                    FatError,
                >(e),
            },
    {
        match find_root_entry(&self.disk, &self.bpb, &chars_of(want)) {
            Ok(Some(e)) => {
                if e.is_dir {
                    return Err(FatError::IsDirectory);
                }
                read_chain(&self.disk, &self.bpb, e.first_cluster, e.size as usize)
            },
            Ok(None) => Err(FatError::NotFound),
            Err(e) => Err(e),
        }
    }

    /// Creates or overwrites a file of the root directory.
    pub fn write_file(&mut self, want: &str, data: &[u8]) -> (r: Result<(), FatError>)
        requires
            old(self).ok(),
            old(self).writable(),
        ensures
            final(self).ok(),
            final(self).writable(),
            final(self).location() == old(self).location(),
            final(self).model().bpb == old(self).model().bpb,
            (final(self).model().disk, r) == file_written(
                old(self).model().disk,
                old(self).model().bpb,
                want@,
                data@,
            ),
    {
        let short: Vec<u8> = match string_to_short_name(want) {
            Some(short) => short,
            None => {
                return Err(FatError::InvalidName);
            },
        };
        let b: Bpb = self.bpb;
        let slot = match find_dir_slot(&self.disk, &b, &short) {
            Ok(slot) => slot,
            Err(e) => {
                return Err(e);
            },
        };
        if let Some((first, is_dir)) = slot.existing {
            if is_dir {
                return Err(FatError::IsDirectory);
            }
            if first >= 2 {
                if let Err(e) = free_chain(&mut self.disk, &b, first) {
                    return Err(e);
                }
            }
        }
        let first: u16 = match write_chain(&mut self.disk, &b, data) {
            Ok(first) => first,
            Err(e) => {
                return Err(e);
            },
        };
        let size: u32 = (data.len() as u64 % 0x1_0000_0000) as u32;
        write_entry(&mut self.disk, &b, slot.index, &short, first, size)
    }
}

/// A volume's outcome as a filesystem's.
pub open spec fn fs_result<T>(r: Result<T, FatError>) -> Result<T, FsError> {
    match r {
        Ok(x) => Ok(x),
        Err(e) => Err(bpb::fs_error(e)),
    }
}

impl FileSystem for Fat {
    type Model = FatModel;

    closed spec fn model(&self) -> FatModel {
        FatModel { bpb: self.bpb, disk: self.disk@ }
    }

    closed spec fn ok(&self) -> bool {
        disk::whole(self.disk@) && bpb::is_fat16(self.bpb)
    }

    open spec fn writable(&self) -> bool {
        self.model().bpb.sectors_per_cluster > 0
    }

    open spec fn making(m: FatModel, path: Seq<char>) -> (FatModel, Result<(), FsError>) {
        (m, Err(FsError::Unsupported))
    }

    open spec fn writing(m: FatModel, path: Seq<char>, data: Seq<u8>) -> (
        FatModel,
        Result<(), FsError>,
    ) {
        let p = fs::path_components(path);
        if p.len() == 0 {
            (m, Err(FsError::IsDir))
        } else if p.len() == 1 {
            let (d, r) = file_written(m.disk, m.bpb, p[0], data);
            (FatModel { disk: d, ..m }, fs_result(r))
        } else {
            (m, Err(FsError::Unsupported))
        }
    }

    open spec fn reading(m: FatModel, path: Seq<char>) -> Result<Seq<u8>, FsError> {
        let p = fs::path_components(path);
        if p.len() == 0 {
            Err(FsError::IsDir)
        } else if p.len() == 1 {
            fs_result(file_read(m.disk, m.bpb, p[0]))
        } else {
            Err(FsError::Unsupported)
        }
    }

    open spec fn lists(
        m: FatModel,
        path: Seq<char>,
        r: Result<Seq<(Seq<char>, bool)>, FsError>,
    ) -> bool {
        r == if fs::path_components(path).len() == 0 {
            fs_result(dir::listed(m.disk, m.bpb, 0))
        } else {
            Err(FsError::Unsupported)
        }
    }

    open spec fn removing(m: FatModel, path: Seq<char>) -> (FatModel, Result<(), FsError>) {
        (m, Err(FsError::Unsupported))
    }

    open spec fn names_dir(m: FatModel, path: Seq<char>) -> Result<bool, FsError> {
        let p = fs::path_components(path);
        if p.len() == 0 {
            Ok(true)
        } else if p.len() == 1 {
            match dir::found(m.disk, m.bpb, p[0], 0) {
                Ok(Some(e)) => Ok(dir::is_subdir(e)),
                Err(FatError::NotLoaded(lba)) => Err(FsError::NotLoaded(lba)),
                _ => Ok(false),
            }
        } else {
            Ok(false)
        }
    }

    fn mkdir(&mut self, path: &str) -> Result<(), FsError> {
        Err(FsError::Unsupported)
    }

    fn write(&mut self, path: &str, data: &[u8]) -> Result<(), FsError> {
        let comps: Vec<Vec<char>> = components(path);
        let ghost p = text::words_view(comps@);
        assert(p.len() == comps@.len());
        if comps.len() == 0 {
            return Err(FsError::IsDir);
        }
        if comps.len() > 1 {
            return Err(FsError::Unsupported);
        }
        assert(p[0] == comps@[0]@);
        let want: String = string_of(&comps[0]);
        match self.write_file(want.as_str(), data) {
            Ok(()) => Ok(()),
            Err(e) => Err(FsError::from(e)),
        }
    }

    fn read(&self, path: &str) -> Result<Vec<u8>, FsError> {
        let comps: Vec<Vec<char>> = components(path);
        let ghost p = text::words_view(comps@);
        assert(p.len() == comps@.len());
        if comps.len() == 0 {
            return Err(FsError::IsDir);
        }
        if comps.len() > 1 {
            return Err(FsError::Unsupported);
        }
        assert(p[0] == comps@[0]@);
        let want: String = string_of(&comps[0]);
        match self.read_file(want.as_str()) {
            Ok(data) => Ok(data),
            Err(e) => Err(FsError::from(e)),
        }
    }

    fn list(&self, path: &str) -> Result<Vec<(String, bool)>, FsError> {
        let comps: Vec<Vec<char>> = components(path);
        assert(text::words_view(comps@).len() == comps@.len());
        if comps.len() > 0 {
            return Err(FsError::Unsupported);
        }
        match list_root(&self.disk, &self.bpb) {
            Ok(out) => Ok(out),
            Err(e) => Err(FsError::from(e)),
        }
    }

    fn remove(&mut self, path: &str) -> Result<(), FsError> {
        Err(FsError::Unsupported)
    }

    fn is_dir(&self, path: &str) -> Result<bool, FsError> {
        let comps: Vec<Vec<char>> = components(path);
        let ghost p = text::words_view(comps@);
        assert(p.len() == comps@.len());
        if comps.len() == 0 {
            return Ok(true);
        }
        if comps.len() > 1 {
            return Ok(false);
        }
        assert(p[0] == comps@[0]@);
        match find_root_entry(&self.disk, &self.bpb, &comps[0]) {
            Ok(Some(e)) => Ok(e.is_dir),
            Err(FatError::NotLoaded(lba)) => Err(FsError::NotLoaded(lba)),
            _ => Ok(false),
        }
    }
}

} // verus!
