//! The geometry of a volume.

use vstd::prelude::*;

use crate::ata::AtaError;
use crate::bytes;
use crate::bytes::{read_le16, read_le32};
use crate::disk::DiskError;
use crate::fs::FsError;

verus! {

/// The only sector size supported.
pub const SECTOR_SIZE: usize = 512;

/// What can go wrong with a volume.
#[derive(Debug, Clone, Copy, PartialEq, Eq, Structural)]
pub enum FatError {
    /// The device failed.
    Io(AtaError),
    /// The boot sector does not end with the boot signature.
    BadSignature,
    /// The volume's sectors are not 512 bytes long.
    UnsupportedSectorSize(u16),
    /// The number of clusters is not that of a FAT16 volume.
    NotFat16,
    /// No entry has the name.
    NotFound,
    /// The name is that of a subdirectory.
    IsDirectory,
    /// The chain of clusters makes no sense.
    BadChain,
    /// No cluster is free.
    NoSpace,
    /// No directory entry is free.
    DirFull,
    /// The name does not fit the 8.3 form.
    InvalidName,
    /// A sector has not been fetched yet.
    NotLoaded(u32),
}

/// The filesystem error that a volume's error amounts to: a missing name, a directory and a
/// sector to fetch have one of their own, and every other failure is an error of the device.
pub open spec fn fs_error(e: FatError) -> FsError {
    match e {
        FatError::NotFound => FsError::NotFound,
        FatError::IsDirectory => FsError::IsDir,
        FatError::NotLoaded(lba) => FsError::NotLoaded(lba),
        _ => FsError::Io,
    }
}

impl From<FatError> for FsError {
    fn from(e: FatError) -> FsError {
        match e {
            FatError::NotFound => FsError::NotFound,
            FatError::IsDirectory => FsError::IsDir,
            FatError::NotLoaded(lba) => FsError::NotLoaded(lba),
            _ => FsError::Io,
        }
    }
}

impl vstd::std_specs::convert::FromSpecImpl<FatError> for FsError {
    open spec fn obeys_from_spec() -> bool {
        true
    }

    open spec fn from_spec(e: FatError) -> FsError {
        fs_error(e)
    }
}

/// The volume's error that a sector's error amounts to.
pub open spec fn sector_error(e: DiskError) -> FatError {
    match e {
        DiskError::NotLoaded(lba) => FatError::NotLoaded(lba),
        DiskError::Ata(e) => FatError::Io(e),
    }
}

impl From<DiskError> for FatError {
    fn from(e: DiskError) -> FatError {
        match e {
            DiskError::NotLoaded(lba) => FatError::NotLoaded(lba),
            DiskError::Ata(e) => FatError::Io(e),
        }
    }
}

impl vstd::std_specs::convert::FromSpecImpl<DiskError> for FatError {
    open spec fn obeys_from_spec() -> bool {
        true
    }

    open spec fn from_spec(e: DiskError) -> FatError {
        sector_error(e)
    }
}

impl From<AtaError> for FatError {
    fn from(e: AtaError) -> FatError {
        FatError::Io(e)
    }
}

impl vstd::std_specs::convert::FromSpecImpl<AtaError> for FatError {
    open spec fn obeys_from_spec() -> bool {
        true
    }

    open spec fn from_spec(e: AtaError) -> FatError {
        FatError::Io(e)
    }
}

/// The geometry that a boot sector describes.
#[derive(Debug, Clone, Copy, PartialEq, Eq, Structural)]
pub struct Bpb {
    pub bytes_per_sector: u16,
    pub sectors_per_cluster: u8,
    /// Sectors before the first allocation table.
    pub reserved_sectors: u16,
    /// Copies of the allocation table.
    pub num_fats: u8,
    /// Entries of the root directory.
    pub root_entry_count: u16,
    pub total_sectors: u32,
    /// Sectors of one copy of the allocation table.
    pub fat_size_sectors: u32,
}

/// The sectors of the root directory, the last of which may be partly used.
pub open spec fn root_sectors(b: Bpb) -> int {
    (b.root_entry_count * 32 + b.bytes_per_sector - 1) / b.bytes_per_sector as int
}

/// The first sector of the root directory.
pub open spec fn root_start(b: Bpb) -> int {
    b.reserved_sectors + b.num_fats * b.fat_size_sectors
}

/// The first sector of the data.
pub open spec fn data_start(b: Bpb) -> int {
    root_start(b) + root_sectors(b)
}

/// The sectors of a cluster; at least one for counting.
pub open spec fn counted_cluster_sectors(b: Bpb) -> int {
    if b.sectors_per_cluster == 0 {
        1
    } else {
        b.sectors_per_cluster as int
    }
}

/// The number of clusters.
pub open spec fn clusters(b: Bpb) -> int {
    if b.total_sectors <= data_start(b) {
        0
    } else {
        (b.total_sectors - data_start(b)) / counted_cluster_sectors(b)
    }
}

/// The geometry of a FAT16 volume with the sectors we support.
pub open spec fn is_fat16(b: Bpb) -> bool {
    &&& b.bytes_per_sector == SECTOR_SIZE
    &&& b.fat_size_sectors <= 0xFFFF
    &&& 4085 <= clusters(b) < 65525
}

/// The fields of a boot sector.
pub open spec fn fields(s: Seq<u8>) -> Bpb {
    let small = bytes::le16(s, 0x13);
    Bpb {
        bytes_per_sector: bytes::le16(s, 0x0B),
        sectors_per_cluster: s[0x0D],
        reserved_sectors: bytes::le16(s, 0x0E),
        num_fats: s[0x10],
        root_entry_count: bytes::le16(s, 0x11),
        total_sectors: if small != 0 {
            small as u32
        } else {
            bytes::le32(s, 0x20)
        },
        fat_size_sectors: bytes::le16(s, 0x16) as u32,
    }
}

/// The geometry that a boot sector describes, or what is wrong with it.
pub open spec fn parsed(s: Seq<u8>) -> Result<Bpb, FatError> {
    let b = fields(s);
    if s[510] != 0x55 || s[511] != 0xAA {
        Err(FatError::BadSignature)
    } else if b.bytes_per_sector != SECTOR_SIZE {
        Err(FatError::UnsupportedSectorSize(b.bytes_per_sector))
    } else if clusters(b) < 4085 || clusters(b) >= 65525 {
        Err(FatError::NotFat16)
    } else {
        Ok(b)
    }
}

proof fn lemma_sizes(b: Bpb)
    requires
        b.fat_size_sectors <= 0xFFFF,
    ensures
        0 <= b.num_fats * b.fat_size_sectors <= 255 * 0xFFFF,
{
    assert(0 <= b.num_fats * b.fat_size_sectors <= 255 * 0xFFFF) by (nonlinear_arith)
        requires
            b.num_fats <= 255,
            b.fat_size_sectors <= 0xFFFF,
    ;
}

/// The regions of a volume come in order and lie within the reach of sector numbers.
pub proof fn regions_are_ordered(b: Bpb)
    requires
        b.bytes_per_sector == SECTOR_SIZE,
        b.fat_size_sectors <= 0xFFFF,
    ensures
        b.reserved_sectors <= root_start(b) <= data_start(b) <= 0x102_0000,
        root_sectors(b) * 16 >= b.root_entry_count,
        root_sectors(b) <= 4096,
{
    lemma_sizes(b);
}

impl Bpb {
    /// Parses a boot sector.
    pub fn parse(sector: &[u8]) -> (r: Result<Bpb, FatError>)
        requires
            sector@.len() >= SECTOR_SIZE,
        ensures
            r == parsed(sector@),
            r matches Ok(b) ==> is_fat16(b),
    {
        if sector[510] != 0x55 || sector[511] != 0xAA {
            return Err(FatError::BadSignature);
        }
        let bytes_per_sector: u16 = read_le16(sector, 0x0B);
        if bytes_per_sector as usize != SECTOR_SIZE {
            return Err(FatError::UnsupportedSectorSize(bytes_per_sector));
        }
        let small: u16 = read_le16(sector, 0x13);
        let large: u32 = read_le32(sector, 0x20);
        let b = Bpb {
            bytes_per_sector,
            sectors_per_cluster: sector[0x0D],
            reserved_sectors: read_le16(sector, 0x0E),
            num_fats: sector[0x10],
            root_entry_count: read_le16(sector, 0x11),
            total_sectors: if small != 0 {
                small as u32
            } else {
                large
            },
            fat_size_sectors: read_le16(sector, 0x16) as u32,
        };
        let count: u32 = b.count_of_clusters();
        if count < 4085 || count >= 65525 {
            return Err(FatError::NotFat16);
        }
        Ok(b)
    }

    /// What holds of the geometry of a volume whose sectors we can number.
    pub open spec fn ok(&self) -> bool {
        self.bytes_per_sector == SECTOR_SIZE && self.fat_size_sectors <= 0xFFFF
    }

    /// The sectors of the root directory.
    pub fn root_dir_sectors(&self) -> (n: u32)
        requires
            self.bytes_per_sector == SECTOR_SIZE,
        ensures
            n == root_sectors(*self),
    {
        let size: u32 = self.root_entry_count as u32 * 32;
        (size + self.bytes_per_sector as u32 - 1) / self.bytes_per_sector as u32
    }

    /// The first sector of the allocation tables.
    pub fn fat_start_sector(&self) -> (lba: u32)
        ensures
            lba == self.reserved_sectors,
    {
        self.reserved_sectors as u32
    }

    /// The first sector of the root directory.
    pub fn root_dir_start_sector(&self) -> (lba: u32)
        requires
            self.ok(),
        ensures
            lba == root_start(*self),
    {
        proof {
            lemma_sizes(*self);
        }
        self.reserved_sectors as u32 + self.num_fats as u32 * self.fat_size_sectors
    }

    /// The first sector of the data.
    pub fn data_start_sector(&self) -> (lba: u32)
        requires
            self.ok(),
        ensures
            lba == data_start(*self),
            lba <= 0x102_0000,
    {
        proof {
            regions_are_ordered(*self);
        }
        self.root_dir_start_sector() + self.root_dir_sectors()
    }

    /// The number of clusters; none if the regions before the data do not fit the volume.
    pub fn count_of_clusters(&self) -> (n: u32)
        requires
            self.ok(),
        ensures
            n == clusters(*self),
    {
        let start: u32 = self.data_start_sector();
        let per_cluster: u32 = if self.sectors_per_cluster == 0 {
            1
        } else {
            self.sectors_per_cluster as u32
        };
        if self.total_sectors <= start {
            return 0;
        }
        (self.total_sectors - start) / per_cluster
    }
}

} // verus!
