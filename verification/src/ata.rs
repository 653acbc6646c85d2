//! ATA disks in programmed I/O mode: the sector transfers as a state machine.
//!
//! One 512-byte sector moves at a time, addressed by a 28-bit logical block address. The driver
//! of a [`Transfer`] performs the port accesses and hands in each status byte that it reads; the
//! transfer says what to do next. Every wait is bounded.

use vstd::prelude::*;

use crate::bytes;

verus! {

/// A disk sector is 512 bytes.
pub const SECTOR_SIZE: usize = 512;

/// The first command-block port of the primary bus.
pub const PRIMARY_IO: u16 = 0x1F0;

/// The control port of the primary bus.
pub const PRIMARY_CONTROL: u16 = 0x3F6;

/// The first command-block port of the secondary bus.
pub const SECONDARY_IO: u16 = 0x170;

/// The control port of the secondary bus.
pub const SECONDARY_CONTROL: u16 = 0x376;

/// Status bit: an error occurred.
pub const ST_ERR: u8 = 0x01;

/// Status bit: a word can be transferred.
pub const ST_DRQ: u8 = 0x08;

/// Status bit: the drive is busy and the other bits mean nothing.
pub const ST_BSY: u8 = 0x80;

/// Reads sectors.
pub const CMD_READ_SECTORS: u8 = 0x20;

/// Writes sectors.
pub const CMD_WRITE_SECTORS: u8 = 0x30;

/// Commits the drive's write cache to the media.
pub const CMD_CACHE_FLUSH: u8 = 0xE7;

/// Device-control bit that keeps the drive from raising interrupts.
pub const DEV_CTRL_NIEN: u8 = 0x02;

/// Drive-select byte of a master in LBA mode.
pub const DRIVE_LBA_MASTER: u8 = 0xE0;

/// Drive-select byte of a slave in LBA mode.
pub const DRIVE_LBA_SLAVE: u8 = 0xF0;

/// How often a status register is read before the drive is given up.
pub const POLL_LIMIT: u32 = 1_000_000;

/// Which drive an operation targets.
#[derive(Debug, Clone, Copy, PartialEq, Eq, Structural)]
pub enum Drive {
    /// The boot disk.
    PrimaryMaster,
    /// The scratch disk for write experiments.
    PrimarySlave,
    /// The disk with the FAT volume.
    SecondaryMaster,
}

/// What can go wrong with a transfer.
#[derive(Debug, Clone, Copy, PartialEq, Eq, Structural)]
pub enum AtaError {
    /// The drive did not reach the expected state in time.
    Timeout,
    /// The drive reported an error.
    DriveError,
}

/// The drive-select byte of a drive, without address bits.
pub open spec fn select_byte(drive: Drive) -> u8 {
    match drive {
        Drive::PrimaryMaster => DRIVE_LBA_MASTER,
        Drive::PrimarySlave => DRIVE_LBA_SLAVE,
        Drive::SecondaryMaster => DRIVE_LBA_MASTER,
    }
}

/// The first command-block port of a drive's bus.
pub open spec fn bus_of(drive: Drive) -> (u16, u16) {
    match drive {
        Drive::PrimaryMaster => (PRIMARY_IO, PRIMARY_CONTROL),
        Drive::PrimarySlave => (PRIMARY_IO, PRIMARY_CONTROL),
        Drive::SecondaryMaster => (SECONDARY_IO, SECONDARY_CONTROL),
    }
}

impl Drive {
    /// The drive-select byte, without address bits.
    pub fn select_base(self) -> (b: u8)
        ensures
            b == select_byte(self),
    {
        match self {
            Drive::PrimaryMaster => DRIVE_LBA_MASTER,
            Drive::PrimarySlave => DRIVE_LBA_SLAVE,
            Drive::SecondaryMaster => DRIVE_LBA_MASTER,
        }
    }

    /// The first command-block port and the control port of the drive's bus.
    pub fn ports(self) -> (p: (u16, u16))
        ensures
            p == bus_of(self),
    {
        match self {
            Drive::PrimaryMaster => (PRIMARY_IO, PRIMARY_CONTROL),
            Drive::PrimarySlave => (PRIMARY_IO, PRIMARY_CONTROL),
            Drive::SecondaryMaster => (SECONDARY_IO, SECONDARY_CONTROL),
        }
    }
}

/// The registers that start a command on one sector.
#[derive(Debug, Clone, Copy, PartialEq, Eq, Structural)]
pub struct Command {
    /// For the control port.
    pub control: u8,
    /// Drive select, with bits 24 to 27 of the address.
    pub select: u8,
    pub sector_count: u8,
    pub lba_low: u8,
    pub lba_mid: u8,
    pub lba_high: u8,
    pub command: u8,
}

/// The registers that start `command` on sector `lba` of a drive.
pub open spec fn command_for(drive: Drive, lba: u32, command: u8) -> Command {
    Command {
        control: DEV_CTRL_NIEN,
        select: (select_byte(drive) + lba / 0x100_0000 % 16) as u8,
        sector_count: 1,
        lba_low: (lba % 0x100) as u8,
        lba_mid: (lba / 0x100 % 0x100) as u8,
        lba_high: (lba / 0x1_0000 % 0x100) as u8,
        command,
    }
}

/// Builds the registers that start `command` on sector `lba` of a drive.
pub fn issue_command(drive: Drive, lba: u32, command: u8) -> (c: Command)
    ensures
        c == command_for(drive, lba, command),
{
    Command {
        control: DEV_CTRL_NIEN,
        select: drive.select_base() + (lba / 0x100_0000 % 16) as u8,
        sector_count: 1,
        lba_low: (lba % 0x100) as u8,
        lba_mid: (lba / 0x100 % 0x100) as u8,
        lba_high: (lba / 0x1_0000 % 0x100) as u8,
        command,
    }
}

/// The state of the drive that is waited for.
#[derive(Debug, Clone, Copy, PartialEq, Eq, Structural)]
pub enum Await {
    /// Not busy; errors mean nothing yet.
    Idle,
    /// Not busy, after a command that transfers nothing.
    Ready,
    /// Not busy, with a word to transfer.
    Data,
}

/// What a status byte means for a wait: the end of it, or `None` to look again. An error bit
/// counts at once where data is awaited, and only from an idle drive elsewhere.
pub open spec fn status_ends(a: Await, status: u8) -> Option<Result<(), AtaError>> {
    match a {
        Await::Idle => if status & ST_BSY == 0 {
            Some(Ok(()))
        } else {
            None
        },
        Await::Ready => if status & ST_BSY == 0 {
            if status & ST_ERR != 0 {
                Some(Err(AtaError::DriveError))
            } else {
                Some(Ok(()))
            }
        } else {
            None
        },
        Await::Data => if status & ST_ERR != 0 {
            Some(Err(AtaError::DriveError))
        } else if status & ST_BSY == 0 && status & ST_DRQ != 0 {
            Some(Ok(()))
        } else {
            None
        },
    }
}

/// What the status byte read after `polls` others means for a wait, which times out at
/// [`POLL_LIMIT`].
pub open spec fn polled(a: Await, status: u8, polls: u32) -> Option<Result<(), AtaError>> {
    match status_ends(a, status) {
        Some(r) => Some(r),
        None => if polls + 1 >= POLL_LIMIT {
            Some(Err(AtaError::Timeout))
        } else {
            None
        },
    }
}

/// Judges the status byte read after `polls` others.
pub fn poll_status(a: Await, status: u8, polls: u32) -> (r: Option<Result<(), AtaError>>)
    ensures
        r == polled(a, status, polls),
{
    let ended: Option<Result<(), AtaError>> = match a {
        Await::Idle => if status & ST_BSY == 0 {
            Some(Ok(()))
        } else {
            None
        },
        Await::Ready => if status & ST_BSY == 0 {
            if status & ST_ERR != 0 {
                Some(Err(AtaError::DriveError))
            } else {
                Some(Ok(()))
            }
        } else {
            None
        },
        Await::Data => if status & ST_ERR != 0 {
            Some(Err(AtaError::DriveError))
        } else if status & ST_BSY == 0 && status & ST_DRQ != 0 {
            Some(Ok(()))
        } else {
            None
        },
    };
    match ended {
        Some(r) => Some(r),
        None => if polls >= POLL_LIMIT - 1 {
            Some(Err(AtaError::Timeout))
        } else {
            None
        },
    }
}

/// Which way a sector moves.
#[derive(Debug, Clone, Copy, PartialEq, Eq, Structural)]
pub enum Direction {
    Read,
    Write,
}

/// How far a transfer has come.
#[derive(Debug, Clone, Copy, PartialEq, Eq, Structural)]
pub enum Stage {
    /// The drive must become idle before it takes a command.
    Starting,
    /// The command has been issued and the drive must ask for data.
    Waiting,
    /// The sector has been written and the drive must finish with it.
    Committing,
    /// The flush has been issued and must finish.
    Flushing,
    /// Nothing is left to do.
    Over,
}

/// The transfer of one sector.
#[derive(Debug, Clone, Copy, PartialEq, Eq, Structural)]
pub struct Transfer {
    pub drive: Drive,
    pub lba: u32,
    pub direction: Direction,
    pub stage: Stage,
    /// How many status bytes have been read in this stage.
    pub polls: u32,
}

/// What the driver of a transfer does next.
#[derive(Debug, Clone, Copy, PartialEq, Eq)]
pub enum Action {
    /// Read the status register and hand it in.
    ReadStatus,
    /// Write these registers, with the pauses that a selection and a command need, then read the
    /// status.
    Issue(Command),
    /// Read the sector's 256 words; the transfer is over.
    ReadSector,
    /// Write the sector's 256 words, then read the status.
    WriteSector,
    /// Issue [`CMD_CACHE_FLUSH`] and pause, then read the status.
    FlushCache,
    /// The transfer is over with this outcome.
    Finish(Result<(), AtaError>),
}

/// The transfer of sector `lba`, not yet begun.
pub open spec fn fresh_transfer(drive: Drive, lba: u32, direction: Direction) -> Transfer {
    Transfer { drive, lba, direction, stage: Stage::Starting, polls: 0 }
}

/// The command of a direction.
pub open spec fn command_of(direction: Direction) -> u8 {
    match direction {
        Direction::Read => CMD_READ_SECTORS,
        Direction::Write => CMD_WRITE_SECTORS,
    }
}

/// What is awaited in a stage.
pub open spec fn awaited(stage: Stage) -> Await {
    match stage {
        Stage::Starting => Await::Idle,
        Stage::Waiting => Await::Data,
        _ => Await::Ready,
    }
}

/// What a transfer does when the state that it awaited is reached.
pub open spec fn advanced(t: Transfer) -> (Transfer, Action) {
    match t.stage {
        Stage::Starting => (
            Transfer { stage: Stage::Waiting, polls: 0, ..t },
            Action::Issue(command_for(t.drive, t.lba, command_of(t.direction))),
        ),
        Stage::Waiting => match t.direction {
            Direction::Read => (
                Transfer { stage: Stage::Over, polls: 0, ..t },
                Action::ReadSector,
            ),
            Direction::Write => (
                Transfer { stage: Stage::Committing, polls: 0, ..t },
                Action::WriteSector,
            ),
        },
        Stage::Committing => (
            Transfer { stage: Stage::Flushing, polls: 0, ..t },
            Action::FlushCache,
        ),
        _ => (Transfer { stage: Stage::Over, polls: 0, ..t }, Action::Finish(Ok(()))),
    }
}

/// What a transfer does on a status byte.
pub open spec fn on_status(t: Transfer, status: u8) -> (Transfer, Action) {
    match polled(awaited(t.stage), status, t.polls) {
        Some(Ok(())) => advanced(t),
        Some(Err(e)) => (
            Transfer { stage: Stage::Over, polls: 0, ..t },
            Action::Finish(Err(e)),
        ),
        None => (Transfer { polls: (t.polls + 1) as u32, ..t }, Action::ReadStatus),
    }
}

/// Begins to read sector `lba`. The first thing to do is to read the status.
pub fn read_sector_from(drive: Drive, lba: u32) -> (t: Transfer)
    ensures
        t == fresh_transfer(drive, lba, Direction::Read),
{
    Transfer { drive, lba, direction: Direction::Read, stage: Stage::Starting, polls: 0 }
}

/// Begins to read sector `lba` of the boot disk.
pub fn read_sector(lba: u32) -> (t: Transfer)
    ensures
        t == fresh_transfer(Drive::PrimaryMaster, lba, Direction::Read),
{
    read_sector_from(Drive::PrimaryMaster, lba)
}

/// Begins to write sector `lba`. The first thing to do is to read the status.
pub fn write_sector(drive: Drive, lba: u32) -> (t: Transfer)
    ensures
        t == fresh_transfer(drive, lba, Direction::Write),
{
    Transfer { drive, lba, direction: Direction::Write, stage: Stage::Starting, polls: 0 }
}

/// Advances a transfer by the status byte just read.
pub fn step(t: &mut Transfer, status: u8) -> (action: Action)
    ensures
        (*final(t), action) == on_status(*old(t), status),
{
    let a: Await = match t.stage {
        Stage::Starting => Await::Idle,
        Stage::Waiting => Await::Data,
        _ => Await::Ready,
    };
    match poll_status(a, status, t.polls) {
        Some(Ok(())) => {
            t.polls = 0;
            match t.stage {
                Stage::Starting => {
                    t.stage = Stage::Waiting;
                    let command: u8 = match t.direction {
                        Direction::Read => CMD_READ_SECTORS,
                        Direction::Write => CMD_WRITE_SECTORS,
                    };
                    Action::Issue(issue_command(t.drive, t.lba, command))
                },
                Stage::Waiting => match t.direction {
                    Direction::Read => {
                        t.stage = Stage::Over;
                        Action::ReadSector
                    },
                    Direction::Write => {
                        t.stage = Stage::Committing;
                        Action::WriteSector
                    },
                },
                Stage::Committing => {
                    t.stage = Stage::Flushing;
                    Action::FlushCache
                },
                _ => {
                    t.stage = Stage::Over;
                    Action::Finish(Ok(()))
                },
            }
        },
        Some(Err(e)) => {
            t.stage = Stage::Over;
            t.polls = 0;
            Action::Finish(Err(e))
        },
        None => {
            t.polls = t.polls + 1;
            Action::ReadStatus
        },
    }
}

/// The bytes that words carry, low byte first.
pub open spec fn bytes_of(words: Seq<u16>) -> Seq<u8> {
    Seq::new(
        words.len() * 2,
        |i: int|
            if i % 2 == 0 {
                (words[i / 2] % 256) as u8
            } else {
                (words[i / 2] / 256) as u8
            },
    )
}

/// The words that carry bytes, low byte first.
pub open spec fn words_of(data: Seq<u8>) -> Seq<u16> {
    Seq::new(data.len() / 2, |i: int| bytes::le16(data, i * 2))
}

/// Unpacks the words of a sector.
pub fn unpack(words: &Vec<u16>) -> (data: Vec<u8>)
    ensures
        data@ == bytes_of(words@),
{
    let mut data: Vec<u8> = Vec::new();
    let mut i: usize = 0;
    while i < words.len()
        invariant
            i <= words@.len(),
            data@.len() == i * 2,
            forall|j: int| 0 <= j < i * 2 ==> data@[j] == #[trigger] bytes_of(words@)[j],
        decreases words@.len() - i,
    {
        data.push((words[i] % 256) as u8);
        data.push((words[i] / 256) as u8);
        i = i + 1;
    }
    assert(data@ =~= bytes_of(words@));
    data
}

/// Packs the bytes of a sector into words.
pub fn pack(data: &[u8]) -> (words: Vec<u16>)
    ensures
        words@ == words_of(data@),
{
    let mut words: Vec<u16> = Vec::new();
    let n: usize = data.len() / 2;
    let mut i: usize = 0;
    while i < n
        invariant
            i <= n,
            n == data@.len() / 2,
            words@ =~= words_of(data@).take(i as int),
        decreases n - i,
    {
        assert(i * 2 + 2 <= data.len());
        words.push(bytes::read_le16(data, i * 2));
        i = i + 1;
    }
    assert(words@ =~= words_of(data@));
    words
}

/// A sector that is packed into words and unpacked again is the same sector.
pub proof fn packing_round_trips(data: Seq<u8>)
    requires
        data.len() % 2 == 0,
    ensures
        bytes_of(words_of(data)) == data,
{
    let words = words_of(data);
    assert forall|i: int| 0 <= i < data.len() implies bytes_of(words)[i] == data[i] by {
        let k = i / 2;
        assert(words[k] == bytes::le16(data, k * 2));
    }
    assert(bytes_of(words) =~= data);
}

/// The registers tell every drive on a bus and every 28-bit address apart.
pub proof fn registers_identify_the_sector(d1: Drive, l1: u32, d2: Drive, l2: u32, command: u8)
    requires
        l1 < 0x1000_0000,
        l2 < 0x1000_0000,
        bus_of(d1) == bus_of(d2),
        command_for(d1, l1, command) == command_for(d2, l2, command),
    ensures
        d1 == d2,
        l1 == l2,
{
    assert(l1 == l1 % 0x100 + l1 / 0x100 % 0x100 * 0x100 + l1 / 0x1_0000 % 0x100 * 0x1_0000 + l1
        / 0x100_0000 * 0x100_0000);
    assert(l2 == l2 % 0x100 + l2 / 0x100 % 0x100 * 0x100 + l2 / 0x1_0000 % 0x100 * 0x1_0000 + l2
        / 0x100_0000 * 0x100_0000);
}

/// A write is not over before the cache has been flushed: from a fresh transfer on, no status
/// byte leads to a successful end except in the flushing stage.
pub proof fn success_comes_after_the_flush(t: Transfer, status: u8)
    requires
        t.direction == Direction::Write,
        on_status(t, status).1 == Action::Finish(Ok::<(), AtaError>(())),
    ensures
        t.stage == Stage::Flushing || t.stage == Stage::Over,
{
}

/// Whether a status byte says that the drive is busy.
pub open spec fn is_busy(status: u8) -> bool {
    status >= 128
}

/// Whether a status byte says that the drive wants to exchange data.
pub open spec fn wants_data(status: u8) -> bool {
    status / 8 % 2 == 1
}

/// Whether a status byte reports an error.
pub open spec fn reports_error(status: u8) -> bool {
    status % 2 == 1
}

proof fn lemma_status(status: u8)
    ensures
        status & 0x80 != 0 <==> is_busy(status),
        status & 0x08 != 0 <==> wants_data(status),
        status & 0x01 != 0 <==> reports_error(status),
{
    assert((status & 0x80 != 0) == (status >= 128)) by (bit_vector);
    assert((status & 0x08 != 0) == (status / 8 % 2 == 1)) by (bit_vector);
    assert((status & 0x01 != 0) == (status % 2 == 1)) by (bit_vector);
}

/// A transfer goes on when the drive is ready for it: an idle drive gets the command, one that
/// wants data gets or gives the sector, one that has taken it flushes, and one that has flushed
/// is done. The sector that is asked for is the transfer's, and one sector only.
pub proof fn transfer_goes_on_when_the_drive_is_ready(t: Transfer, status: u8)
    requires
        !is_busy(status),
        t.stage is Starting || !reports_error(status),
        t.stage is Waiting ==> wants_data(status),
        !(t.stage is Over),
    ensures
        ({
            let (after, action) = on_status(t, status);
            &&& after.drive == t.drive && after.lba == t.lba && after.direction == t.direction
            &&& after.polls == 0
            &&& t.stage is Starting ==> {
                &&& after.stage is Waiting
                &&& action matches Action::Issue(c)
                &&& c.control == 2 && c.sector_count == 1
                &&& c.command == if t.direction is Read { 0x20u8 } else { 0x30u8 }
                &&& t.lba < 0x1000_0000 ==> c.lba_low + c.lba_mid * 0x100 + c.lba_high * 0x1_0000 + (
                c.select % 16) * 0x100_0000 == t.lba
                &&& c.select / 16 == if t.drive is PrimarySlave { 15u8 } else { 14u8 }
            }
            &&& t.stage is Waiting && t.direction is Read ==> after.stage is Over && action
                == Action::ReadSector
            &&& t.stage is Waiting && t.direction is Write ==> after.stage is Committing && action
                == Action::WriteSector
            &&& t.stage is Committing ==> after.stage is Flushing && action == Action::FlushCache
            &&& t.stage is Flushing ==> after.stage is Over && action == Action::Finish(Ok(()))
        }),
{
    lemma_status(status);
}

/// A drive that is not ready is asked again, a million times at most; then, or when it reports an
/// error, the transfer fails.
pub proof fn transfer_waits_or_fails(t: Transfer, status: u8)
    requires
        !(t.stage is Over),
        t.polls < 1_000_000,
    ensures
        ({
            let (after, action) = on_status(t, status);
            let failed = reports_error(status) && (t.stage is Waiting || (!(t.stage is Starting)
                && !is_busy(status)));
            let waits = if t.stage is Waiting {
                !reports_error(status) && (is_busy(status) || !wants_data(status))
            } else {
                is_busy(status)
            };
            &&& failed ==> after.stage is Over && action == Action::Finish(
                Err(AtaError::DriveError),
            )
            &&& waits && t.polls < 999_999 ==> action == Action::ReadStatus && after == (Transfer {
                polls: (t.polls + 1) as u32,
                ..t
            })
            &&& waits && t.polls == 999_999 ==> after.stage is Over && action == Action::Finish(
                Err(AtaError::Timeout),
            )
        }),
{
    lemma_status(status);
}

/// A word holds two bytes of the sector, the first in its low half.
pub proof fn words_hold_the_bytes(words: Seq<u16>, i: int)
    requires
        0 <= i < words.len(),
    ensures
        bytes_of(words).len() == 2 * words.len(),
        bytes_of(words)[2 * i] + 256 * bytes_of(words)[2 * i + 1] == words[i],
{
    assert((2 * i) / 2 == i && (2 * i) % 2 == 0);
    assert((2 * i + 1) / 2 == i && (2 * i + 1) % 2 == 1);
}

} // verus!
