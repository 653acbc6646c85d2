use aether::ata;
use aether::ata::{Action, AtaError, Await, Drive};
use aether::disk::{Disk, DiskError, Sector};
use aether::fat::bpb::{Bpb, FatError};
use aether::fat::chain;
use aether::fat::dir;
use aether::fat::name;
use aether::fat::table;
use aether::fat::volume::{read_bpb, Fat};
use aether::fs;
use aether::fs::ram::RamFs;
use aether::fs::{FileSystem, FsError, Vfs};

// Transfers.

#[test]
fn sector_is_identified_by_the_registers() {
    let c = ata::issue_command(Drive::PrimarySlave, 0x0A1B_2C3D, ata::CMD_READ_SECTORS);
    assert_eq!((c.lba_low, c.lba_mid, c.lba_high), (0x3D, 0x2C, 0x1B));
    assert_eq!(c.select, 0xFA);
    assert_eq!((c.sector_count, c.command, c.control), (1, 0x20, 2));
    assert_eq!(Drive::PrimaryMaster.ports(), (0x1F0, 0x3F6));
    assert_eq!(Drive::SecondaryMaster.ports(), (0x170, 0x376));
    assert_eq!(Drive::SecondaryMaster.select_base(), 0xE0);
}

#[test]
fn sector_is_read_once_the_drive_asks() {
    let mut t = ata::read_sector(7);
    assert_eq!(ata::step(&mut t, 0x80), Action::ReadStatus);
    assert!(matches!(ata::step(&mut t, 0x40), Action::Issue(c) if c.command == 0x20 && c.lba_low == 7));
    assert_eq!(ata::step(&mut t, 0x80), Action::ReadStatus);
    assert_eq!(ata::step(&mut t, 0x40), Action::ReadStatus);
    assert_eq!(ata::step(&mut t, 0x48), Action::ReadSector);
}

#[test]
fn write_succeeds_only_after_the_flush() {
    let mut t = ata::write_sector(Drive::SecondaryMaster, 9);
    assert!(matches!(ata::step(&mut t, 0), Action::Issue(c) if c.command == 0x30));
    assert_eq!(ata::step(&mut t, 0x08), Action::WriteSector);
    assert_eq!(ata::step(&mut t, 0x80), Action::ReadStatus);
    assert_eq!(ata::step(&mut t, 0x40), Action::FlushCache);
    assert_eq!(ata::step(&mut t, 0x80), Action::ReadStatus);
    assert_eq!(ata::step(&mut t, 0x40), Action::Finish(Ok(())));
}

#[test]
fn drive_that_reports_an_error_fails_the_transfer() {
    let mut t = ata::read_sector_from(Drive::PrimarySlave, 1);
    ata::step(&mut t, 0);
    assert_eq!(ata::step(&mut t, 0x01), Action::Finish(Err(AtaError::DriveError)));
    assert_eq!(ata::poll_status(Await::Ready, 0x41, 0), Some(Err(AtaError::DriveError)));
    assert_eq!(ata::poll_status(Await::Idle, 0x41, 0), Some(Ok(())));
}

#[test]
fn silent_drive_times_out() {
    assert_eq!(ata::poll_status(Await::Ready, 0x80, ata::POLL_LIMIT - 2), None);
    assert_eq!(
        ata::poll_status(Await::Ready, 0x80, ata::POLL_LIMIT - 1),
        Some(Err(AtaError::Timeout))
    );
    let mut t = ata::read_sector(0);
    let mut polls = 1;
    while ata::step(&mut t, 0x80) == Action::ReadStatus {
        polls += 1;
    }
    assert_eq!(polls, ata::POLL_LIMIT);
}

#[test]
fn words_are_packed_low_byte_first() {
    let data = vec![0x34u8, 0x12, 0x78, 0x56];
    let words = ata::pack(&data);
    assert_eq!(words, vec![0x1234, 0x5678]);
    assert_eq!(ata::unpack(&words), data);
}

// The disk.

#[test]
fn written_sector_is_read_and_noted() {
    let mut disk = Disk::new();
    assert_eq!(disk.read(3), Err(DiskError::NotLoaded(3)));
    disk.load(3, Sector::Good(vec![1; 512]));
    assert_eq!(disk.read(3), Ok(vec![1; 512]));
    assert_eq!(disk.write(3, vec![2; 512]), Ok(()));
    assert_eq!(disk.write(4, vec![3; 512]), Ok(()));
    assert_eq!(disk.read(3), Ok(vec![2; 512]));
    assert_eq!(disk.take_log(), vec![(3, vec![2; 512]), (4, vec![3; 512])]);
    assert_eq!(disk.take_log(), vec![]);
}

#[test]
fn failing_sector_is_reported() {
    let mut disk = Disk::new();
    disk.load(5, Sector::Bad(AtaError::Timeout));
    assert_eq!(disk.read(5), Err(DiskError::Ata(AtaError::Timeout)));
    assert_eq!(disk.write(5, vec![0; 512]), Err(DiskError::Ata(AtaError::Timeout)));
    assert_eq!(disk.take_log(), vec![]);
}

// Geometry.

const TOTAL: u32 = 5000;
const FAT_SECTORS: u16 = 32;

fn boot_sector() -> Vec<u8> {
    let mut s = vec![0u8; 512];
    s[0x0B..0x0D].copy_from_slice(&512u16.to_le_bytes());
    s[0x0D] = 1;
    s[0x0E..0x10].copy_from_slice(&1u16.to_le_bytes());
    s[0x10] = 2;
    s[0x11..0x13].copy_from_slice(&32u16.to_le_bytes());
    s[0x13..0x15].copy_from_slice(&(TOTAL as u16).to_le_bytes());
    s[0x16..0x18].copy_from_slice(&FAT_SECTORS.to_le_bytes());
    s[510] = 0x55;
    s[511] = 0xAA;
    s
}

#[test]
fn geometry_is_parsed() {
    let b = Bpb::parse(&boot_sector()).unwrap();
    assert_eq!(b.fat_start_sector(), 1);
    assert_eq!(b.root_dir_start_sector(), 65);
    assert_eq!(b.root_dir_sectors(), 2);
    assert_eq!(b.data_start_sector(), 67);
    assert_eq!(b.count_of_clusters(), TOTAL - 67);
    let mut large = boot_sector();
    large[0x13] = 0;
    large[0x14] = 0;
    large[0x20..0x24].copy_from_slice(&6000u32.to_le_bytes());
    assert_eq!(Bpb::parse(&large).unwrap().total_sectors, 6000);
}

#[test]
fn boot_sector_that_is_not_one_is_refused() {
    let mut s = boot_sector();
    s[510] = 0;
    assert_eq!(Bpb::parse(&s), Err(FatError::BadSignature));
    let mut s = boot_sector();
    s[0x0C] = 4;
    assert_eq!(Bpb::parse(&s), Err(FatError::UnsupportedSectorSize(1024)));
    let mut s = boot_sector();
    s[0x0D] = 4;
    assert_eq!(Bpb::parse(&s), Err(FatError::NotFat16));
}

// Names.

fn chars(s: &str) -> Vec<char> {
    s.chars().collect()
}

#[test]
fn short_names_are_stored_and_shown() {
    assert_eq!(name::string_to_short_name("hello.txt").unwrap(), b"HELLO   TXT".to_vec());
    assert_eq!(name::string_to_short_name("A").unwrap(), b"A          ".to_vec());
    assert_eq!(name::short_name_to_string(b"HELLO   TXT"), chars("HELLO.TXT"));
    assert_eq!(name::short_name_to_string(b"KERNEL     "), chars("KERNEL"));
    for bad in ["", ".txt", "toolongname", "a.text", "a b", "a.b.c", "a/b", "x\u{e9}"] {
        assert_eq!(name::string_to_short_name(bad), None, "{}", bad);
    }
    assert!(name::eq_ignore_case(&chars("Hello.TXT"), &chars("hELLO.txt")));
    assert!(!name::eq_ignore_case(&chars("a_"), &chars("a-")));
}

// Volumes.

fn empty_disk() -> Disk {
    let mut disk = Disk::new();
    disk.load(0, Sector::Good(boot_sector()));
    for lba in 1..TOTAL {
        disk.load(lba, Sector::Good(vec![0; 512]));
    }
    disk
}

fn volume() -> Fat {
    match Fat::mount(Drive::SecondaryMaster, empty_disk()) {
        Ok(fat) => fat,
        Err(e) => panic!("{:?}", e),
    }
}

#[test]
fn written_file_is_read_back_from_the_volume() {
    let mut fat = volume();
    assert_eq!(fat.drive(), Drive::SecondaryMaster);
    for size in [0usize, 1, 511, 512, 513, 1500] {
        let data: Vec<u8> = (0..size).map(|i| (i * 7) as u8).collect();
        assert_eq!(fat.write_file("data.bin", &data), Ok(()));
        assert_eq!(fat.read_file("DATA.BIN"), Ok(data));
    }
    assert_eq!(fat.list("/").unwrap(), vec![(String::from("DATA.BIN"), false)]);
}

#[test]
fn other_files_keep_their_contents() {
    let mut fat = volume();
    fat.write_file("a.txt", b"alpha").unwrap();
    fat.write_file("b.txt", &[9; 700]).unwrap();
    fat.write_file("a.txt", &[5; 2000]).unwrap();
    assert_eq!(fat.read_file("a.txt"), Ok(vec![5; 2000]));
    assert_eq!(fat.read_file("b.txt"), Ok(vec![9; 700]));
}

#[test]
fn copies_of_the_table_stay_the_same() {
    let mut fat = volume();
    fat.write_file("a.txt", &[1; 3000]).unwrap();
    for i in 0..FAT_SECTORS as u32 {
        assert_eq!(fat.disk.read(1 + i), fat.disk.read(1 + FAT_SECTORS as u32 + i));
    }
}

#[test]
fn missing_file_is_not_found() {
    let fat = volume();
    assert_eq!(fat.read_file("nothing"), Err(FatError::NotFound));
}

#[test]
fn name_without_a_stored_form_is_refused() {
    let mut fat = volume();
    assert_eq!(fat.write_file("much too long.txt", b"x"), Err(FatError::InvalidName));
}

#[test]
fn directory_is_not_a_file() {
    let mut disk = empty_disk();
    let mut root = vec![0u8; 512];
    root[..11].copy_from_slice(b"SUB        ");
    root[11] = dir::ATTR_DIRECTORY;
    root[32..43].copy_from_slice(b"VOLUME     ");
    root[43] = dir::ATTR_VOLUME_ID;
    root[64] = dir::NAME_DELETED;
    disk.load(65, Sector::Good(root));
    let mut fat = Fat::mount(Drive::SecondaryMaster, disk).ok().unwrap();
    assert_eq!(fat.read_file("sub"), Err(FatError::IsDirectory));
    assert_eq!(fat.write_file("sub", b""), Err(FatError::IsDirectory));
    assert_eq!(fat.list("/").unwrap(), vec![(String::from("SUB"), true)]);
    assert_eq!(fat.is_dir("/sub"), Ok(true));
    assert_eq!(fat.is_dir("/volume"), Ok(false));
    assert_eq!(fat.is_dir("/sub/below"), Ok(false));
    // The deleted entry's slot is the first to be used again.
    assert_eq!(fat.write_file("new", b""), Ok(()));
    assert_eq!(&fat.disk.read(65).unwrap()[64..75], b"NEW        ");
}

#[test]
fn full_directory_is_reported() {
    let mut fat = volume();
    for i in 0..32 {
        assert_eq!(fat.write_file(&format!("f{}", i), b""), Ok(()));
    }
    assert_eq!(fat.write_file("last", b""), Err(FatError::DirFull));
    assert_eq!(fat.write_file("f31", b"again"), Ok(()));
}

#[test]
fn full_volume_gives_its_clusters_back() {
    let mut fat = volume();
    let too_much = vec![1u8; 512 * (TOTAL as usize - 67 + 1)];
    assert_eq!(fat.write_file("big", &too_much), Err(FatError::NoSpace));
    assert_eq!(fat.read_file("big"), Err(FatError::NotFound));
    assert_eq!(fat.write_file("small", b"fits"), Ok(()));
    let b = *fat.bpb();
    assert_eq!(table::next_cluster(&fat.disk, &b, 2), Ok(table::FAT_ENTRY_EOC));
    assert_eq!(table::next_cluster(&fat.disk, &b, 3), Ok(table::FAT_ENTRY_FREE));
}

#[test]
fn broken_chain_is_reported() {
    let mut fat = volume();
    fat.write_file("a", &[1; 1500]).unwrap();
    let b = *fat.bpb();
    assert_eq!(table::next_cluster(&fat.disk, &b, 2), Ok(3));
    table::write_fat_entry(&mut fat.disk, &b, 2, 0).unwrap();
    assert_eq!(fat.read_file("a"), Err(FatError::BadChain));
    assert_eq!(table::write_fat_entry(&mut fat.disk, &b, 2, 2), Ok(()));
    assert_eq!(chain::read_chain(&fat.disk, &b, 2, 600), Ok(vec![1; 600]));
}

#[test]
fn sector_that_cannot_be_read_fails_the_operation() {
    let mut disk = empty_disk();
    disk.load(65, Sector::Bad(AtaError::DriveError));
    let fat = Fat::mount(Drive::SecondaryMaster, disk).ok().unwrap();
    assert_eq!(fat.read_file("a"), Err(FatError::Io(AtaError::DriveError)));
}

#[test]
fn sectors_are_asked_for_one_by_one() {
    let mut full = volume();
    full.write_file("a.txt", &[4; 600]).unwrap();
    let mut fetched: Vec<u32> = Vec::new();
    let data = loop {
        let mut disk = Disk::new();
        for lba in fetched.iter() {
            disk.load(*lba, Sector::Good(full.disk.read(*lba).unwrap()));
        }
        let missing = match Fat::mount(Drive::SecondaryMaster, disk) {
            Err(FatError::NotLoaded(lba)) => lba,
            Err(e) => panic!("{:?}", e),
            Ok(fat) => match fat.read_file("a.txt") {
                Ok(data) => break data,
                Err(FatError::NotLoaded(lba)) => lba,
                Err(e) => panic!("{:?}", e),
            },
        };
        fetched.push(missing);
    };
    assert_eq!(data, vec![4; 600]);
    assert_eq!(fetched, vec![0, 65, 67, 1, 68]);
}

#[test]
fn directory_that_has_not_been_fetched_is_asked_for() {
    let mut disk = Disk::new();
    disk.load(0, Sector::Good(boot_sector()));
    let mut fat = Fat::mount(Drive::SecondaryMaster, disk).ok().unwrap();
    assert_eq!(fat.is_dir("/sub"), Err(FsError::NotLoaded(65)));
    assert_eq!(fat.is_dir("/"), Ok(true));
    let mut root = vec![0u8; 512];
    root[..11].copy_from_slice(b"SUB        ");
    root[11] = dir::ATTR_DIRECTORY;
    fat.disk.load(65, Sector::Good(root));
    assert_eq!(fat.is_dir("/sub"), Ok(true));
    let mut broken = Disk::new();
    broken.load(0, Sector::Good(boot_sector()));
    broken.load(65, Sector::Bad(AtaError::DriveError));
    let fat = Fat::mount(Drive::SecondaryMaster, broken).ok().unwrap();
    assert_eq!(fat.is_dir("/sub"), Ok(false));
}

#[test]
fn geometry_is_read_from_the_disk() {
    assert_eq!(read_bpb(&empty_disk()), Bpb::parse(&boot_sector()));
    assert_eq!(read_bpb(&Disk::new()), Err(FatError::NotLoaded(0)));
}

// Trees.

#[test]
fn tree_keeps_files_and_directories() {
    let mut t = RamFs::new();
    assert_eq!(t.mkdir("/b"), Ok(()));
    assert_eq!(t.mkdir("/b"), Err(FsError::Exists));
    assert_eq!(t.mkdir("/x/y"), Err(FsError::NotFound));
    assert_eq!(t.write("/b/f", b"one"), Ok(()));
    assert_eq!(t.write("/b/f", b"two"), Ok(()));
    assert_eq!(t.read("b//f"), Ok(b"two".to_vec()));
    assert_eq!(t.write("/b", b""), Err(FsError::IsDir));
    assert_eq!(t.read("/b"), Err(FsError::IsDir));
    assert_eq!(t.list("/b/f"), Err(FsError::NotDir));
    assert_eq!(t.list("/nothing"), Err(FsError::NotFound));
    assert_eq!(t.write("/a", b""), Ok(()));
    assert_eq!(
        t.list("/").unwrap(),
        vec![(String::from("a"), false), (String::from("b"), true)]
    );
    assert_eq!(t.is_dir("/"), Ok(true));
    assert_eq!(t.is_dir("/a"), Ok(false));
}

#[test]
fn removed_directory_takes_its_subtree() {
    let mut t = RamFs::new();
    t.mkdir("/b").unwrap();
    t.mkdir("/b/c").unwrap();
    t.write("/b/c/f", b"x").unwrap();
    t.write("/bc", b"y").unwrap();
    assert_eq!(t.remove("/b"), Ok(()));
    assert_eq!(t.read("/b/c/f"), Err(FsError::NotFound));
    assert_eq!(t.read("/bc"), Ok(b"y".to_vec()));
    assert_eq!(t.remove("/b"), Err(FsError::NotFound));
    assert_eq!(t.remove("/"), Err(FsError::NotFound));
    assert_eq!(t.is_dir("/"), Ok(true));
}

#[test]
fn mounted_volume_serves_its_paths() {
    let mut vfs: Vfs<Fat> = Vfs::new();
    fs::mkdir(&mut vfs, "/mnt").unwrap();
    fs::write(&mut vfs, "/mnt/local", b"below").unwrap();
    fs::mount(&mut vfs, volume());
    assert_eq!(fs::read(&vfs, "/mnt/local"), Err(FsError::NotFound));
    fs::write(&mut vfs, "/mnt/up.txt", b"on disk").unwrap();
    assert_eq!(fs::read(&vfs, "/mnt/UP.TXT"), Ok(b"on disk".to_vec()));
    assert_eq!(fs::list(&vfs, "/mnt").unwrap(), vec![(String::from("UP.TXT"), false)]);
    assert_eq!(fs::mkdir(&mut vfs, "/mnt/d"), Err(FsError::Unsupported));
    assert_eq!(fs::remove(&mut vfs, "/mnt/up.txt"), Err(FsError::Unsupported));
    assert_eq!(fs::read(&vfs, "/mnt/a/b"), Err(FsError::Unsupported));
    assert_eq!(fs::write(&mut vfs, "/mnt/much too long.txt", b"x"), Err(FsError::Io));
    assert_eq!(fs::read(&vfs, "/mnt/"), Err(FsError::IsDir));
    fs::write(&mut vfs, "/mnt2", b"beside").unwrap();
    assert_eq!(fs::read(&vfs, "/mnt2"), Ok(b"beside".to_vec()));
    assert_eq!(fs::is_dir(&vfs, "/mnt"), Ok(true));
    assert_eq!(
        fs::list(&vfs, "/").unwrap(),
        vec![(String::from("mnt"), true), (String::from("mnt2"), false)]
    );
}

#[test]
fn errors_have_their_messages() {
    assert_eq!(FsError::NotFound.as_str(), "no such file or directory");
    assert_eq!(FsError::Exists.as_str(), "already exists");
    assert_eq!(FsError::IsDir.as_str(), "is a directory");
    assert_eq!(FsError::NotDir.as_str(), "not a directory");
    assert_eq!(FsError::Unsupported.as_str(), "operation not supported");
    assert_eq!(FsError::Io.as_str(), "input/output error");
}
