use aether::acpi;
use aether::acpi::{CpuCore, Missing, Tables, LOW_MEMORY};
use aether::allocator;
use aether::allocator::{BumpAllocator, HeapAction, HEAP_SIZE, HEAP_START};
use aether::apic;
use aether::apic::RegWrite;
use aether::boot;
use aether::boot::Stage;
use aether::e1000;
use aether::e1000::E1000;
use aether::gdt;
use aether::pci;
use aether::pci::{Address, Device};
use aether::percpu;
use aether::sched;
use aether::smp;
use aether::smp::ApAction;

// The allocator.

#[test]
fn blocks_are_aligned_and_apart() {
    let mut bump = BumpAllocator::new();
    bump.init(0x1001, 0x100);
    let a = bump.allocate(3, 1).unwrap();
    let b = bump.allocate(8, 8).unwrap();
    let c = bump.allocate(16, 64).unwrap();
    assert_eq!(a, 0x1001);
    assert_eq!(b, 0x1008);
    assert_eq!(c, 0x1040);
    assert!(a + 3 <= b && b + 8 <= c);
}

#[test]
fn heap_runs_out_and_comes_back() {
    let mut bump = BumpAllocator::new();
    bump.init(0x1000, 32);
    assert_eq!(bump.allocate(16, 16), Some(0x1000));
    assert_eq!(bump.allocate(17, 1), None);
    assert_eq!(bump.allocate(16, 1), Some(0x1010));
    assert_eq!(bump.allocate(1, 1), None);
    bump.deallocate();
    assert_eq!(bump.allocate(1, 1), None);
    bump.deallocate();
    assert_eq!(bump.allocate(32, 32), Some(0x1000));
}

#[test]
fn allocation_that_overflows_the_address_space_fails() {
    let mut bump = BumpAllocator::new();
    bump.init(0x1000, 0x1000);
    assert_eq!(bump.allocate(u64::MAX, 1), None);
    assert_eq!(bump.allocate(1, 1), Some(0x1000));
}

#[test]
fn empty_allocator_has_nothing() {
    let mut bump = BumpAllocator::new();
    assert_eq!(bump.allocate(1, 1), None);
    assert_eq!(bump.allocate(0, 1), Some(0));
}

#[test]
fn heap_is_set_up_page_by_page() {
    let mut bump = BumpAllocator::new();
    let (mut setup, mut action) = allocator::init_heap();
    let mut pages = Vec::new();
    loop {
        match action {
            HeapAction::MapPage(page) => pages.push(page),
            HeapAction::Done => break,
            HeapAction::Failed => panic!("nothing failed"),
            HeapAction::AllocateFrame => {}
        }
        action = setup.step(&mut bump, true);
    }
    assert_eq!(pages.len(), 25);
    assert_eq!(pages[0], HEAP_START);
    assert_eq!(pages[24], HEAP_START + HEAP_SIZE - 4096);
    assert_eq!(bump.allocate(8, 8), Some(HEAP_START));
}

#[test]
fn heap_setup_stops_without_frames() {
    let mut bump = BumpAllocator::new();
    let (mut setup, _) = allocator::init_heap();
    assert_eq!(setup.step(&mut bump, true), HeapAction::MapPage(HEAP_START));
    assert_eq!(setup.step(&mut bump, true), HeapAction::AllocateFrame);
    assert_eq!(setup.step(&mut bump, false), HeapAction::Failed);
    assert_eq!(bump.allocate(8, 8), None);
}

// ACPI.

fn with_checksum(mut table: Vec<u8>, at: usize) -> Vec<u8> {
    let sum = table.iter().fold(0u8, |a, b| a.wrapping_add(*b));
    table[at] = 0u8.wrapping_sub(sum);
    table
}

fn low_memory(rsdp_at: usize, rsdp: &[u8]) -> Vec<u8> {
    let mut low = vec![0u8; LOW_MEMORY];
    low[rsdp_at..rsdp_at + rsdp.len()].copy_from_slice(rsdp);
    low
}

fn rsdp(revision: u8, rsdt: u32, xsdt: u64) -> Vec<u8> {
    let mut r = vec![0u8; 36];
    r[..8].copy_from_slice(b"RSD PTR ");
    r[15] = revision;
    r[16..20].copy_from_slice(&rsdt.to_le_bytes());
    r[24..32].copy_from_slice(&xsdt.to_le_bytes());
    let sum = r[..20].iter().fold(0u8, |a, b| a.wrapping_add(*b));
    r[8] = 0u8.wrapping_sub(sum);
    r
}

fn table(signature: &[u8; 4], body: &[u8]) -> Vec<u8> {
    let mut t = vec![0u8; 36];
    t[..4].copy_from_slice(signature);
    t.extend_from_slice(body);
    let len = t.len() as u32;
    t[4..8].copy_from_slice(&len.to_le_bytes());
    with_checksum(t, 9)
}

fn madt(entries: &[u8]) -> Vec<u8> {
    let mut body = vec![0u8; 8];
    body.extend_from_slice(entries);
    table(b"APIC", &body)
}

fn discover_in(low: &[u8], memory: &[(u64, Vec<u8>)], bsp: u8) -> acpi::Cpus {
    let mut tables = Tables::new();
    loop {
        match acpi::discover(low, &tables, bsp) {
            Ok(cpus) => return cpus,
            Err(Missing { phys, len }) => {
                let (_, data) = memory
                    .iter()
                    .find(|(at, _)| *at == phys)
                    .expect("a table that is there");
                let mut part = data.clone();
                part.resize(len.max(part.len()), 0);
                part.truncate(len);
                tables.load(phys, part);
            }
        }
    }
}

const FOUR_CORES: [u8; 36] = [
    0, 8, 0, 0, 1, 0, 0, 0, // enabled
    0, 8, 1, 2, 2, 0, 0, 0, // can be enabled
    0, 8, 2, 3, 0, 0, 0, 0, // neither
    1, 4, 9, 9, // another type
    0, 8, 3, 7, 1, 0, 0, 0,
];

#[test]
fn cores_are_discovered_through_the_32_bit_table() {
    let r = rsdp(0, 0x2000, 0);
    let low = low_memory(0xE_0010, &r);
    let mut pointers = Vec::new();
    pointers.extend_from_slice(&0x3000u32.to_le_bytes());
    pointers.extend_from_slice(&0x4000u32.to_le_bytes());
    let memory = vec![
        (0xE_0010, r),
        (0x2000, table(b"RSDT", &pointers)),
        (0x3000, table(b"FACP", &[])),
        (0x4000, madt(&FOUR_CORES)),
    ];
    let cpus = discover_in(&low, &memory, 2);
    assert_eq!(acpi::cpu_count(&cpus), 3);
    assert_eq!(acpi::bsp_apic_id(&cpus), 2);
    assert_eq!(
        acpi::cpus(&cpus),
        vec![
            CpuCore { apic_id: 0, is_bsp: false },
            CpuCore { apic_id: 2, is_bsp: true },
            CpuCore { apic_id: 7, is_bsp: false },
        ]
    );
    assert_eq!(
        acpi::application_processors(&cpus),
        vec![CpuCore { apic_id: 0, is_bsp: false }, CpuCore { apic_id: 7, is_bsp: false }]
    );
}

#[test]
fn cores_are_discovered_through_the_64_bit_table() {
    let r = rsdp(2, 0xDEAD, 0x2000);
    let mut low = low_memory(0x9_FC00, &r);
    low[0x40E..0x410].copy_from_slice(&0x9FC0u16.to_le_bytes());
    let memory = vec![
        (0x9_FC00, r),
        (0x2000, table(b"XSDT", &0x1_0000_4000u64.to_le_bytes())),
        (0x1_0000_4000, madt(&FOUR_CORES)),
    ];
    let cpus = discover_in(&low, &memory, 0);
    assert_eq!(acpi::cpu_count(&cpus), 3);
    assert_eq!(acpi::bsp_apic_id(&cpus), 0);
}

#[test]
fn without_tables_there_is_one_core() {
    let low = vec![0u8; LOW_MEMORY];
    let cpus = discover_in(&low, &[], 5);
    assert_eq!(acpi::cpus(&cpus), vec![CpuCore { apic_id: 5, is_bsp: true }]);
    assert_eq!(acpi::application_processors(&cpus), vec![]);
}

#[test]
fn broken_root_pointer_is_ignored() {
    let mut r = rsdp(0, 0x2000, 0);
    r[9] ^= 1;
    assert_eq!(acpi::find_rsdp(&low_memory(0xE_0010, &r)), None);
    r[9] ^= 1;
    assert_eq!(acpi::find_rsdp(&low_memory(0xE_0010, &r)), Some(0xE_0010));
    assert_eq!(acpi::find_rsdp(&low_memory(0xE_0018, &r)), None);
}

#[test]
fn implausible_table_is_ignored() {
    let mut t = Tables::new();
    t.load(0x100, rsdp(0, 0x2000, 0));
    let mut header = vec![0u8; 36];
    header[4..8].copy_from_slice(&0x1_0001u32.to_le_bytes());
    t.load(0x2000, header);
    assert_eq!(acpi::find_madt(&t, 0x100), Ok(None));
}

#[test]
fn missing_parts_are_asked_for_in_turn() {
    let mut t = Tables::new();
    assert_eq!(acpi::find_madt(&t, 0x100), Err(Missing { phys: 0x100, len: 36 }));
    t.load(0x100, rsdp(0, 0x2000, 0));
    assert_eq!(acpi::find_madt(&t, 0x100), Err(Missing { phys: 0x2000, len: 36 }));
    let sdt = table(b"RSDT", &0x4000u32.to_le_bytes());
    t.load(0x2000, sdt[..36].to_vec());
    assert_eq!(acpi::find_madt(&t, 0x100), Err(Missing { phys: 0x2000, len: 40 }));
    t.load(0x2000, sdt);
    assert_eq!(acpi::find_madt(&t, 0x100), Err(Missing { phys: 0x4000, len: 4 }));
    t.load(0x4000, b"APIC".to_vec());
    assert_eq!(acpi::find_madt(&t, 0x100), Err(Missing { phys: 0x4000, len: 36 }));
}

#[test]
fn corrupt_entry_ends_the_list_of_cores() {
    let mut m = vec![0u8; 44];
    m.extend_from_slice(&[0, 8, 0, 1, 1, 0, 0, 0]);
    m.extend_from_slice(&[0, 0, 0, 2, 1, 0, 0, 0]);
    m.extend_from_slice(&[0, 8, 0, 3, 1, 0, 0, 0]);
    assert_eq!(acpi::parse_madt(&m, 9), vec![CpuCore { apic_id: 1, is_bsp: false }]);
    let mut beyond = vec![0u8; 44];
    beyond.extend_from_slice(&[0, 9, 0, 2, 1, 0, 0, 0]);
    assert_eq!(acpi::parse_madt(&beyond, 9), vec![]);
}

// Per-CPU data.

#[test]
fn every_core_finds_its_block() {
    let cores = vec![
        CpuCore { apic_id: 4, is_bsp: true },
        CpuCore { apic_id: 9, is_bsp: false },
    ];
    let mut cpus = percpu::init(&cores);
    assert_eq!(percpu::count(&cpus), 2);
    assert_eq!(percpu::online_count(&cpus), 1);
    assert_eq!(percpu::this_cpu_opt(&cpus, 9), Some(1));
    assert_eq!(percpu::this_cpu_opt(&cpus, 5), None);
    assert_eq!(sched::this_queue_opt(2, &cpus, 9), Some(1));
    assert_eq!(sched::this_queue_opt(0, &cpus, 9), None);
    assert_eq!(sched::this_queue_opt(2, &cpus, 5), None);
    assert_eq!(sched::this_queue(2, &cpus, 4), 0);
    let me = percpu::this_cpu(&cpus, 9);
    cpus[me].mark_online(0x1234);
    cpus[me].tick();
    cpus[me].tick();
    assert!(percpu::all(&cpus)[1].is_online());
    assert_eq!(cpus[1].stack(), 0x1234);
    assert_eq!(cpus[1].timer_ticks(), 2);
    assert_eq!(cpus[1].cpu_index, 1);
    assert_eq!(cpus[0].timer_ticks(), 0);
    assert_eq!(percpu::online_count(&cpus), 2);
}

#[test]
fn the_boot_core_has_index_zero() {
    let cores = vec![
        CpuCore { apic_id: 1, is_bsp: false },
        CpuCore { apic_id: 0, is_bsp: true },
        CpuCore { apic_id: 2, is_bsp: false },
    ];
    let cpus = percpu::init(&cores);
    let indices: Vec<usize> = percpu::all(&cpus).iter().map(|c| c.cpu_index).collect();
    assert_eq!(indices, vec![1, 0, 2]);
    assert!(cpus[1].is_bsp && cpus[1].is_online());
    assert!(!cpus[0].is_online() && !cpus[2].is_online());
    assert_eq!(percpu::online_count(&cpus), 1);
    assert_eq!(percpu::this_cpu_opt(&cpus, 0), Some(1));
    assert_eq!(sched::this_queue_opt(3, &cpus, 0), Some(0));
    assert_eq!(sched::this_queue_opt(3, &cpus, 1), Some(1));
    assert_eq!(sched::this_queue_opt(3, &cpus, 2), Some(2));
    let none: Vec<usize> = percpu::init(&vec![cores[0], cores[2]]).iter().map(|c| c.cpu_index).collect();
    assert_eq!(none, vec![0, 1]);
}

// The APIC.

#[test]
fn timer_is_calibrated() {
    // 10 ms worth of counts, a hundred times.
    assert_eq!(apic::calibrate(1_000_000, 400_000), 60_000_000);
    assert_eq!(apic::calibrate(5, 5), 10_000_000);
    assert_eq!(apic::calibrate(4, 5), 10_000_000);
    assert_eq!(apic::calibrate(u32::MAX, 0), u32::MAX);
    assert_eq!(apic::init_timer(60_000_000)[2].value, 600_000);
    assert_eq!(apic::init_timer(99)[2].value, 1);
    assert_eq!(
        apic::init_timer(0)[1],
        RegWrite { offset: 0x320, value: 0x2_0020 }
    );
}

#[test]
fn apic_registers_are_decoded() {
    assert_eq!(apic::physical_base(0xFFF0_0000_FEE0_0900), 0xFEE0_0000);
    assert_eq!(apic::globally_enabled(0xFEE0_0100), 0xFEE0_0900);
    assert_eq!(apic::globally_enabled(0xFEE0_0900), 0xFEE0_0900);
    assert_eq!(apic::lapic_id(0x0700_0000), 7);
    assert_eq!(apic::version(0x0005_0014), 0x14);
    assert_eq!(apic::enable_lapic(), RegWrite { offset: 0xF0, value: 0x1FF });
    assert_eq!(apic::end_of_interrupt(), RegWrite { offset: 0xB0, value: 0 });
    assert_eq!(apic::register(0xB0), 0x3200_0000_00B0);
    assert_eq!(apic::free_running()[2].value, u32::MAX);
}

#[test]
fn pit_is_programmed_for_ten_milliseconds() {
    assert_eq!(apic::pit_count(), ((11931 % 256) as u8, (11931 / 256) as u8));
    assert_eq!(apic::paused(0b0010_0111), 0b0010_0100);
    assert_eq!(apic::counting(0b0010_0100), 0b0010_0101);
    assert!(apic::pit_done(0x20));
    assert!(!apic::pit_done(0xDF));
}

// PCI and the network card.

#[test]
fn configuration_addresses_are_encoded() {
    let a = Address { bus: 1, device: 2, function: 3 };
    assert_eq!(a.encode(0x3D), 0x8000_0000 | 1 << 16 | 2 << 11 | 3 << 8 | 0x3C);
}

fn header(id: u32, class: u32, header_type: u32) -> [u32; 16] {
    let mut h = [0u32; 16];
    h[0] = id;
    h[2] = class;
    h[3] = header_type << 16;
    h
}

#[test]
fn function_is_probed() {
    let a = Address { bus: 0, device: 3, function: 0 };
    let d = Device::probe(a, &header(0x100E_8086, 0x0200_0003, 0)).unwrap();
    assert_eq!((d.vendor_id, d.device_id), (0x8086, 0x100E));
    assert_eq!((d.class, d.subclass, d.prog_if), (2, 0, 0));
    assert!(!d.is_multifunction());
    assert_eq!(Device::probe(a, &header(0xFFFF_FFFF, 0, 0)), None);
    assert!(Device::probe(a, &header(1, 0, 0x80)).unwrap().is_multifunction());
}

#[test]
fn base_addresses_are_decoded() {
    let mut h = [0u32; 16];
    h[4] = 0xFEBC_0000;
    h[5] = 0xC001;
    h[6] = 0x0000_000C;
    h[7] = 0x12;
    h[15] = 0x0000_010B;
    assert_eq!(Device::bar(&h, 0), 0xFEBC_0000);
    assert_eq!(Device::mmio_bar(&h, 0), Some(0xFEBC_0000));
    assert_eq!(Device::mmio_bar(&h, 1), None);
    assert_eq!(Device::mmio_bar(&h, 2), Some(0x12_0000_0000));
    assert_eq!(Device::interrupt_line(&h), 0x0B);
    assert_eq!(e1000::register_base(&h), Some(0xFEBC_0000));
}

#[test]
fn bus_is_enumerated() {
    // A bridge, a device with several functions on two buses, and gaps between them.
    let present = [(0u8, 0u8, 0u8, 0u32), (0, 1, 0, 0x80), (0, 1, 1, 0), (0, 1, 7, 0), (3, 31, 0, 0)];
    let mut scan = pci::enumerate();
    let mut probes = 0;
    while let Some(a) = scan.next() {
        probes += 1;
        let found = present
            .iter()
            .find(|(b, d, f, _)| (*b, *d, *f) == (a.bus, a.device, a.function))
            .and_then(|(_, _, _, t)| Device::probe(a, &header(0x100E_8086, 0x0200_0000, *t)));
        scan.step(found);
    }
    assert_eq!(probes, 256 * 32 + 7);
    let places: Vec<(u8, u8, u8)> = scan
        .devices()
        .iter()
        .map(|d| (d.address.bus, d.address.device, d.address.function))
        .collect();
    assert_eq!(places, vec![(0, 0, 0), (0, 1, 0), (0, 1, 1), (0, 1, 7), (3, 31, 0)]);
    assert_eq!(pci::find_e1000(scan.devices()).unwrap().address.device, 0);
    assert_eq!(pci::find_device(scan.devices(), 1, 2), None);
}

#[test]
fn card_is_read() {
    let card = e1000::init(0x1200_5452, 0x8000_5634);
    assert_eq!(card.mac(), [0x52, 0x54, 0x00, 0x12, 0x34, 0x56]);
    assert!(e1000::address_valid(0x8000_5634));
    assert!(!e1000::address_valid(0x5634));
    assert!(E1000::link_up(2) && !E1000::link_up(1));
    assert!(E1000::full_duplex(1) && !E1000::full_duplex(2));
    assert_eq!(card.register(e1000::REG_STATUS), 0x3280_0000_0008);
    assert!(e1000::present(&Some(card)));
    assert!(!e1000::present(&None));
    assert_eq!(e1000::device(&Some(card)).unwrap().mac(), card.mac());
}

#[test]
fn registers_of_the_card_are_mapped() {
    let pages = e1000::map_mmio(0xFEBC_0000);
    assert_eq!(pages.len(), 32);
    assert_eq!((pages[5].page, pages[5].frame), (0x3280_0000_5000, 0xFEBC_5000));
}

// Waking a core.

#[test]
fn core_that_reports_is_woken() {
    let mut woke = false;
    let mut boot = smp::boot_one_ap(&vec![CpuCore { apic_id: 3, is_bsp: false }]).unwrap();
    let mut actions = Vec::new();
    let mut marker = 0;
    loop {
        let action = boot.step(&mut woke, marker);
        actions.push(action);
        match action {
            ApAction::Over(_) => break,
            ApAction::ReadMarker => {
                let reads = actions.iter().filter(|a| **a == ApAction::ReadMarker).count();
                marker = if reads == 2 { 0xA11E } else { 0 };
            }
            _ => {}
        }
    }
    assert_eq!(
        actions,
        vec![
            ApAction::Prepare,
            ApAction::SendInit(3),
            ApAction::Sleep(10_000),
            ApAction::SendStartup(3, 8),
            ApAction::Sleep(200),
            ApAction::SendStartup(3, 8),
            ApAction::ReadMarker,
            ApAction::Sleep(1_000),
            ApAction::ReadMarker,
            ApAction::Over(true),
        ]
    );
    assert!(smp::ap_woke(&woke));
}

#[test]
fn silent_core_is_given_up() {
    let mut woke = false;
    let mut boot = smp::boot_one_ap(&vec![CpuCore { apic_id: 3, is_bsp: false }]).unwrap();
    let mut reads = 0;
    let mut slept = 0;
    loop {
        match boot.step(&mut woke, 0) {
            ApAction::ReadMarker => reads += 1,
            ApAction::Sleep(us) => slept += us,
            ApAction::Over(alive) => {
                assert!(!alive);
                break;
            }
            _ => {}
        }
    }
    assert_eq!(reads, 100);
    assert_eq!(slept, 10_000 + 200 + 100 * 1_000);
    assert!(!smp::ap_woke(&woke));
    assert!(smp::boot_one_ap(&vec![]).is_none());
}

#[test]
fn trampoline_writes_to_the_marker() {
    let code = smp::trampoline();
    assert_eq!(code[5..11], [0xC7, 0x06, 0xF0, 0x8F, 0x1E, 0xA1]);
}

// Segments.

#[test]
fn descriptor_table_has_its_selectors() {
    let (table, selectors) = gdt::build(0x0000_8900_0000_0067, 0x1234);
    assert_eq!(gdt::kernel_code_selector(&selectors), 0x08);
    assert_eq!(selectors.tss_selector, 0x10);
    assert_eq!(gdt::user_code_selector(&selectors), 0x23);
    assert_eq!(gdt::user_data_selector(&selectors), 0x2B);
    assert_eq!(
        table.as_raw_slice(),
        &[
            0,
            0x00AF_9B00_0000_FFFF,
            0x0000_8900_0000_0067,
            0x1234,
            0x00AF_FB00_0000_FFFF,
            0x00CF_F300_0000_FFFF,
        ]
    );
}

// The boot.

#[test]
fn boot_goes_through_its_stages() {
    let mut stages = vec![Stage::Serial];
    while let Some(next) = boot::next(*stages.last().unwrap(), true) {
        stages.push(next);
    }
    assert_eq!(stages.len(), 30);
    assert_eq!(stages[18], Stage::Card);
    assert_eq!(stages[29], Stage::Shell);
}

#[test]
fn boot_goes_on_without_a_card() {
    assert_eq!(boot::next(Stage::Bus, false), Some(Stage::AddressSpaces));
    assert_eq!(boot::next(Stage::Card, false), Some(Stage::AddressSpaces));
    assert_eq!(boot::next(Stage::Heap, false), Some(Stage::GuardPages));
}

#[test]
fn sectors_are_checked_at_boot() {
    let mut sector = vec![0u8; 512];
    assert!(!boot::mbr_signature_valid(&sector));
    sector[510] = 0x55;
    sector[511] = 0xAA;
    assert!(boot::mbr_signature_valid(&sector));
    let mut scratch = boot::scratch_sector();
    assert_eq!(&scratch[..8], b"AETHER13");
    assert_eq!((scratch[8], scratch[255], scratch[256]), (8, 255, 0));
    assert!(boot::round_trip_matches(&scratch));
    scratch[400] ^= 1;
    assert!(!boot::round_trip_matches(&scratch));
}

#[test]
fn functions_of_the_bus_are_reported() {
    let a = Address { bus: 0, device: 3, function: 0 };
    let nic = Device::probe(a, &header(0x100E_8086, 0x0200_0003, 0)).unwrap();
    assert_eq!(
        boot::device_line(&nic),
        "[pci]   00:03.0  8086:100e  class 02.00.00  <- Ethernet controller\n"
    );
    let b = Address { bus: 0x1F, device: 0, function: 1 };
    let other = Device::probe(b, &header(0x0007_0123, 0x0601_8A00, 0)).unwrap();
    assert_eq!(boot::device_line(&other), "[pci]   1f:00.1  0123:0007  class 06.01.8a\n");
}
