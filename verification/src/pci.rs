//! PCI configuration space and the enumeration of the bus.

use vstd::prelude::*;

verus! {

/// The port that a configuration address is written to.
pub const CONFIG_ADDRESS: u16 = 0xCF8;

/// The port through which the word at that address is read.
pub const CONFIG_DATA: u16 = 0xCFC;

/// Intel's vendor id.
pub const INTEL_VENDOR_ID: u16 = 0x8086;

/// The device id of the Intel 82540EM network card.
pub const E1000_DEVICE_ID: u16 = 0x100E;

/// Class code: a network controller.
pub const CLASS_NETWORK: u8 = 0x02;

/// Subclass of network controllers: Ethernet.
pub const SUBCLASS_ETHERNET: u8 = 0x00;

/// The vendor id that an empty slot reads as.
pub const INVALID_VENDOR: u16 = 0xFFFF;

/// The 32-bit words of the standard header of a function's configuration space.
pub const HEADER_WORDS: usize = 16;

/// The name of a function: bus, device below 32 and function below 8.
#[derive(Debug, Clone, Copy, PartialEq, Eq, Structural)]
pub struct Address {
    pub bus: u8,
    pub device: u8,
    pub function: u8,
}

/// The configuration address of the word at `offset` of a function.
pub open spec fn encoded(a: Address, offset: u8) -> u32 {
    0x8000_0000u32 | ((a.bus as u32) << 16u32) | ((a.device as u32) << 11u32) | ((a.function as u32)
        << 8u32) | ((offset as u32) & 0xFCu32)
}

impl Address {
    /// The configuration address of the word at `offset`.
    pub fn encode(self, offset: u8) -> (r: u32)
        ensures
            r == encoded(self, offset),
    {
        0x8000_0000u32 | ((self.bus as u32) << 16u32) | ((self.device as u32) << 11u32) | ((
        self.function as u32) << 8u32) | ((offset as u32) & 0xFCu32)
    }
}

/// Whether an address is that of a function.
pub open spec fn is_function(a: Address) -> bool {
    a.device < 32 && a.function < 8
}

/// The configuration address of a function is the sum of its fields, so different words have
/// different addresses.
pub proof fn fields_do_not_overlap(a: Address, offset: u8)
    requires
        is_function(a),
    ensures
        encoded(a, offset) == 0x8000_0000 + a.bus * 0x1_0000 + a.device * 0x800 + a.function * 0x100
            + offset - offset % 4,
{
    let (b, d, f, o) = (a.bus, a.device, a.function, offset);
    assert(0x8000_0000u32 | ((b as u32) << 16u32) | ((d as u32) << 11u32) | ((f as u32) << 8u32) | ((
    o as u32) & 0xFCu32) == 0x8000_0000 + b * 0x1_0000 + d * 0x800 + f * 0x100 + o - o % 4)
        by (bit_vector)
        requires
            d < 32,
            f < 8,
    ;
}

/// A function that is present.
#[derive(Debug, Clone, Copy, PartialEq, Eq, Structural)]
pub struct Device {
    pub address: Address,
    pub vendor_id: u16,
    pub device_id: u16,
    pub class: u8,
    pub subclass: u8,
    pub prog_if: u8,
    pub header_type: u8,
}

/// The function that a header describes; `None` if the slot is empty.
pub open spec fn probed(a: Address, header: Seq<u32>) -> Option<Device> {
    if header[0] % 0x1_0000 == INVALID_VENDOR {
        None
    } else {
        Some(
            Device {
                address: a,
                vendor_id: (header[0] % 0x1_0000) as u16,
                device_id: (header[0] / 0x1_0000) as u16,
                class: (header[2] / 0x100_0000) as u8,
                subclass: (header[2] / 0x1_0000 % 256) as u8,
                prog_if: (header[2] / 0x100 % 256) as u8,
                header_type: (header[3] / 0x1_0000 % 256) as u8,
            },
        )
    }
}

/// Whether a function shares its device with others.
pub open spec fn multifunction(d: Device) -> bool {
    d.header_type >= 0x80
}

/// A base address register: where a region of a function's registers is in memory; `None` if it
/// is in port space. `next` is the register that follows, which holds the upper half of a 64-bit
/// address.
pub open spec fn memory_base(low: u32, next: u32) -> Option<u64> {
    if low % 2 != 0 {
        None
    } else if low / 2 % 4 == 2 {
        Some((low - low % 16 + next * 0x1_0000_0000) as u64)
    } else {
        Some((low - low % 16) as u64)
    }
}

impl Device {
    /// The function that a header describes; `None` if the slot is empty.
    pub fn probe(address: Address, header: &[u32; 16]) -> (d: Option<Device>)
        ensures
            d == probed(address, header@),
    {
        let vendor_id: u16 = (header[0] % 0x1_0000) as u16;
        if vendor_id == INVALID_VENDOR {
            return None;
        }
        Some(
            Device {
                address,
                vendor_id,
                device_id: (header[0] / 0x1_0000) as u16,
                class: (header[2] / 0x100_0000) as u8,
                subclass: (header[2] / 0x1_0000 % 256) as u8,
                prog_if: (header[2] / 0x100 % 256) as u8,
                header_type: (header[3] / 0x1_0000 % 256) as u8,
            },
        )
    }

    /// Whether the function shares its device with others.
    pub fn is_multifunction(&self) -> (yes: bool)
        ensures
            yes == multifunction(*self),
    {
        self.header_type >= 0x80
    }

    /// Base address register `index` of the header.
    pub fn bar(header: &[u32; 16], index: u8) -> (bar: u32)
        requires
            index < 6,
        ensures
            bar == header@[4 + index],
    {
        header[4 + index as usize]
    }

    /// Where the region of base address register `index` is in memory; `None` if it is in port
    /// space.
    pub fn mmio_bar(header: &[u32; 16], index: u8) -> (base: Option<u64>)
        requires
            index < 6,
        ensures
            base == memory_base(header@[4 + index], header@[5 + index]),
    {
        let low: u32 = Device::bar(header, index);
        if low % 2 != 0 {
            return None;
        }
        let base: u64 = (low - low % 16) as u64;
        if low / 2 % 4 == 2 {
            Some(base + header[5 + index as usize] as u64 * 0x1_0000_0000)
        } else {
            Some(base)
        }
    }

    /// The interrupt line that the firmware has assigned.
    pub fn interrupt_line(header: &[u32; 16]) -> (line: u8)
        ensures
            line == header@[15] % 256,
    {
        (header[15] % 256) as u8
    }
}

/// An enumeration of the bus, which asks for one function after the other.
pub struct Scan {
    at: Option<Address>,
    devices: Vec<Device>,
}

/// The state of an enumeration.
#[verifier::ext_equal]
pub struct ScanModel {
    /// The function to be probed next; `None` at the end.
    pub at: Option<Address>,
    /// The functions that were found.
    pub devices: Seq<Device>,
}

impl View for Scan {
    type V = ScanModel;

    closed spec fn view(&self) -> ScanModel {
        ScanModel { at: self.at, devices: self.devices@ }
    }
}

/// The first function of the next device.
pub open spec fn next_device(a: Address) -> Option<Address> {
    if a.device < 31 {
        Some(Address { bus: a.bus, device: (a.device + 1) as u8, function: 0 })
    } else if a.bus < 255 {
        Some(Address { bus: (a.bus + 1) as u8, device: 0, function: 0 })
    } else {
        None
    }
}

/// The function to be probed after `a`: the others of a device follow only if its first is there
/// and says so.
pub open spec fn next_function(a: Address, found: Option<Device>) -> Option<Address> {
    let more = if a.function == 0 {
        match found {
            Some(d) => multifunction(d),
            None => false,
        }
    } else {
        a.function < 7
    };
    if more {
        Some(Address { function: (a.function + 1) as u8, ..a })
    } else {
        next_device(a)
    }
}

/// A function that was found, as a sequence.
pub open spec fn as_seq(found: Option<Device>) -> Seq<Device> {
    match found {
        Some(d) => seq![d],
        None => Seq::empty(),
    }
}

/// An enumeration after function `at` has been probed.
pub open spec fn scanned(m: ScanModel, found: Option<Device>) -> ScanModel {
    match m.at {
        Some(a) => ScanModel {
            at: next_function(a, found),
            devices: m.devices + as_seq(found),
        },
        None => m,
    }
}

/// The first function that is probed.
pub open spec fn first_function() -> Address {
    Address { bus: 0, device: 0, function: 0 }
}

/// Begins to enumerate the bus.
pub fn enumerate() -> (s: Scan)
    ensures
        s@ == (ScanModel { at: Some(first_function()), devices: Seq::empty() }),
{
    let s = Scan { at: Some(Address { bus: 0, device: 0, function: 0 }), devices: Vec::new() };
    assert(s@ =~= (ScanModel { at: Some(first_function()), devices: Seq::empty() }));
    s
}

impl Scan {
    /// The function to be probed next; `None` at the end.
    pub fn next(&self) -> (at: Option<Address>)
        ensures
            at == self@.at,
    {
        self.at
    }

    /// Takes what was found at that function.
    pub fn step(&mut self, found: Option<Device>)
        requires
            old(self)@.at matches Some(a) ==> is_function(a),
        ensures
            final(self)@ == scanned(old(self)@, found),
            final(self)@.at matches Some(a) ==> is_function(a),
    {
        let ghost before = self@;
        let a: Address = match self.at {
            Some(a) => a,
            None => {
                return;
            },
        };
        let more: bool = if a.function == 0 {
            match found {
                Some(d) => d.is_multifunction(),
                None => false,
            }
        } else {
            a.function < 7
        };
        if let Some(d) = found {
            self.devices.push(d);
        }
        self.at = if more {
            Some(Address { bus: a.bus, device: a.device, function: a.function + 1 })
        } else if a.device < 31 {
            Some(Address { bus: a.bus, device: a.device + 1, function: 0 })
        } else if a.bus < 255 {
            Some(Address { bus: a.bus + 1, device: 0, function: 0 })
        } else {
            None
        };
        assert(self@ =~= scanned(before, found));
    }

    /// The functions that were found.
    pub fn devices(&self) -> (devices: &Vec<Device>)
        ensures
            devices@ == self@.devices,
    {
        &self.devices
    }
}

/// The first function from `k` on with these ids.
pub open spec fn device_from(devices: Seq<Device>, vendor_id: u16, device_id: u16, k: int) -> Option<
    Device,
>
    decreases devices.len() - k,
{
    if k >= devices.len() {
        None
    } else if devices[k].vendor_id == vendor_id && devices[k].device_id == device_id {
        Some(devices[k])
    } else {
        device_from(devices, vendor_id, device_id, k + 1)
    }
}

/// The first function with these ids.
pub fn find_device(devices: &Vec<Device>, vendor_id: u16, device_id: u16) -> (d: Option<Device>)
    ensures
        d == device_from(devices@, vendor_id, device_id, 0),
{
    let mut i: usize = 0;
    while i < devices.len()
        invariant
            i <= devices@.len(),
            device_from(devices@, vendor_id, device_id, 0) == device_from(
                devices@,
                vendor_id,
                device_id,
                i as int,
            ),
        decreases devices@.len() - i,
    {
        if devices[i].vendor_id == vendor_id && devices[i].device_id == device_id {
            return Some(devices[i]);
        }
        i = i + 1;
    }
    None
}

/// The Intel network card, if there is one.
pub fn find_e1000(devices: &Vec<Device>) -> (d: Option<Device>)
    ensures
        d == device_from(devices@, INTEL_VENDOR_ID, E1000_DEVICE_ID, 0),
{
    find_device(devices, INTEL_VENDOR_ID, E1000_DEVICE_ID)
}

/// How many addresses there are from `a` on.
pub open spec fn remaining(a: Address) -> int {
    0x1_0000 - (a.bus * 256 + a.device * 8 + a.function)
}

/// The functions that a bus has, from `at` on: `bus` says what a probe finds.
pub open spec fn listing(bus: spec_fn(Address) -> Option<Device>, at: Option<Address>) -> Seq<Device>
    decreases
            match at {
                Some(a) => remaining(a),
                None => 0int,
            },
    when at matches Some(a) ==> is_function(a)
{
    match at {
        Some(a) => as_seq(bus(a)) + listing(bus, next_function(a, bus(a))),
        None => Seq::empty(),
    }
}

/// An enumeration finds what the bus has: what was found and what is to come make up the whole
/// list at every step, until nothing is to come.
pub proof fn enumeration_is_complete(bus: spec_fn(Address) -> Option<Device>, m: ScanModel)
    requires
        m.at matches Some(a) ==> is_function(a),
    ensures
        ({
            let found = match m.at {
                Some(a) => bus(a),
                None => None,
            };
            let after = scanned(m, found);
            &&& after.devices + listing(bus, after.at) == m.devices + listing(bus, m.at)
            &&& (m.at is None ==> m.devices == m.devices + listing(bus, m.at))
            &&& (m.at matches Some(a) ==> match after.at {
                Some(b) => is_function(b) && remaining(b) < remaining(a),
                None => true,
            })
        }),
{
    match m.at {
        Some(a) => {
            let found = bus(a);
            let after = scanned(m, found);
            assert(after.devices + listing(bus, after.at) =~= m.devices + (as_seq(found) + listing(
                bus,
                after.at,
            )));
        },
        None => {
            assert(m.devices =~= m.devices + listing(bus, m.at));
        },
    }
}

/// The first function of every device is probed: it comes some time after that of the device
/// before it, whatever was found.
pub proof fn no_device_is_skipped(a: Address, found: Option<Device>)
    requires
        is_function(a),
    ensures
        match next_function(a, found) {
            Some(b) => (b.bus == a.bus && b.device == a.device && b.function == a.function + 1)
                || Some(b) == next_device(a),
            None => a.bus == 255 && a.device == 31,
        },
        next_device(a) matches Some(b) ==> b.function == 0 && b.bus * 32 + b.device == a.bus * 32
            + a.device + 1,
{
}

/// Whether a function is to be looked at: the first of every device, and the others where the
/// first is there and says, in the top bit of its header type, that there are more.
pub open spec fn is_due(bus: spec_fn(Address) -> Option<Device>, a: Address) -> bool {
    a.function == 0 || (bus(Address { bus: a.bus, device: a.device, function: 0 }) matches Some(d)
        && d.header_type >= 128)
}

/// The place of a function in the order of the bus.
pub open spec fn place(a: Address) -> int {
    a.bus * 256 + a.device * 8 + a.function
}

/// Every function that is to be looked at and is there is found.
pub proof fn every_function_is_found(bus: spec_fn(Address) -> Option<Device>, b: Address)
    requires
        b.device < 32,
        b.function < 8,
        is_due(bus, b),
        bus(b) is Some,
    ensures
        listing(bus, Some(first_function())).contains(bus(b).unwrap()),
{
    lemma_found(bus, first_function(), b);
}

proof fn lemma_found(bus: spec_fn(Address) -> Option<Device>, a: Address, b: Address)
    requires
        is_function(a),
        is_function(b),
        place(a) <= place(b),
        is_due(bus, a),
        is_due(bus, b),
        bus(b) is Some,
    ensures
        listing(bus, Some(a)).contains(bus(b).unwrap()),
    decreases remaining(a),
{
    let here = as_seq(bus(a));
    let next = next_function(a, bus(a));
    let rest = listing(bus, next);
    if a == b {
        assert((here + rest)[0] == bus(b).unwrap());
    } else {
        if a.bus == b.bus && a.device == b.device {
            assert(a.function < b.function);
            assert(Address { bus: a.bus, device: a.device, function: 0 } == Address {
                bus: b.bus,
                device: b.device,
                function: 0,
            });
            if a.function == 0 {
                assert(a == Address { bus: b.bus, device: b.device, function: 0 });
            }
        } else {
            assert(a.bus * 32 + a.device < b.bus * 32 + b.device);
            if a.function == 0 {
                assert(a == Address { bus: a.bus, device: a.device, function: 0 });
            }
        }
        let n = next.unwrap();
        assert(place(n) <= place(b));
        assert(is_due(bus, n));
        lemma_found(bus, n, b);
        let k = choose|k: int| 0 <= k < rest.len() && rest[k] == bus(b).unwrap();
        assert((here + rest)[here.len() + k] == bus(b).unwrap());
    }
}

/// Nothing else is found: whatever is on the list is at a function that is to be looked at.
pub proof fn only_functions_are_found(
    bus: spec_fn(Address) -> Option<Device>,
    a: Address,
    d: Device,
) -> (b: Address)
    requires
        a.device < 32,
        a.function < 8,
        is_due(bus, a),
        listing(bus, Some(a)).contains(d),
    ensures
        b.device < 32,
        b.function < 8,
        is_due(bus, b),
        bus(b) == Some(d),
    decreases remaining(a),
{
    let here = as_seq(bus(a));
    let next = next_function(a, bus(a));
    let rest = listing(bus, next);
    let k = choose|k: int| 0 <= k < (here + rest).len() && (here + rest)[k] == d;
    if k < here.len() {
        a
    } else {
        assert(rest[k - here.len()] == d);
        if a.function == 0 {
            assert(a == Address { bus: a.bus, device: a.device, function: 0 });
        }
        only_functions_are_found(bus, next.unwrap(), d)
    }
}

/// The header of a function: the ids in its first word, the class in its third, the header type
/// in its fourth. An empty slot reads as all ones.
pub proof fn header_is_understood(
    a: Address,
    header: Seq<u32>,
    vendor: u16,
    device: u16,
    class: u8,
    subclass: u8,
    interface: u8,
    revision: u8,
    kind: u8,
    top: u8,
    low: u16,
)
    requires
        header.len() == 16,
        header[0] == device * 0x1_0000 + vendor,
        header[2] == class * 0x100_0000 + subclass * 0x1_0000 + interface * 0x100 + revision,
        header[3] == top * 0x100_0000 + kind * 0x1_0000 + low,
    ensures
        vendor == 0xFFFF ==> probed(a, header) is None,
        vendor != 0xFFFF ==> probed(a, header) == Some(
            Device {
                address: a,
                vendor_id: vendor,
                device_id: device,
                class,
                subclass,
                prog_if: interface,
                header_type: kind,
            },
        ),
{
    lemma_fields(header[0], header[2], header[3], vendor, device, class, subclass, interface,
        revision, kind, top, low);
}

/// The fields of the three words are told apart.
proof fn lemma_fields(
    w0: u32,
    w2: u32,
    w3: u32,
    vendor: u16,
    device: u16,
    class: u8,
    subclass: u8,
    interface: u8,
    revision: u8,
    kind: u8,
    top: u8,
    low: u16,
)
    requires
        w0 == device * 0x1_0000 + vendor,
        w2 == class * 0x100_0000 + subclass * 0x1_0000 + interface * 0x100 + revision,
        w3 == top * 0x100_0000 + kind * 0x1_0000 + low,
    ensures
        w0 % 0x1_0000 == vendor,
        w0 / 0x1_0000 == device,
        w2 / 0x100_0000 == class,
        w2 / 0x1_0000 % 256 == subclass,
        w2 / 0x100 % 256 == interface,
        w3 / 0x1_0000 % 256 == kind,
{
    assert(w2 / 0x1_0000 == class * 256 + subclass);
    assert(w2 / 0x100 == class * 0x1_0000 + subclass * 0x100 + interface);
    assert(w3 / 0x1_0000 == top * 256 + kind);
}

/// A base address register: odd in port space; else its upper 28 bits are the address, with the
/// next register above them if bits 1 and 2 are `10`.
pub proof fn base_address_is_understood(base: u32, flags: u32, next: u32)
    requires
        base % 16 == 0,
        flags < 16,
        base + flags <= u32::MAX,
    ensures
        flags % 2 == 1 ==> memory_base((base + flags) as u32, next) is None,
        flags % 2 == 0 && (flags == 4 || flags == 12) ==> memory_base((base + flags) as u32, next)
            == Some((next * 0x1_0000_0000 + base) as u64),
        flags % 2 == 0 && flags != 4 && flags != 12 ==> memory_base((base + flags) as u32, next)
            == Some(base as u64),
{
}

/// The first function with the ids that are looked for is found, and none if there is none.
pub proof fn first_with_the_ids_is_found(
    devices: Seq<Device>,
    vendor: u16,
    device: u16,
    i: int,
    k: int,
)
    requires
        0 <= k <= i <= devices.len(),
        i < devices.len() ==> devices[i].vendor_id == vendor && devices[i].device_id == device,
        forall|j: int|
            k <= j < i ==> !((#[trigger] devices[j]).vendor_id == vendor && devices[j].device_id
                == device),
    ensures
        device_from(devices, vendor, device, k) == (if i < devices.len() {
            Some(devices[i])
        } else {
            None
        }),
    decreases i - k,
{
    if k < i {
        first_with_the_ids_is_found(devices, vendor, device, i, k + 1);
    }
}

} // verus!
