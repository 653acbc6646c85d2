//! The Intel e1000 network card: its registers and what they say.

use vstd::prelude::*;

use crate::memory::PAGE_SIZE;
use crate::pci::Device;
use crate::pci;

verus! {

/// Where the registers are mapped.
pub const E1000_VIRT_BASE: u64 = 0x3280_0000_0000;

/// The size of the register block.
pub const E1000_MMIO_SIZE: u64 = 0x2_0000;

/// Offset of the device status register.
pub const REG_STATUS: u64 = 0x0008;

/// Offset of the low half of the card's own address.
pub const REG_RAL0: u64 = 0x5400;

/// Offset of the high half of the card's own address.
pub const REG_RAH0: u64 = 0x5404;

/// The card, once its registers are mapped.
#[derive(Debug, Clone, Copy)]
pub struct E1000 {
    /// Where its registers are mapped.
    pub mmio_base: u64,
    pub mac: [u8; 6],
}

/// A page of the register block and the frame that it is mapped to.
#[derive(Debug, Clone, Copy, PartialEq, Eq, Structural)]
pub struct MmioPage {
    pub page: u64,
    pub frame: u64,
}

/// The pages of the register block at `phys_base`.
pub open spec fn mmio_pages(phys_base: u64) -> Seq<MmioPage> {
    Seq::new(
        32,
        |i: int|
            MmioPage {
                page: (E1000_VIRT_BASE + i * 4096) as u64,
                frame: (phys_base + i * 4096) as u64,
            },
    )
}

/// The pages to map, uncacheable, for the register block at `phys_base`.
pub fn map_mmio(phys_base: u64) -> (pages: Vec<MmioPage>)
    requires
        phys_base + E1000_MMIO_SIZE <= u64::MAX,
    ensures
        pages@ == mmio_pages(phys_base),
{
    let mut pages: Vec<MmioPage> = Vec::new();
    let n: u64 = E1000_MMIO_SIZE / PAGE_SIZE;
    let mut i: u64 = 0;
    while i < n
        invariant
            i <= n,
            n == 32,
            phys_base + E1000_MMIO_SIZE <= u64::MAX,
            pages@ == mmio_pages(phys_base).take(i as int),
        decreases n - i,
    {
        pages.push(
            MmioPage { page: E1000_VIRT_BASE + i * PAGE_SIZE, frame: phys_base + i * PAGE_SIZE },
        );
        assert(pages@ =~= mmio_pages(phys_base).take(i + 1));
        i = i + 1;
    }
    assert(pages@ =~= mmio_pages(phys_base));
    pages
}

/// The address of the card from its two registers.
pub open spec fn mac_of(ral: u32, rah: u32) -> Seq<u8> {
    seq![
        (ral % 256) as u8,
        (ral / 0x100 % 256) as u8,
        (ral / 0x1_0000 % 256) as u8,
        (ral / 0x100_0000) as u8,
        (rah % 256) as u8,
        (rah / 0x100 % 256) as u8,
    ]
}

/// Where the card's registers are in memory; `None` if they are not.
pub fn register_base(header: &[u32; 16]) -> (base: Option<u64>)
    ensures
        base == pci::memory_base(header@[4], header@[5]),
{
    Device::mmio_bar(header, 0)
}

/// The card, with its address from the two registers that hold it.
pub fn init(ral: u32, rah: u32) -> (card: E1000)
    ensures
        card.mmio_base == E1000_VIRT_BASE,
        card.mac@ == mac_of(ral, rah),
{
    let mac: [u8; 6] = [
        (ral % 256) as u8,
        (ral / 0x100 % 256) as u8,
        (ral / 0x1_0000 % 256) as u8,
        (ral / 0x100_0000) as u8,
        (rah % 256) as u8,
        (rah / 0x100 % 256) as u8,
    ];
    assert(mac@ =~= mac_of(ral, rah));
    E1000 { mmio_base: E1000_VIRT_BASE, mac }
}

/// Whether the card's address has been filled in.
pub fn address_valid(rah: u32) -> (yes: bool)
    ensures
        yes == (rah >= 0x8000_0000),
{
    rah >= 0x8000_0000
}

impl E1000 {
    /// Where the register at `offset` is mapped.
    pub fn register(&self, offset: u64) -> (addr: u64)
        requires
            self.mmio_base + offset <= u64::MAX,
        ensures
            addr == self.mmio_base + offset,
    {
        self.mmio_base + offset
    }

    /// The card's address.
    pub fn mac(&self) -> (mac: [u8; 6])
        ensures
            mac == self.mac,
    {
        self.mac
    }

    /// Whether the link is up, from the status register.
    pub fn link_up(status: u32) -> (yes: bool)
        ensures
            yes == (status / 2 % 2 == 1),
    {
        status / 2 % 2 == 1
    }

    /// Whether the link is full-duplex, from the status register.
    pub fn full_duplex(status: u32) -> (yes: bool)
        ensures
            yes == (status % 2 == 1),
    {
        status % 2 == 1
    }
}

/// The card, if there is one.
pub fn device(card: &Option<E1000>) -> (r: Option<E1000>)
    ensures
        r == *card,
{
    *card
}

/// Whether there is a card.
pub fn present(card: &Option<E1000>) -> (yes: bool)
    ensures
        yes == (*card is Some),
{
    card.is_some()
}

/// Every register is mapped: its page of the block leads to its frame.
pub proof fn registers_are_mapped(phys_base: u64, offset: u64)
    requires
        offset < E1000_MMIO_SIZE,
        phys_base + E1000_MMIO_SIZE <= u64::MAX,
    ensures
        ({
            let i = (offset / 4096) as int;
            let p = mmio_pages(phys_base)[i];
            &&& 0 <= i < mmio_pages(phys_base).len()
            &&& p.page + offset % 4096 == E1000_VIRT_BASE + offset
            &&& p.frame + offset % 4096 == phys_base + offset
        }),
{
    let i = (offset / 4096) as int;
    assert(mmio_pages(phys_base)[i].page == E1000_VIRT_BASE + i * 4096);
    assert(mmio_pages(phys_base)[i].frame == phys_base + i * 4096);
}

/// The two address registers hold the six bytes of the MAC address, the lowest first; what else
/// the second holds does not matter.
pub proof fn address_registers_hold_the_mac(mac: Seq<u8>, flags: u16)
    requires
        mac.len() == 6,
    ensures
        mac_of(
            (mac[0] + mac[1] * 0x100 + mac[2] * 0x1_0000 + mac[3] * 0x100_0000) as u32,
            (mac[4] + mac[5] * 0x100 + flags * 0x1_0000) as u32,
        ) == mac,
{
    let ral = mac[0] + mac[1] * 0x100 + mac[2] * 0x1_0000 + mac[3] * 0x100_0000;
    let rah = mac[4] + mac[5] * 0x100 + flags * 0x1_0000;
    assert(ral / 0x100 == mac[1] + mac[2] * 0x100 + mac[3] * 0x1_0000);
    assert(ral / 0x1_0000 == mac[2] + mac[3] * 0x100);
    assert(ral / 0x100_0000 == mac[3]);
    assert(rah / 0x100 == mac[5] + flags * 0x100);
    assert(mac_of(ral as u32, rah as u32) =~= mac);
}

} // verus!
