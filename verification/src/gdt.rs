//! The segments of the kernel and of user programs.

use vstd::prelude::*;
use x86_64::structures::gdt::{Descriptor, GlobalDescriptorTable};

verus! {

/// The slot of the interrupt stack table with the stack for double faults.
pub const DOUBLE_FAULT_IST_INDEX: u16 = 0;

/// The size of the stack for double faults.
pub const DOUBLE_FAULT_STACK_SIZE: usize = 20480;

/// The size of the stack for interrupts from ring 3.
pub const PRIVILEGE_STACK_SIZE: usize = 20480;

/// The descriptor of a 64-bit code segment of the kernel.
pub const KERNEL_CODE: u64 = 0x00AF_9B00_0000_FFFF;

/// The descriptor of a 64-bit code segment of ring 3.
pub const USER_CODE: u64 = 0x00AF_FB00_0000_FFFF;

/// The descriptor of a data segment of ring 3.
pub const USER_DATA: u64 = 0x00CF_F300_0000_FFFF;

/// The type `x86_64::structures::gdt::GlobalDescriptorTable`.
#[verifier::external_type_specification]
#[verifier::external_body]
pub struct ExGlobalDescriptorTable(GlobalDescriptorTable);

/// The words of a descriptor table, from the null descriptor on.
pub uninterp spec fn words(table: GlobalDescriptorTable) -> Seq<u64>;

/// The selector of the descriptor at `index` whose first word is `word`: its index, and its
/// privilege level in the lowest two bits.
pub open spec fn selector(index: nat, word: u64) -> u16 {
    (index * 8 + word / 0x2000_0000_0000 % 4) as u16
}

/// `x86_64::structures::gdt::GlobalDescriptorTable::new` makes a table with the null descriptor.
#[verifier::external_body]
fn new_table() -> (table: GlobalDescriptorTable)
    ensures
        words(table) == seq![0u64],
{
    GlobalDescriptorTable::new()
}

/// `x86_64::structures::gdt::GlobalDescriptorTable::add_entry` adds a descriptor to a table of at
/// most eight words, and returns its selector. It panics if there is no room.
///
/// The descriptor is a code or data segment, of one word, or, with `high`, a system segment, of
/// two.
#[verifier::external_body]
fn add_entry(table: &mut GlobalDescriptorTable, low: u64, high: Option<u64>) -> (r: u16)
    requires
        words(*old(table)).len() + (if high is Some {
            2int
        } else {
            1int
        }) <= 8,
    ensures
        r == selector(words(*old(table)).len(), low),
        words(*final(table)) == match high {
            Some(high) => words(*old(table)).push(low).push(high),
            None => words(*old(table)).push(low),
        },
{
    let descriptor = match high {
        Some(high) => Descriptor::SystemSegment(low, high),
        None => Descriptor::UserSegment(low),
    };
    table.add_entry(descriptor).0
}

/// `x86_64::structures::gdt::Descriptor::kernel_code_segment` is a present, flat 64-bit code
/// segment of privilege level 0.
#[verifier::external_body]
fn kernel_code_segment() -> (word: u64)
    ensures
        word == KERNEL_CODE,
{
    match Descriptor::kernel_code_segment() {
        Descriptor::UserSegment(word) => word,
        Descriptor::SystemSegment(word, _) => word,
    }
}

/// `x86_64::structures::gdt::Descriptor::user_code_segment` is a present, flat 64-bit code
/// segment of privilege level 3.
#[verifier::external_body]
fn user_code_segment() -> (word: u64)
    ensures
        word == USER_CODE,
{
    match Descriptor::user_code_segment() {
        Descriptor::UserSegment(word) => word,
        Descriptor::SystemSegment(word, _) => word,
    }
}

/// `x86_64::structures::gdt::Descriptor::user_data_segment` is a present, flat data segment of
/// privilege level 3.
#[verifier::external_body]
fn user_data_segment() -> (word: u64)
    ensures
        word == USER_DATA,
{
    match Descriptor::user_data_segment() {
        Descriptor::UserSegment(word) => word,
        Descriptor::SystemSegment(word, _) => word,
    }
}

/// The selectors of the kernel's descriptor table.
#[derive(Debug, Clone, Copy, PartialEq, Eq, Structural)]
pub struct Selectors {
    pub code_selector: u16,
    pub tss_selector: u16,
    pub user_code_selector: u16,
    pub user_data_selector: u16,
}

/// Builds the kernel's descriptor table, with the task state segment whose descriptor has the
/// words `tss_low` and `tss_high`.
pub fn build(tss_low: u64, tss_high: u64) -> (r: (GlobalDescriptorTable, Selectors))
    ensures
        words(r.0) == seq![0, KERNEL_CODE, tss_low, tss_high, USER_CODE, USER_DATA],
        r.1 == (Selectors {
            code_selector: selector(1, KERNEL_CODE),
            tss_selector: selector(2, tss_low),
            user_code_selector: selector(4, USER_CODE),
            user_data_selector: selector(5, USER_DATA),
        }),
{
    let mut table: GlobalDescriptorTable = new_table();
    let code_selector: u16 = add_entry(&mut table, kernel_code_segment(), None);
    let tss_selector: u16 = add_entry(&mut table, tss_low, Some(tss_high));
    let user_code_selector: u16 = add_entry(&mut table, user_code_segment(), None);
    let user_data_selector: u16 = add_entry(&mut table, user_data_segment(), None);
    assert(words(table) =~= seq![0, KERNEL_CODE, tss_low, tss_high, USER_CODE, USER_DATA]);
    (table, Selectors { code_selector, tss_selector, user_code_selector, user_data_selector })
}

/// The selector of the code segment of ring 3.
pub fn user_code_selector(s: &Selectors) -> (r: u16)
    ensures
        r == s.user_code_selector,
{
    s.user_code_selector
}

/// The selector of the data segment of ring 3.
pub fn user_data_selector(s: &Selectors) -> (r: u16)
    ensures
        r == s.user_data_selector,
{
    s.user_data_selector
}

/// The selector of the kernel's code segment.
pub fn kernel_code_selector(s: &Selectors) -> (r: u16)
    ensures
        r == s.code_selector,
{
    s.code_selector
}

/// The selectors carry their privilege level: 3 for user programs, 0 for the kernel. So what is
/// interrupted in one is told from the other by the lowest two bits.
pub proof fn selectors_carry_the_ring()
    ensures
        selector(1, KERNEL_CODE) == 0x08,
        selector(4, USER_CODE) == 0x23,
        selector(5, USER_DATA) == 0x2B,
{
}

} // verus!
