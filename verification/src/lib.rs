//! Aether: the verified core of a small x86-64 teaching kernel.
//!
//! Everything in this crate computes on plain values. The program around it performs the port
//! accesses, the memory-mapped reads and writes and the context switches, hands the results in
//! and carries out what the functions here decide.

pub mod acpi;
pub mod allocator;
pub mod apic;
pub mod ata;
pub mod boot;
pub mod bytes;
pub mod disk;
pub mod e1000;
pub mod elf;
pub mod fat;
pub mod fs;
pub mod gdt;
pub mod interrupts;
pub mod memory;
pub mod net;
pub mod pci;
pub mod percpu;
pub mod process;
pub mod sched;
pub mod shell;
pub mod smp;
pub mod syscall;
pub mod task;
pub mod text;
