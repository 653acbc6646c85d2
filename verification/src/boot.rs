//! The order in which the kernel comes up, and what it checks and reports on the way.

use vstd::prelude::*;

use crate::ata::SECTOR_SIZE;
use crate::bytes::same_bytes;
use crate::pci::{Device, CLASS_NETWORK, SUBCLASS_ETHERNET};
use crate::process::scheduler;
use crate::process::scheduler::{SchedModel, Scheduler};
use crate::shell::report;
use crate::shell::report::number_of;
use crate::text;
use crate::text::{append_chars, append_str, chars_of, numeral_of, string_of};

verus! {

/// A stage of the boot.
#[derive(Debug, Clone, Copy, PartialEq, Eq, Structural)]
pub enum Stage {
    /// The serial port.
    Serial,
    /// The segments and the stacks for faults.
    Segments,
    /// The handlers of exceptions and interrupts.
    Handlers,
    /// The legacy interrupt controllers are moved out of the way.
    LegacyControllers,
    /// The page tables.
    Paging,
    /// The allocator of frames.
    Frames,
    /// The Local APIC and its timer.
    Apic,
    /// Interrupts are enabled.
    Interrupts,
    /// The heap.
    Heap,
    /// Stacks with guard pages are tried out.
    GuardPages,
    /// The cores are discovered.
    Cores,
    /// Each core gets its block of data.
    CoreData,
    /// Each core gets its run queue.
    RunQueues,
    /// The other cores are woken.
    WakeCores,
    /// A sector is read.
    DiskRead,
    /// A sector is written and read back.
    DiskWrite,
    /// The volume is mounted.
    Volume,
    /// The bus is enumerated and the network card looked for.
    Bus,
    /// The network card.
    Card,
    /// The network stack: an address, then the self-tests.
    Network,
    /// Address spaces are tried out.
    AddressSpaces,
    /// Programs are loaded.
    Programs,
    /// Processes are created.
    Processes,
    /// The allocator of frames is made available to system calls.
    KernelFrames,
    /// The processes run until all have exited.
    Run,
    /// Back in the kernel's address space.
    KernelSpace,
    /// What the processes did is reported.
    Summary,
    /// System calls from the kernel are tried out.
    SystemCalls,
    /// The self-test of the shell.
    ShellTest,
    /// The shell.
    Shell,
}

/// The place of a stage in the order.
pub open spec fn rank(s: Stage) -> int {
    match s {
        Stage::Serial => 0,
        Stage::Segments => 1,
        Stage::Handlers => 2,
        Stage::LegacyControllers => 3,
        Stage::Paging => 4,
        Stage::Frames => 5,
        Stage::Apic => 6,
        Stage::Interrupts => 7,
        Stage::Heap => 8,
        Stage::GuardPages => 9,
        Stage::Cores => 10,
        Stage::CoreData => 11,
        Stage::RunQueues => 12,
        Stage::WakeCores => 13,
        Stage::DiskRead => 14,
        Stage::DiskWrite => 15,
        Stage::Volume => 16,
        Stage::Bus => 17,
        Stage::Card => 18,
        Stage::Network => 19,
        Stage::AddressSpaces => 20,
        Stage::Programs => 21,
        Stage::Processes => 22,
        Stage::KernelFrames => 23,
        Stage::Run => 24,
        Stage::KernelSpace => 25,
        Stage::Summary => 26,
        Stage::SystemCalls => 27,
        Stage::ShellTest => 28,
        Stage::Shell => 29,
    }
}

/// The stage that follows: the next in the order, but for the card and the network, which are
/// left out if there is no card or it does not come up.
pub open spec fn follows(s: Stage, up: bool, t: Option<Stage>) -> bool {
    match t {
        Some(t) => if (s is Bus || s is Card) && !up {
            t is AddressSpaces
        } else {
            rank(t) == rank(s) + 1
        },
        None => s is Shell,
    }
}

/// The stage that follows. `up` says whether a card was found, or has come up.
pub fn next(s: Stage, up: bool) -> (t: Option<Stage>)
    ensures
        follows(s, up, t),
{
    match s {
        Stage::Serial => Some(Stage::Segments),
        Stage::Segments => Some(Stage::Handlers),
        Stage::Handlers => Some(Stage::LegacyControllers),
        Stage::LegacyControllers => Some(Stage::Paging),
        Stage::Paging => Some(Stage::Frames),
        Stage::Frames => Some(Stage::Apic),
        Stage::Apic => Some(Stage::Interrupts),
        Stage::Interrupts => Some(Stage::Heap),
        Stage::Heap => Some(Stage::GuardPages),
        Stage::GuardPages => Some(Stage::Cores),
        Stage::Cores => Some(Stage::CoreData),
        Stage::CoreData => Some(Stage::RunQueues),
        Stage::RunQueues => Some(Stage::WakeCores),
        Stage::WakeCores => Some(Stage::DiskRead),
        Stage::DiskRead => Some(Stage::DiskWrite),
        Stage::DiskWrite => Some(Stage::Volume),
        Stage::Volume => Some(Stage::Bus),
        Stage::Bus => if up {
            Some(Stage::Card)
        } else {
            Some(Stage::AddressSpaces)
        },
        Stage::Card => if up {
            Some(Stage::Network)
        } else {
            Some(Stage::AddressSpaces)
        },
        Stage::Network => Some(Stage::AddressSpaces),
        Stage::AddressSpaces => Some(Stage::Programs),
        Stage::Programs => Some(Stage::Processes),
        Stage::Processes => Some(Stage::KernelFrames),
        Stage::KernelFrames => Some(Stage::Run),
        Stage::Run => Some(Stage::KernelSpace),
        Stage::KernelSpace => Some(Stage::Summary),
        Stage::Summary => Some(Stage::SystemCalls),
        Stage::SystemCalls => Some(Stage::ShellTest),
        Stage::ShellTest => Some(Stage::Shell),
        Stage::Shell => None,
    }
}

/// Whether stage `b` relies on stage `a`.
pub open spec fn relies(b: Stage, a: Stage) -> bool {
    match b {
        // The handler of double faults runs on a stack that the segments define.
        Stage::Handlers => a is Segments,
        // The registers of the APIC have to be mapped.
        Stage::Apic => a is Paging || a is Frames,
        Stage::Interrupts => a is Apic || a is Handlers,
        Stage::Heap => a is Paging || a is Frames,
        Stage::GuardPages => a is Heap,
        // Discovery allocates, and asks the APIC for the core's own id.
        Stage::Cores => a is Heap || a is Apic,
        Stage::CoreData => a is Cores,
        Stage::RunQueues => a is CoreData,
        // A core looks for its data and its queue as soon as it runs.
        Stage::WakeCores => a is CoreData || a is RunQueues,
        Stage::Card => a is Bus || a is Paging || a is Frames,
        Stage::Network => a is Card,
        Stage::Processes => a is Programs,
        // Processes spawn others from system calls, which need frames.
        Stage::Run => a is Processes || a is KernelFrames || a is Interrupts,
        Stage::KernelSpace => a is Run,
        Stage::ShellTest => a is Volume || a is Heap,
        _ => false,
    }
}

/// A stage comes after those that it relies on.
pub proof fn prerequisites_come_first(a: Stage, b: Stage)
    requires
        relies(b, a),
    ensures
        rank(a) < rank(b),
{
}

/// The boot goes forward: each stage is later than the one before, so it ends, and it ends in
/// the shell. Only the card and the network are ever left out.
pub proof fn boot_reaches_the_shell(s: Stage, up: bool, t: Option<Stage>)
    requires
        follows(s, up, t),
    ensures
        t is None <==> s is Shell,
        t matches Some(t) ==> rank(s) < rank(t) <= rank(Stage::Shell),
        t matches Some(t) ==> forall|x: Stage|
            rank(s) < #[trigger] rank(x) < rank(t) ==> x is Card || x is Network,
{
}

// Checks.

/// Whether a sector ends with the signature of a boot sector.
pub fn mbr_signature_valid(sector: &Vec<u8>) -> (ok: bool)
    requires
        sector@.len() == SECTOR_SIZE,
    ensures
        ok == (sector@[510] == 0x55 && sector@[511] == 0xAA),
{
    sector[510] == 0x55 && sector[511] == 0xAA
}

/// The tag of the sector that is written.
pub open spec fn scratch_tag() -> Seq<u8> {
    seq![0x41u8, 0x45, 0x54, 0x48, 0x45, 0x52, 0x31, 0x33]
}

/// The sector that is written: a tag, and then a ramp, so that no byte can be wrong unnoticed.
pub open spec fn scratch_bytes() -> Seq<u8> {
    Seq::new(
        512,
        |i: int|
            if i < 8 {
                scratch_tag()[i]
            } else {
                (i % 256) as u8
            },
    )
}

/// The sector that is written to try out the disk.
pub fn scratch_sector() -> (sector: Vec<u8>)
    ensures
        sector@ == scratch_bytes(),
{
    let tag: [u8; 8] = [0x41, 0x45, 0x54, 0x48, 0x45, 0x52, 0x31, 0x33];
    assert(tag@ =~= scratch_tag());
    let mut sector: Vec<u8> = Vec::new();
    let mut i: usize = 0;
    while i < SECTOR_SIZE
        invariant
            i <= SECTOR_SIZE,
            SECTOR_SIZE == 512,
            tag@ == scratch_tag(),
            sector@ == scratch_bytes().take(i as int),
        decreases SECTOR_SIZE - i,
    {
        if i < 8 {
            sector.push(tag[i]);
        } else {
            sector.push((i % 256) as u8);
        }
        assert(sector@ =~= scratch_bytes().take(i + 1));
        i = i + 1;
    }
    assert(sector@ =~= scratch_bytes());
    sector
}

/// Whether what was read back is what was written.
pub fn round_trip_matches(back: &Vec<u8>) -> (ok: bool)
    ensures
        ok == (back@ == scratch_bytes()),
{
    same_bytes(back, &scratch_sector())
}

/// Whether a function of the bus is an Ethernet controller.
pub fn is_ethernet(d: &Device) -> (yes: bool)
    ensures
        yes == (d.class == CLASS_NETWORK && d.subclass == SUBCLASS_ETHERNET),
{
    d.class == CLASS_NETWORK && d.subclass == SUBCLASS_ETHERNET
}

// Reports.

/// A number in hexadecimal, with zeros before it up to four digits.
pub open spec fn four_digits(n: nat) -> Seq<char> {
    if n < 0x10 {
        "000"@ + text::numeral(n, 16)
    } else if n < 0x100 {
        "00"@ + text::numeral(n, 16)
    } else if n < 0x1000 {
        "0"@ + text::numeral(n, 16)
    } else {
        text::numeral(n, 16)
    }
}

/// A number in hexadecimal, with zeros before it up to four digits.
fn four_digits_of(n: u16) -> (t: Vec<char>)
    ensures
        t@ == four_digits(n as nat),
{
    let digits: Vec<char> = numeral_of(n as u64, 16);
    let mut t: Vec<char> = if n < 0x10 {
        chars_of("000")
    } else if n < 0x100 {
        chars_of("00")
    } else if n < 0x1000 {
        chars_of("0")
    } else {
        return digits;
    };
    append_chars(&mut t, &digits);
    t
}

/// The line that reports a function of the bus.
pub open spec fn device_text(d: Device) -> Seq<char> {
    "[pci]   "@ + report::two_digits(d.address.bus) + ":"@ + report::two_digits(d.address.device)
        + "."@ + report::number(d.address.function as nat) + "  "@ + four_digits(d.vendor_id as nat)
        + ":"@ + four_digits(d.device_id as nat) + "  class "@ + report::two_digits(d.class) + "."@
        + report::two_digits(d.subclass) + "."@ + report::two_digits(d.prog_if) + (if d.class
        == CLASS_NETWORK && d.subclass == SUBCLASS_ETHERNET {
        "  <- Ethernet controller"@
    } else {
        ""@
    }) + "\n"@
}

/// The line that reports a function of the bus.
pub fn device_line(d: &Device) -> (line: String)
    ensures
        line@ == device_text(*d),
{
    let mut t: Vec<char> = chars_of("[pci]   ");
    append_chars(&mut t, &report::two_digits_of(d.address.bus));
    append_str(&mut t, ":");
    append_chars(&mut t, &report::two_digits_of(d.address.device));
    append_str(&mut t, ".");
    append_chars(&mut t, &number_of(d.address.function as u64));
    append_str(&mut t, "  ");
    append_chars(&mut t, &four_digits_of(d.vendor_id));
    append_str(&mut t, ":");
    append_chars(&mut t, &four_digits_of(d.device_id));
    append_str(&mut t, "  class ");
    append_chars(&mut t, &report::two_digits_of(d.class));
    append_str(&mut t, ".");
    append_chars(&mut t, &report::two_digits_of(d.subclass));
    append_str(&mut t, ".");
    append_chars(&mut t, &report::two_digits_of(d.prog_if));
    if is_ethernet(d) {
        append_str(&mut t, "  <- Ethernet controller");
    } else {
        append_str(&mut t, "");
    }
    append_str(&mut t, "\n");
    string_of(&t)
}

/// What is reported of the processes that have run.
pub open spec fn summary_text(m: SchedModel) -> Seq<char> {
    "[sched] "@ + report::total(m.counters.exited) + " processes ran with "@ + report::total(
        m.counters.yielded,
    ) + " yields and "@ + report::total(m.counters.preempted) + " preemptions (last on L4 0x"@
        + text::numeral(m.counters.last_l4 as nat, 16) + ", kernel L4 0x"@ + text::numeral(
        m.counters.kernel_l4 as nat,
        16,
    ) + "); back on the kernel space\n"@ + "[sched] wait: "@ + report::total(m.counters.waited)
        + " parent(s) collected a child, last child exit code = "@ + report::total(
        m.counters.last_waited_code,
    ) + "\n"@ + "[sched] spawn: "@ + report::total(m.counters.spawned)
        + " child process(es) created at runtime via the spawn syscall\n"@
}

/// Reports the processes that have run.
pub fn boot_continue(s: &Scheduler) -> (summary: String)
    ensures
        summary@ == summary_text(s@),
{
    let mut t: Vec<char> = chars_of("[sched] ");
    append_chars(&mut t, &number_of(scheduler::processes_exited(s)));
    append_str(&mut t, " processes ran with ");
    append_chars(&mut t, &number_of(scheduler::processes_yielded(s)));
    append_str(&mut t, " yields and ");
    append_chars(&mut t, &number_of(scheduler::processes_preempted(s)));
    append_str(&mut t, " preemptions (last on L4 0x");
    append_chars(&mut t, &numeral_of(scheduler::last_user_run_l4(s), 16));
    append_str(&mut t, ", kernel L4 0x");
    append_chars(&mut t, &numeral_of(scheduler::kernel_l4(s), 16));
    append_str(&mut t, "); back on the kernel space\n");
    append_str(&mut t, "[sched] wait: ");
    append_chars(&mut t, &number_of(scheduler::processes_waited(s)));
    append_str(&mut t, " parent(s) collected a child, last child exit code = ");
    append_chars(&mut t, &number_of(scheduler::last_waited_code(s)));
    append_str(&mut t, "\n");
    append_str(&mut t, "[sched] spawn: ");
    append_chars(&mut t, &number_of(scheduler::processes_spawned(s)));
    append_str(&mut t, " child process(es) created at runtime via the spawn syscall\n");
    string_of(&t)
}

} // verus!
