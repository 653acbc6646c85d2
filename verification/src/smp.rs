//! Waking an application processor.

use vstd::prelude::*;

use crate::acpi::CpuCore;

verus! {

/// The page where an application processor begins to run, in real mode.
pub const AP_TRAMPOLINE_PHYS: u64 = 0x8000;

/// The number of that page, by which the processor is told where to begin.
pub const AP_TRAMPOLINE_VECTOR: u8 = 8;

/// The offset in that page of the word by which it tells that it runs.
pub const AP_MARKER_OFFSET: u64 = 0xFF0;

/// What it writes there.
pub const AP_MARKER_ALIVE: u32 = 0xA11E;

/// How often the word is looked at.
pub const MARKER_POLLS: u32 = 100;

/// The code that an application processor begins with.
pub open spec fn trampoline_code() -> Seq<u8> {
    seq![
        0xFA,  // cli
        0x31, 0xC0,  // xor ax, ax
        0x8E, 0xD8,  // mov ds, ax
        0xC7, 0x06, 0xF0, 0x8F, 0x1E, 0xA1,  // mov word ptr [0x8FF0], 0xA11E
        0xF4,  // hlt
        0xEB, 0xFD,  // jmp to the hlt
    ]
}

/// The code that an application processor begins with: it tells that it runs and halts.
pub fn trampoline() -> (code: [u8; 14])
    ensures
        code@ == trampoline_code(),
{
    let code: [u8; 14] = [
        0xFA,
        0x31,
        0xC0,
        0x8E,
        0xD8,
        0xC7,
        0x06,
        0xF0,
        0x8F,
        0x1E,
        0xA1,
        0xF4,
        0xEB,
        0xFD,
    ];
    assert(code@ =~= trampoline_code());
    code
}

/// The code fits below the word that it writes, writes what is waited for where it is waited
/// for, and is where the processor begins.
pub proof fn trampoline_writes_the_marker()
    ensures
        trampoline_code().len() <= AP_MARKER_OFFSET,
        crate::bytes::le16(trampoline_code(), 7) == AP_TRAMPOLINE_PHYS + AP_MARKER_OFFSET,
        crate::bytes::le16(trampoline_code(), 9) == AP_MARKER_ALIVE,
        AP_TRAMPOLINE_VECTOR * 4096 == AP_TRAMPOLINE_PHYS,
{
}

/// What is to be done next to wake a processor.
#[derive(Debug, Clone, Copy, PartialEq, Eq, Structural)]
pub enum ApAction {
    /// Copy the code to its page and clear the marker.
    Prepare,
    /// Send the INIT interrupt to this processor.
    SendInit(u8),
    /// Send the startup interrupt to this processor, with this vector.
    SendStartup(u8, u8),
    /// Sleep so many microseconds.
    Sleep(u32),
    /// Read the marker.
    ReadMarker,
    /// The processor runs, or has not told so in time.
    Over(bool),
}

/// The waking of a processor.
pub struct BootAp {
    target: u8,
    /// The actions that have been asked for.
    done: u32,
}

/// The state of a waking.
pub struct BootModel {
    pub target: u8,
    pub done: u32,
}

impl View for BootAp {
    type V = BootModel;

    closed spec fn view(&self) -> BootModel {
        BootModel { target: self.target, done: self.done }
    }
}

/// The action at place `n`: the startup sequence, then reading the marker and sleeping in turn.
pub open spec fn planned(target: u8, n: u32) -> ApAction {
    if n == 0 {
        ApAction::Prepare
    } else if n == 1 {
        ApAction::SendInit(target)
    } else if n == 2 {
        ApAction::Sleep(10_000)
    } else if n == 3 || n == 5 {
        ApAction::SendStartup(target, AP_TRAMPOLINE_VECTOR)
    } else if n == 4 {
        ApAction::Sleep(200)
    } else if n >= 6 + 2 * MARKER_POLLS {
        ApAction::Over(false)
    } else if n % 2 == 0 {
        ApAction::ReadMarker
    } else {
        ApAction::Sleep(1_000)
    }
}

/// Whether the last action was to read the marker, and it told that the processor runs.
pub open spec fn reported(b: BootModel, marker: u32) -> bool {
    b.done > 0 && planned(b.target, (b.done - 1) as u32) == ApAction::ReadMarker && marker
        == AP_MARKER_ALIVE
}

/// What follows after the last action, with what it read of the marker.
pub open spec fn waking(b: BootModel, woke: bool, marker: u32) -> (BootModel, bool, ApAction) {
    if reported(b, marker) {
        (b, true, ApAction::Over(true))
    } else if b.done >= 6 + 2 * MARKER_POLLS {
        (b, woke, ApAction::Over(false))
    } else {
        (BootModel { done: (b.done + 1) as u32, ..b }, woke, planned(b.target, b.done))
    }
}

/// Begins to wake the first application processor; `None` if there is none.
pub fn boot_one_ap(aps: &Vec<CpuCore>) -> (b: Option<BootAp>)
    ensures
        match b {
            Some(b) => aps@.len() > 0 && b@ == (BootModel { target: aps@[0].apic_id, done: 0 }),
            None => aps@.len() == 0,
        },
{
    if aps.len() == 0 {
        None
    } else {
        Some(BootAp { target: aps[0].apic_id, done: 0 })
    }
}

impl BootAp {
    /// The next action. `marker` is what was read if the last one was to read it; `woke` is set
    /// once a processor runs.
    pub fn step(&mut self, woke: &mut bool, marker: u32) -> (action: ApAction)
        ensures
            (final(self)@, *final(woke), action) == waking(old(self)@, *old(woke), marker),
    {
        let n: u32 = self.done;
        if n >= 7 && n <= 6 + 2 * MARKER_POLLS && n % 2 == 1 && marker == AP_MARKER_ALIVE {
            *woke = true;
            return ApAction::Over(true);
        }
        if n >= 6 + 2 * MARKER_POLLS {
            return ApAction::Over(false);
        }
        self.done = n + 1;
        if n == 0 {
            ApAction::Prepare
        } else if n == 1 {
            ApAction::SendInit(self.target)
        } else if n == 2 {
            ApAction::Sleep(10_000)
        } else if n == 3 || n == 5 {
            ApAction::SendStartup(self.target, AP_TRAMPOLINE_VECTOR)
        } else if n == 4 {
            ApAction::Sleep(200)
        } else if n % 2 == 0 {
            ApAction::ReadMarker
        } else {
            ApAction::Sleep(1_000)
        }
    }
}

/// Whether a processor has told that it runs.
pub fn ap_woke(woke: &bool) -> (yes: bool)
    ensures
        yes == *woke,
{
    *woke
}

/// The startup sequence is the one that processors ask for: INIT, 10 milliseconds, startup, 200
/// microseconds, startup.
pub proof fn startup_sequence(target: u8)
    ensures
        planned(target, 1) == ApAction::SendInit(target),
        planned(target, 2) == ApAction::Sleep(10_000),
        planned(target, 3) == ApAction::SendStartup(target, AP_TRAMPOLINE_VECTOR),
        planned(target, 4) == ApAction::Sleep(200),
        planned(target, 5) == ApAction::SendStartup(target, AP_TRAMPOLINE_VECTOR),
        forall|n: u32| 6 <= n < 6 + 2 * MARKER_POLLS ==> #[trigger] planned(target, n)
            == ApAction::ReadMarker || planned(target, n) == ApAction::Sleep(1_000),
{
}

/// The waking ends, and reports success only after the marker has been read.
pub proof fn waking_ends(b: BootModel, woke: bool, marker: u32)
    ensures
        waking(b, woke, marker).2 == ApAction::Over(true) <==> reported(b, marker),
        !(waking(b, woke, marker).2 is Over) ==> waking(b, woke, marker).0.done == b.done + 1
            && b.done < 6 + 2 * MARKER_POLLS,
        waking(b, woke, marker).1 == (woke || reported(b, marker)),
{
}

/// A core is woken by an INIT, a pause of ten milliseconds and two startup messages with a pause
/// of two hundred microseconds between them, for page 8. After that its mark is looked for every
/// millisecond, a hundred times.
pub proof fn core_is_woken_step_by_step(b: BootModel, woke: bool, marker: u32)
    requires
        b.done < 206,
        marker != 0xA11E,
    ensures
        ({
            let (after, woke2, action) = waking(b, woke, marker);
            &&& after.target == b.target && after.done == b.done + 1 && woke2 == woke
            &&& b.done == 0 ==> action == ApAction::Prepare
            &&& b.done == 1 ==> action == ApAction::SendInit(b.target)
            &&& b.done == 2 ==> action == ApAction::Sleep(10_000)
            &&& b.done == 3 || b.done == 5 ==> action == ApAction::SendStartup(b.target, 8)
            &&& b.done == 4 ==> action == ApAction::Sleep(200)
            &&& b.done >= 6 && b.done % 2 == 0 ==> action == ApAction::ReadMarker
            &&& b.done >= 6 && b.done % 2 == 1 ==> action == ApAction::Sleep(1_000)
        }),
{
}

/// The mark that was read tells that the core runs, whenever it is seen; a mark that was not read
/// tells nothing, and without one the attempt ends.
pub proof fn mark_tells_that_the_core_runs(b: BootModel, woke: bool, marker: u32)
    ensures
        7 <= b.done <= 205 && b.done % 2 == 1 && marker == 0xA11E ==> waking(b, woke, marker) == (
            b,
            true,
            ApAction::Over(true),
        ),
        b.done < 206 && !(b.done >= 7 && b.done % 2 == 1) ==> !(waking(
            b,
            woke,
            marker,
        ).2 is Over) && waking(b, woke, marker).1 == woke,
        b.done >= 206 ==> waking(b, woke, marker) == (b, woke, ApAction::Over(false)),
{
}

} // verus!
