//! Interrupted contexts, the vectors of the hardware interrupts, and what a timer tick leads to.

use vstd::prelude::*;

verus! {

/// The first vector of the primary interrupt controller, just above the CPU's exceptions.
pub const PIC_1_OFFSET: u8 = 32;

/// The first vector of the secondary interrupt controller.
pub const PIC_2_OFFSET: u8 = 40;

/// What the CPU saves when it is interrupted.
#[derive(Debug, Clone, Copy, PartialEq, Eq, Structural)]
pub struct InterruptFrame {
    pub instruction_pointer: u64,
    pub code_segment: u64,
    pub cpu_flags: u64,
    pub stack_pointer: u64,
    pub stack_segment: u64,
}

/// The full register state of an interrupted context.
#[derive(Debug, Clone, Copy, PartialEq, Eq, Structural)]
pub struct TrapFrame {
    pub rax: u64,
    pub rbx: u64,
    pub rcx: u64,
    pub rdx: u64,
    pub rsi: u64,
    pub rdi: u64,
    pub rbp: u64,
    pub r8: u64,
    pub r9: u64,
    pub r10: u64,
    pub r11: u64,
    pub r12: u64,
    pub r13: u64,
    pub r14: u64,
    pub r15: u64,
    pub iframe: InterruptFrame,
}

/// A context that starts at `iframe` with every general-purpose register zero.
pub open spec fn fresh_frame(iframe: InterruptFrame) -> TrapFrame {
    TrapFrame {
        rax: 0,
        rbx: 0,
        rcx: 0,
        rdx: 0,
        rsi: 0,
        rdi: 0,
        rbp: 0,
        r8: 0,
        r9: 0,
        r10: 0,
        r11: 0,
        r12: 0,
        r13: 0,
        r14: 0,
        r15: 0,
        iframe,
    }
}

impl TrapFrame {
    /// The context of a process that has not run yet.
    pub fn new(iframe: InterruptFrame) -> (tf: TrapFrame)
        ensures
            tf == fresh_frame(iframe),
    {
        TrapFrame {
            rax: 0,
            rbx: 0,
            rcx: 0,
            rdx: 0,
            rsi: 0,
            rdi: 0,
            rbp: 0,
            r8: 0,
            r9: 0,
            r10: 0,
            r11: 0,
            r12: 0,
            r13: 0,
            r14: 0,
            r15: 0,
            iframe,
        }
    }
}

/// Whether a context was interrupted in ring 3: the low two bits of its code segment.
pub open spec fn in_user_mode(f: InterruptFrame) -> bool {
    f.code_segment % 4 == 3
}

/// Whether a context was interrupted in ring 3.
pub fn from_ring3(f: &InterruptFrame) -> (yes: bool)
    ensures
        yes == in_user_mode(*f),
{
    f.code_segment % 4 == 3
}

/// The hardware interrupts that are handled.
#[derive(Debug, Clone, Copy, PartialEq, Eq, Structural)]
pub enum InterruptIndex {
    Timer,
    Keyboard,
}

/// The vector of a hardware interrupt.
pub open spec fn vector(i: InterruptIndex) -> u8 {
    match i {
        InterruptIndex::Timer => PIC_1_OFFSET,
        InterruptIndex::Keyboard => (PIC_1_OFFSET + 1) as u8,
    }
}

impl InterruptIndex {
    /// The vector of the interrupt.
    pub fn as_u8(self) -> (v: u8)
        ensures
            v == vector(self),
    {
        match self {
            InterruptIndex::Timer => PIC_1_OFFSET,
            InterruptIndex::Keyboard => PIC_1_OFFSET + 1,
        }
    }

    /// The vector of the interrupt as an index.
    pub fn as_usize(self) -> (v: usize)
        ensures
            v == vector(self),
    {
        self.as_u8() as usize
    }
}

/// The timer interrupts since boot.
#[derive(Debug, Clone, Copy, PartialEq, Eq, Structural)]
pub struct Timer {
    pub ticks: u64,
}

/// What a tick leads to.
#[derive(Debug, Clone, Copy, PartialEq, Eq, Structural)]
pub struct Tick {
    /// The number of the tick.
    pub count: u64,
    /// Whether it is worth a line in the log: the first, and every hundredth.
    pub logged: bool,
    /// Whether a user process was interrupted, which is then preempted; otherwise the kernel's
    /// own threads are scheduled.
    pub preempts: bool,
}

/// What the next tick leads to.
pub open spec fn tick_of(t: Timer, f: InterruptFrame) -> Tick {
    let count = t.ticks.wrapping_add(1);
    Tick { count, logged: count == 1 || count % 100 == 0, preempts: in_user_mode(f) }
}

/// Counts a timer interrupt and says what it leads to.
pub fn timer_dispatch(timer: &mut Timer, tf: &TrapFrame) -> (tick: Tick)
    ensures
        tick == tick_of(*old(timer), tf.iframe),
        final(timer).ticks == tick.count,
{
    let count: u64 = timer.ticks.wrapping_add(1);
    timer.ticks = count;
    Tick { count, logged: count == 1 || count % 100 == 0, preempts: from_ring3(&tf.iframe) }
}

/// The number of timer interrupts since boot.
pub fn timer_ticks(timer: &Timer) -> (n: u64)
    ensures
        n == timer.ticks,
{
    timer.ticks
}

/// A tick counts one up, is told of the first time and every hundredth, and takes the CPU away
/// from user mode only, which the lowest two bits of the code segment tell.
pub proof fn tick_counts_and_preempts(t: Timer, f: InterruptFrame)
    requires
        t.ticks < u64::MAX,
    ensures
        tick_of(t, f).count == t.ticks + 1,
        tick_of(t, f).logged <==> t.ticks == 0 || (t.ticks + 1) % 100 == 0,
        tick_of(t, f).preempts <==> f.code_segment % 2 == 1 && f.code_segment / 2 % 2 == 1,
{
}

} // verus!
