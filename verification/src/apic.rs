//! The Local APIC: its registers, and the calibration of its timer.

use vstd::prelude::*;

verus! {

/// The model-specific register with the APIC's address.
pub const IA32_APIC_BASE_MSR: u32 = 0x1B;

/// Where the registers are mapped.
pub const LAPIC_VIRT_BASE: u64 = 0x3200_0000_0000;

/// Offset of the id register.
pub const REG_ID: u32 = 0x020;

/// Offset of the version register.
pub const REG_VERSION: u32 = 0x030;

/// Offset of the end-of-interrupt register.
pub const REG_EOI: u32 = 0x0B0;

/// Offset of the spurious interrupt vector register.
pub const REG_SVR: u32 = 0x0F0;

/// Offset of the timer's interrupt register.
pub const REG_LVT_TIMER: u32 = 0x320;

/// Offset of the timer's initial count.
pub const REG_TIMER_INIT_COUNT: u32 = 0x380;

/// Offset of the timer's current count.
pub const REG_TIMER_CUR_COUNT: u32 = 0x390;

/// Offset of the timer's divisor.
pub const REG_TIMER_DIV: u32 = 0x3E0;

/// The bit that enables the APIC in [`REG_SVR`].
pub const SVR_APIC_ENABLE: u32 = 0x100;

/// The vector of spurious interrupts.
pub const SPURIOUS_VECTOR: u8 = 0xFF;

/// The bit that masks an interrupt.
pub const LVT_MASKED: u32 = 0x1_0000;

/// The bit that makes the timer start again by itself.
pub const LVT_TIMER_PERIODIC: u32 = 0x2_0000;

/// The divisor 16.
pub const TIMER_DIV_16: u32 = 3;

/// The vector of the timer.
pub const TIMER_VECTOR: u8 = 32;

/// Ticks of the timer in a second.
pub const TIMER_HZ: u32 = 100;

/// The input clock of the PIT.
pub const PIT_FREQUENCY: u32 = 1_193_182;

/// Data port of the PIT's channel 2.
pub const PIT_CH2_DATA: u16 = 0x42;

/// Command port of the PIT.
pub const PIT_CMD: u16 = 0x43;

/// The command that loads channel 2 for one interval.
pub const PIT_LOAD_CH2: u8 = 0xB0;

/// The port that controls channel 2 and shows its output.
pub const PIT_CH2_CONTROL: u16 = 0x61;

/// The length of the calibration in milliseconds.
pub const CALIB_MS: u32 = 10;

/// The rate that is taken for that of the timer if the calibration measures none.
pub const FALLBACK_RATE: u32 = 10_000_000;

/// The data ports of the two legacy interrupt controllers, in the order in which they are
/// masked.
pub const PIC_DATA_PORTS: (u16, u16) = (0xA1, 0x21);

/// A register and the value to write to it.
#[derive(Debug, Clone, Copy, PartialEq, Eq, Structural)]
pub struct RegWrite {
    pub offset: u32,
    pub value: u32,
}

/// The physical address of the APIC, bits 12 to 51 of [`IA32_APIC_BASE_MSR`].
pub fn physical_base(msr: u64) -> (base: u64)
    ensures
        base == msr % 0x10_0000_0000_0000 - msr % 4096,
{
    assert(msr & 0x000F_FFFF_FFFF_F000 == msr % 0x10_0000_0000_0000 - msr % 4096) by (bit_vector);
    msr & 0x000F_FFFF_FFFF_F000
}

/// The value of [`IA32_APIC_BASE_MSR`] with the APIC enabled, which is bit 11.
pub fn globally_enabled(msr: u64) -> (enabled: u64)
    ensures
        enabled == if msr / 2048 % 2 == 1 {
            msr as int
        } else {
            msr + 2048
        },
{
    assert(msr | 0x800 == if msr / 2048 % 2 == 1 {
        msr as int
    } else {
        msr + 2048
    }) by (bit_vector);
    msr | 0x800
}

/// Enables the APIC.
pub fn enable_lapic() -> (w: RegWrite)
    ensures
        w.offset == REG_SVR,
        w.value == SVR_APIC_ENABLE + SPURIOUS_VECTOR,
{
    RegWrite { offset: REG_SVR, value: SVR_APIC_ENABLE + SPURIOUS_VECTOR as u32 }
}

/// The id of the APIC from [`REG_ID`].
pub fn lapic_id(id: u32) -> (r: u8)
    ensures
        r == id / 0x100_0000,
{
    (id / 0x100_0000) as u8
}

/// The version of the APIC from [`REG_VERSION`].
pub fn version(v: u32) -> (r: u8)
    ensures
        r == v % 256,
{
    (v % 256) as u8
}

/// What starts a calibration: the timer runs freely from its highest count, masked.
pub fn free_running() -> (w: [RegWrite; 3])
    ensures
        w@ == seq![
            RegWrite { offset: REG_TIMER_DIV, value: TIMER_DIV_16 },
            RegWrite { offset: REG_LVT_TIMER, value: LVT_MASKED },
            RegWrite { offset: REG_TIMER_INIT_COUNT, value: u32::MAX },
        ],
{
    let w: [RegWrite; 3] = [
        RegWrite { offset: REG_TIMER_DIV, value: TIMER_DIV_16 },
        RegWrite { offset: REG_LVT_TIMER, value: LVT_MASKED },
        RegWrite { offset: REG_TIMER_INIT_COUNT, value: u32::MAX },
    ];
    assert(w@ =~= seq![
        RegWrite { offset: REG_TIMER_DIV, value: TIMER_DIV_16 },
        RegWrite { offset: REG_LVT_TIMER, value: LVT_MASKED },
        RegWrite { offset: REG_TIMER_INIT_COUNT, value: u32::MAX },
    ]);
    w
}

/// The bytes of the PIT count for the length of the calibration, the low one first.
pub fn pit_count() -> (bytes: (u8, u8))
    ensures
        bytes.0 + bytes.1 * 256 == PIT_FREQUENCY / (1000u32 / CALIB_MS),
{
    let count: u32 = PIT_FREQUENCY / (1000 / CALIB_MS);
    assert(1000u32 / CALIB_MS == 100);
    assert(count == 11931);
    ((count % 256) as u8, (count / 256) as u8)
}

/// The value of the control port with channel 2 stopped and the speaker off.
pub fn paused(control: u8) -> (r: u8)
    ensures
        r == control - control % 4,
{
    control - control % 4
}

/// The value of the control port with channel 2 counting: bit 0 is set.
pub fn counting(low: u8) -> (r: u8)
    ensures
        r == low - low % 2 + 1,
{
    low - low % 2 + 1
}

/// Whether channel 2 has counted down, which bit 5 of the control port shows.
pub fn pit_done(control: u8) -> (yes: bool)
    ensures
        yes == (control / 32 % 2 == 1),
{
    control / 32 % 2 == 1
}

/// The counts of the timer in a second, from its counts at both ends of the calibration; at most
/// as many as fit.
pub open spec fn measured(start: u32, end: u32) -> u32 {
    let elapsed = if start >= end {
        start - end
    } else {
        0
    };
    let rate = elapsed * 100;
    if rate == 0 {
        FALLBACK_RATE
    } else if rate > u32::MAX {
        u32::MAX
    } else {
        rate as u32
    }
}

/// The counts of the timer in a second, from its counts at both ends of the calibration.
pub fn calibrate(start: u32, end: u32) -> (counts_per_sec: u32)
    ensures
        counts_per_sec == measured(start, end),
{
    let elapsed: u32 = start.saturating_sub(end);
    let per_sec: u32 = match elapsed.checked_mul(1000 / CALIB_MS) {
        Some(n) => n,
        None => u32::MAX,
    };
    if per_sec == 0 {
        FALLBACK_RATE
    } else {
        per_sec
    }
}

/// The count for one tick; never 0, which would stop the timer.
pub open spec fn count_per_tick(counts_per_sec: u32) -> u32 {
    if counts_per_sec < TIMER_HZ {
        1
    } else {
        counts_per_sec / TIMER_HZ
    }
}

/// What starts the timer, in this order: writing the count is what starts it.
pub fn init_timer(counts_per_sec: u32) -> (w: [RegWrite; 3])
    ensures
        w@ == seq![
            RegWrite { offset: REG_TIMER_DIV, value: TIMER_DIV_16 },
            RegWrite {
                offset: REG_LVT_TIMER,
                value: (LVT_TIMER_PERIODIC + TIMER_VECTOR) as u32,
            },
            RegWrite {
                offset: REG_TIMER_INIT_COUNT,
                value: count_per_tick(counts_per_sec),
            },
        ],
{
    let per_tick: u32 = counts_per_sec / TIMER_HZ;
    let count: u32 = if per_tick == 0 {
        1
    } else {
        per_tick
    };
    let w: [RegWrite; 3] = [
        RegWrite { offset: REG_TIMER_DIV, value: TIMER_DIV_16 },
        RegWrite { offset: REG_LVT_TIMER, value: LVT_TIMER_PERIODIC + TIMER_VECTOR as u32 },
        RegWrite { offset: REG_TIMER_INIT_COUNT, value: count },
    ];
    assert(w@ =~= seq![
        RegWrite { offset: REG_TIMER_DIV, value: TIMER_DIV_16 },
        RegWrite { offset: REG_LVT_TIMER, value: (LVT_TIMER_PERIODIC + TIMER_VECTOR) as u32 },
        RegWrite { offset: REG_TIMER_INIT_COUNT, value: count_per_tick(counts_per_sec) },
    ]);
    w
}

/// Tells the APIC that an interrupt has been served.
pub fn end_of_interrupt() -> (w: RegWrite)
    ensures
        w == (RegWrite { offset: REG_EOI, value: 0 }),
{
    RegWrite { offset: REG_EOI, value: 0 }
}

/// Where the register at `offset` is mapped.
pub fn register(offset: u32) -> (addr: u64)
    ensures
        addr == LAPIC_VIRT_BASE + offset,
{
    LAPIC_VIRT_BASE + offset as u64
}

/// The timer always ticks, whatever was measured.
pub proof fn timer_never_stops(start: u32, end: u32)
    ensures
        count_per_tick(measured(start, end)) > 0,
{
}

/// A timer whose rate the calibration can hold is measured to within the length of a count, and
/// ticks [`TIMER_HZ`] times a second, rounded.
pub proof fn timer_keeps_the_rate(start: u32, end: u32)
    requires
        start > end,
        (start - end) * 100 <= u32::MAX,
    ensures
        measured(start, end) == (start - end) * 100,
        count_per_tick(measured(start, end)) == start - end,
{
}

} // verus!
