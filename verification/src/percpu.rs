//! Per-CPU data: one block of state for each core.

use vstd::prelude::*;

use crate::acpi::CpuCore;

verus! {

/// The state of one core.
#[derive(Debug, Clone, Copy, PartialEq, Eq, Structural)]
pub struct PerCpu {
    /// Dense index: 0 for the core that was running at power-on, then the others in the order of
    /// discovery.
    pub cpu_index: usize,
    /// The id of the core's Local APIC.
    pub apic_id: u8,
    /// Whether this is the core that was running at power-on.
    pub is_bsp: bool,
    /// Whether the core has reported that it runs the kernel.
    pub online: bool,
    /// A stack pointer of the core; 0 if it has not recorded one.
    pub stack: u64,
    /// The timer interrupts that the core has taken.
    pub timer_ticks: u64,
    /// How often the timer has preempted a thread of the core.
    pub preemptions: u64,
    /// The threads that have finished on the core.
    pub completed: u64,
}

/// The block of a core that has done nothing yet.
pub open spec fn fresh_cpu(index: int, core: CpuCore) -> PerCpu {
    PerCpu {
        cpu_index: index as usize,
        apic_id: core.apic_id,
        is_bsp: core.is_bsp,
        online: core.is_bsp,
        stack: 0,
        timer_ticks: 0,
        preemptions: 0,
        completed: 0,
    }
}

impl PerCpu {
    /// Whether the core has reported that it runs the kernel.
    pub fn is_online(&self) -> (yes: bool)
        ensures
            yes == self.online,
    {
        self.online
    }

    /// The stack pointer that the core has recorded.
    pub fn stack(&self) -> (sp: u64)
        ensures
            sp == self.stack,
    {
        self.stack
    }

    /// The timer interrupts that the core has taken.
    pub fn timer_ticks(&self) -> (n: u64)
        ensures
            n == self.timer_ticks,
    {
        self.timer_ticks
    }

    /// Counts a timer interrupt.
    pub fn tick(&mut self)
        ensures
            *final(self) == (PerCpu {
                timer_ticks: old(self).timer_ticks.wrapping_add(1),
                ..*old(self)
            }),
    {
        self.timer_ticks = self.timer_ticks.wrapping_add(1);
    }

    /// Counts a preemption.
    pub fn count_preemption(&mut self)
        ensures
            *final(self) == (PerCpu {
                preemptions: old(self).preemptions.wrapping_add(1),
                ..*old(self)
            }),
    {
        self.preemptions = self.preemptions.wrapping_add(1);
    }

    /// Counts a thread that has finished.
    pub fn complete_thread(&mut self)
        ensures
            *final(self) == (PerCpu {
                completed: old(self).completed.wrapping_add(1),
                ..*old(self)
            }),
    {
        self.completed = self.completed.wrapping_add(1);
    }

    /// Records that the core runs the kernel, and on which stack.
    pub fn mark_online(&mut self, stack: u64)
        ensures
            *final(self) == (PerCpu { online: true, stack, ..*old(self) }),
    {
        self.stack = stack;
        self.online = true;
    }
}

/// The position of the first core from `k` on that was running at power-on; past the end if there
/// is none.
pub open spec fn bsp_from(cores: Seq<CpuCore>, k: int) -> int
    decreases cores.len() - k,
{
    if k >= cores.len() || cores[k].is_bsp {
        k
    } else {
        bsp_from(cores, k + 1)
    }
}

/// The dense index of core `i`: the core that was running at power-on comes first, and the others
/// keep their order.
pub open spec fn index_of(cores: Seq<CpuCore>, i: int) -> int {
    let bsp = bsp_from(cores, 0);
    if bsp >= cores.len() || i > bsp {
        i
    } else if i == bsp {
        0
    } else {
        i + 1
    }
}

/// The blocks of all cores.
pub open spec fn fresh_cpus(cores: Seq<CpuCore>) -> Seq<PerCpu> {
    Seq::new(cores.len(), |i: int| fresh_cpu(index_of(cores, i), cores[i]))
}

/// The position of the core that was running at power-on; past the end if there is none.
fn find_bsp(cores: &Vec<CpuCore>) -> (at: usize)
    ensures
        at == bsp_from(cores@, 0),
        at <= cores@.len(),
{
    let mut i: usize = 0;
    while i < cores.len()
        invariant
            i <= cores@.len(),
            bsp_from(cores@, 0) == bsp_from(cores@, i as int),
        decreases cores@.len() - i,
    {
        if cores[i].is_bsp {
            return i;
        }
        i = i + 1;
    }
    i
}

/// A block for each core that was discovered. The one that runs already is online.
pub fn init(cores: &Vec<CpuCore>) -> (cpus: Vec<PerCpu>)
    ensures
        cpus@ == fresh_cpus(cores@),
{
    let bsp: usize = find_bsp(cores);
    let mut cpus: Vec<PerCpu> = Vec::new();
    let mut i: usize = 0;
    while i < cores.len()
        invariant
            i <= cores@.len(),
            bsp == bsp_from(cores@, 0),
            cpus@ == fresh_cpus(cores@).take(i as int),
        decreases cores@.len() - i,
    {
        let cpu_index: usize = if bsp >= cores.len() || i > bsp {
            i
        } else if i == bsp {
            0
        } else {
            i + 1
        };
        cpus.push(
            PerCpu {
                cpu_index,
                apic_id: cores[i].apic_id,
                is_bsp: cores[i].is_bsp,
                online: cores[i].is_bsp,
                stack: 0,
                timer_ticks: 0,
                preemptions: 0,
                completed: 0,
            },
        );
        assert(fresh_cpus(cores@)[i as int] == fresh_cpu(
            index_of(cores@, i as int),
            cores@[i as int],
        ));
        assert(cpus@ =~= fresh_cpus(cores@).take(i + 1));
        i = i + 1;
    }
    assert(fresh_cpus(cores@).take(i as int) =~= fresh_cpus(cores@));
    cpus
}

/// The position of the first block from `k` on of the core with this APIC id.
pub open spec fn cpu_from(cpus: Seq<PerCpu>, apic_id: u8, k: int) -> Option<usize>
    decreases cpus.len() - k,
{
    if k >= cpus.len() {
        None
    } else if cpus[k].apic_id == apic_id {
        Some(k as usize)
    } else {
        cpu_from(cpus, apic_id, k + 1)
    }
}

/// The position of the block of the core with this APIC id, which is the one that asks; `None`
/// if no such core was discovered.
pub fn this_cpu_opt(cpus: &Vec<PerCpu>, apic_id: u8) -> (at: Option<usize>)
    ensures
        at == cpu_from(cpus@, apic_id, 0),
        at matches Some(i) ==> i < cpus@.len() && cpus@[i as int].apic_id == apic_id,
{
    let mut i: usize = 0;
    while i < cpus.len()
        invariant
            i <= cpus@.len(),
            cpu_from(cpus@, apic_id, 0) == cpu_from(cpus@, apic_id, i as int),
        decreases cpus@.len() - i,
    {
        if cpus[i].apic_id == apic_id {
            return Some(i);
        }
        i = i + 1;
    }
    None
}

/// The position of the block of a core that was discovered.
pub fn this_cpu(cpus: &Vec<PerCpu>, apic_id: u8) -> (at: usize)
    requires
        cpu_from(cpus@, apic_id, 0) is Some,
    ensures
        Some(at) == cpu_from(cpus@, apic_id, 0),
        at < cpus@.len(),
{
    match this_cpu_opt(cpus, apic_id) {
        Some(i) => i,
        None => 0,
    }
}

/// The blocks of all cores.
pub fn all(cpus: &Vec<PerCpu>) -> (blocks: &[PerCpu])
    ensures
        blocks@ == cpus@,
{
    cpus.as_slice()
}

/// How many cores have a block.
pub fn count(cpus: &Vec<PerCpu>) -> (n: usize)
    ensures
        n == cpus@.len(),
{
    cpus.len()
}

/// How many of the first `n` cores are online.
pub open spec fn online_among(cpus: Seq<PerCpu>, n: int) -> nat
    decreases n,
{
    if n <= 0 {
        0
    } else {
        online_among(cpus, n - 1) + if cpus[n - 1].online {
            1nat
        } else {
            0nat
        }
    }
}

/// How many cores are online.
pub fn online_count(cpus: &Vec<PerCpu>) -> (n: usize)
    ensures
        n == online_among(cpus@, cpus@.len() as int),
{
    let mut n: usize = 0;
    let mut i: usize = 0;
    while i < cpus.len()
        invariant
            i <= cpus@.len(),
            n <= i,
            n == online_among(cpus@, i as int),
        decreases cpus@.len() - i,
    {
        if cpus[i].is_online() {
            n = n + 1;
        }
        i = i + 1;
    }
    n
}

/// Whether no two cores have the same APIC id.
pub open spec fn ids_differ(cores: Seq<CpuCore>) -> bool {
    forall|i: int, j: int|
        0 <= i < j < cores.len() ==> (#[trigger] cores[i]).apic_id != (#[trigger] cores[j]).apic_id
}

/// Every core finds its own block, and no other.
pub proof fn every_core_has_its_block(cores: Seq<CpuCore>, i: int)
    requires
        ids_differ(cores),
        0 <= i < cores.len() <= usize::MAX,
    ensures
        cpu_from(fresh_cpus(cores), cores[i].apic_id, 0) == Some(i as usize),
        fresh_cpus(cores)[i].cpu_index == index_of(cores, i),
{
    lemma_finds(cores, i, 0);
    lemma_bsp(cores, 0);
}

/// The search from `k` on ends at a core that was running at power-on, if there is one.
proof fn lemma_bsp(cores: Seq<CpuCore>, k: int)
    requires
        0 <= k <= cores.len(),
    ensures
        k <= bsp_from(cores, k) <= cores.len(),
        bsp_from(cores, k) < cores.len() ==> cores[bsp_from(cores, k)].is_bsp,
        forall|j: int| k <= j < bsp_from(cores, k) ==> !(#[trigger] cores[j]).is_bsp,
    decreases cores.len() - k,
{
    if k < cores.len() && !cores[k].is_bsp {
        lemma_bsp(cores, k + 1);
    }
}

/// The indices are dense: they are below the number of cores, and no two cores share one.
pub proof fn indices_are_dense(cores: Seq<CpuCore>, i: int, j: int)
    requires
        0 <= i < cores.len(),
        0 <= j < cores.len(),
    ensures
        0 <= index_of(cores, i) < cores.len(),
        index_of(cores, i) == index_of(cores, j) ==> i == j,
{
    lemma_bsp(cores, 0);
}

/// The core that was running at power-on has index 0, and the others follow in the order of
/// discovery.
pub proof fn bootstrap_core_comes_first(cores: Seq<CpuCore>, bsp: int, i: int, j: int)
    requires
        0 <= bsp < cores.len(),
        forall|k: int| 0 <= k < cores.len() ==> (#[trigger] cores[k]).is_bsp == (k == bsp),
        0 <= i < j < cores.len(),
        i != bsp,
        j != bsp,
    ensures
        index_of(cores, bsp) == 0,
        0 < index_of(cores, i) < index_of(cores, j),
{
    lemma_bsp(cores, 0);
    assert(cores[bsp].is_bsp);
}

/// The search from `k` on finds core `i`.
proof fn lemma_finds(cores: Seq<CpuCore>, i: int, k: int)
    requires
        ids_differ(cores),
        0 <= k <= i < cores.len() <= usize::MAX,
    ensures
        cpu_from(fresh_cpus(cores), cores[i].apic_id, k) == Some(i as usize),
    decreases i - k,
{
    assert(fresh_cpus(cores)[k].apic_id == cores[k].apic_id);
    if k < i {
        assert(cores[k].apic_id != cores[i].apic_id);
        lemma_finds(cores, i, k + 1);
    }
}

} // verus!
