//! What becomes of each process when the CPU changes hands.

use vstd::prelude::*;

use crate::interrupts::TrapFrame;
use crate::process::scheduler;
use crate::process::scheduler::{ProcessModel, Resume, SchedModel, Zombie};

verus! {

/// A tick takes the CPU from a process whenever another is ready: the front of the queue runs
/// from where it stopped, in its own address space; every other process moves up by one place,
/// unchanged; and the one that was interrupted comes last, with the context at which it was.
/// Nothing but the count of preemptions and the note of who ran last changes besides.
pub proof fn tick_passes_the_turn(m: SchedModel, tf: TrapFrame)
    requires
        m.current is Some,
        m.ready.len() > 0,
    ensures
        ({
            let (after, context, resume) = scheduler::ticking(m, tf);
            let n = m.ready.len();
            &&& after.current == Some(m.ready[0])
            &&& context == m.ready[0].context
            &&& resume == Resume::Space(m.ready[0].image.l4)
            &&& after.ready.len() == n
            &&& forall|i: int| 0 <= i < n - 1 ==> #[trigger] after.ready[i] == m.ready[i + 1]
            &&& after.ready[n - 1] == (ProcessModel { context: tf, ..m.current.unwrap() })
            &&& after.blocked == m.blocked
            &&& after.net_blocked == m.net_blocked
            &&& after.zombies == m.zombies
            &&& after.next_id == m.next_id
            &&& after.counters == (scheduler::Counters {
                preempted: m.counters.preempted.wrapping_add(1),
                last_l4: m.ready[0].image.l4,
                ..m.counters
            })
        }),
{
}

/// A tick changes nothing where no process runs or none other is ready.
pub proof fn tick_leaves_a_lone_process(m: SchedModel, tf: TrapFrame)
    requires
        m.current is None || m.ready.len() == 0,
    ensures
        scheduler::ticking(m, tf) == (m, tf, Resume::Here),
{
}

/// The scheduler and the context after `n` ticks, each of the process that was resumed.
pub open spec fn ticks(m: SchedModel, tf: TrapFrame, n: nat) -> (SchedModel, TrapFrame)
    decreases n,
{
    if n == 0 {
        (m, tf)
    } else {
        let (m, tf) = ticks(m, tf, (n - 1) as nat);
        (scheduler::ticking(m, tf).0, scheduler::ticking(m, tf).1)
    }
}

/// No process starves while others compute without yielding: the one at place `k` of the queue
/// runs, from where it stopped, after `k + 1` ticks.
pub proof fn ticks_reach_every_process(m: SchedModel, tf: TrapFrame, k: nat)
    requires
        m.current is Some,
        k < m.ready.len(),
    ensures
        ticks(m, tf, k + 1).0.current == Some(m.ready[k as int]),
        ticks(m, tf, k + 1).1 == m.ready[k as int].context,
{
    lemma_ticked(m, tf, k as int, k);
    let (n, nf) = ticks(m, tf, k);
    tick_passes_the_turn(n, nf);
}

proof fn lemma_ticked(m: SchedModel, tf: TrapFrame, k: int, n: nat)
    requires
        m.current is Some,
        n <= k < m.ready.len(),
    ensures
        ticks(m, tf, n).0.current is Some,
        ticks(m, tf, n).0.ready.len() == m.ready.len(),
        ticks(m, tf, n).0.ready[k - n] == m.ready[k],
    decreases n,
{
    if n > 0 {
        lemma_ticked(m, tf, k, (n - 1) as nat);
        let (o, of) = ticks(m, tf, (n - 1) as nat);
        tick_passes_the_turn(o, of);
    }
}

/// A full round of ticks comes back to where it began: the interrupted process runs again with
/// the context at which it was interrupted.
pub proof fn round_of_ticks_returns(m: SchedModel, tf: TrapFrame)
    requires
        m.current is Some,
        m.ready.len() > 0,
    ensures
        ({
            let (after, context) = ticks(m, tf, m.ready.len() + 1);
            &&& after.current == Some(ProcessModel { context: tf, ..m.current.unwrap() })
            &&& context == tf
        }),
{
    let (one, of) = (ticks(m, tf, 1).0, ticks(m, tf, 1).1);
    assert(ticks(m, tf, 0) == (m, tf));
    tick_passes_the_turn(m, tf);
    lemma_ticks_split(m, tf, m.ready.len());
    ticks_reach_every_process(one, of, (m.ready.len() - 1) as nat);
}

/// The first tick and then `n` more are `n + 1` ticks.
proof fn lemma_ticks_split(m: SchedModel, tf: TrapFrame, n: nat)
    ensures
        ticks(m, tf, n + 1) == ticks(ticks(m, tf, 1).0, ticks(m, tf, 1).1, n),
    decreases n,
{
    if n > 0 {
        lemma_ticks_split(m, tf, (n - 1) as nat);
    }
}

/// A yield passes the turn exactly as a tick does, and is counted as a yield. A process that
/// yields with no other ready goes on itself.
pub proof fn yield_passes_the_turn(m: SchedModel, tf: TrapFrame)
    requires
        m.current is Some,
    ensures
        ({
            let after = scheduler::activated(scheduler::yielding(m, tf));
            let (context, resume) = scheduler::next_or_here(scheduler::yielding(m, tf), tf);
            let stopped = ProcessModel { context: tf, ..m.current.unwrap() };
            let n = m.ready.len();
            &&& after.ready.len() == n
            &&& after.counters.yielded == m.counters.yielded.wrapping_add(1)
            &&& after.counters.preempted == m.counters.preempted
            &&& after.blocked == m.blocked
            &&& after.net_blocked == m.net_blocked
            &&& after.zombies == m.zombies
            &&& after.next_id == m.next_id
            &&& n == 0 ==> {
                &&& after.current == Some(stopped)
                &&& context == tf
                &&& resume == Resume::Space(m.current.unwrap().image.l4)
            }
            &&& n > 0 ==> {
                &&& after.current == Some(m.ready[0])
                &&& context == m.ready[0].context
                &&& resume == Resume::Space(m.ready[0].image.l4)
                &&& after.ready[n - 1] == stopped
                &&& forall|i: int|
                    0 <= i < n - 1 ==> #[trigger] after.ready[i] == m.ready[i + 1]
            }
        }),
{
}

/// The user phase begins with the process that was spawned first, at the beginning of its
/// program, and with the kernel's address space noted.
pub proof fn first_process_runs_first(m: SchedModel, kernel_l4: u64)
    requires
        m.ready.len() > 0,
    ensures
        ({
            let begun = SchedModel {
                counters: scheduler::Counters { kernel_l4, ..m.counters },
                ..m
            };
            let after = scheduler::activated(begun);
            &&& scheduler::first_to_run(m) == Some(m.ready[0].image)
            &&& after.current == Some(m.ready[0])
            &&& after.ready == m.ready.skip(1)
            &&& after.counters.kernel_l4 == kernel_l4
            &&& after.counters.last_l4 == m.ready[0].image.l4
        }),
{
    assert(m.ready.remove(0) =~= m.ready.skip(1));
}

/// An exit hands the CPU to the front of the queue, or to the kernel if nobody is left to run.
/// The process that exits is gone; a process without a parent leaves nothing behind.
pub proof fn exit_hands_the_cpu_on(m: SchedModel, tf: TrapFrame, code: u64)
    requires
        m.current is Some,
        m.current.unwrap().parent is None,
    ensures
        ({
            let after = scheduler::activated(scheduler::exiting(m, code));
            let (context, resume) = scheduler::next_or_kernel(scheduler::exiting(m, code), tf);
            &&& after.blocked == m.blocked
            &&& after.net_blocked == m.net_blocked
            &&& after.zombies == m.zombies
            &&& after.next_id == m.next_id
            &&& after.counters.exited == m.counters.exited.wrapping_add(1)
            &&& after.counters.waited == m.counters.waited
            &&& m.ready.len() == 0 ==> after.current is None && after.ready == m.ready && context
                == tf && resume == Resume::Kernel
            &&& m.ready.len() > 0 ==> after.current == Some(m.ready[0]) && after.ready
                == m.ready.skip(1) && context == m.ready[0].context && resume == Resume::Space(
                m.ready[0].image.l4,
            )
        }),
{
    if m.ready.len() > 0 {
        assert(m.ready.remove(0) =~= m.ready.skip(1));
    }
}

/// Position `i` holds the only process with its id.
pub open spec fn only_one(ps: Seq<ProcessModel>, i: int) -> bool {
    &&& 0 <= i < ps.len()
    &&& forall|j: int| 0 <= j < ps.len() && j != i ==> (#[trigger] ps[j]).id != ps[i].id
}

proof fn lemma_position(ps: Seq<ProcessModel>, i: int, k: int)
    requires
        only_one(ps, i),
        0 <= k <= i,
    ensures
        scheduler::position_from(ps, ps[i].id, k) == Some(i),
    decreases i - k,
{
    if k < i {
        lemma_position(ps, i, k + 1);
    }
}

proof fn lemma_no_position(ps: Seq<ProcessModel>, id: u64, k: int)
    requires
        forall|j: int| 0 <= j < ps.len() ==> (#[trigger] ps[j]).id != id,
        0 <= k <= ps.len(),
    ensures
        scheduler::position_from(ps, id, k) is None,
    decreases ps.len() - k,
{
    if k < ps.len() {
        lemma_no_position(ps, id, k + 1);
    }
}

/// The exit of a child wakes the parent that waits for it: it leaves the blocked, joins the end
/// of the queue, and its wait returns the child's code in `rax`, with every other register as it
/// was. Nobody else who waits is woken, and nothing is left to collect.
pub proof fn exit_wakes_the_parent(m: SchedModel, code: u64, i: int)
    requires
        m.current is Some,
        only_one(m.blocked, i),
        m.current.unwrap().parent == Some(m.blocked[i].id),
    ensures
        ({
            let after = scheduler::exiting(m, code);
            let woken = m.blocked[i];
            &&& after.ready == m.ready.push(
                ProcessModel { context: TrapFrame { rax: code, ..woken.context }, ..woken },
            )
            &&& after.blocked == m.blocked.remove(i)
            &&& after.net_blocked == m.net_blocked
            &&& after.zombies == m.zombies
            &&& after.current is None
            &&& after.counters.waited == m.counters.waited.wrapping_add(1)
            &&& after.counters.last_waited_code == code
            &&& after.counters.exited == m.counters.exited.wrapping_add(1)
        }),
{
    lemma_position(m.blocked, i, 0);
}

/// The exit of a child whose parent does not wait leaves its code for the parent to collect, and
/// wakes nobody.
pub proof fn exit_leaves_the_code(m: SchedModel, code: u64, parent: u64)
    requires
        m.current is Some,
        m.current.unwrap().parent == Some(parent),
        forall|j: int| 0 <= j < m.blocked.len() ==> (#[trigger] m.blocked[j]).id != parent,
    ensures
        ({
            let after = scheduler::exiting(m, code);
            &&& after.zombies == m.zombies.push(
                Zombie { parent, child: m.current.unwrap().id, code },
            )
            &&& after.ready == m.ready
            &&& after.blocked == m.blocked
            &&& after.net_blocked == m.net_blocked
            &&& after.counters.waited == m.counters.waited
        }),
{
    lemma_no_position(m.blocked, parent, 0);
}

/// A wait collects the oldest exit that is left for the caller: its code comes back in `rax` at
/// once, and only that one is gone.
pub proof fn wait_collects_the_oldest(m: SchedModel, tf: TrapFrame, i: int)
    requires
        m.current is Some,
        0 <= i < m.zombies.len(),
        m.zombies[i].parent == m.current.unwrap().id,
        forall|j: int| 0 <= j < i ==> (#[trigger] m.zombies[j]).parent != m.current.unwrap().id,
    ensures
        ({
            let (after, context, resume) = scheduler::waiting(m, tf);
            &&& context == (TrapFrame { rax: m.zombies[i].code, ..tf })
            &&& resume == Resume::Here
            &&& after.zombies == m.zombies.remove(i)
            &&& after.current == m.current
            &&& after.ready == m.ready
            &&& after.blocked == m.blocked
            &&& after.counters.waited == m.counters.waited.wrapping_add(1)
            &&& after.counters.last_waited_code == m.zombies[i].code
        }),
{
    lemma_zombie_at(m.zombies, m.current.unwrap().id, i, 0);
}

proof fn lemma_zombie_at(zs: Seq<Zombie>, parent: u64, i: int, k: int)
    requires
        0 <= k <= i < zs.len(),
        zs[i].parent == parent,
        forall|j: int| 0 <= j < i ==> (#[trigger] zs[j]).parent != parent,
    ensures
        scheduler::zombie_from(zs, parent, k) == Some(i),
    decreases i - k,
{
    if k < i {
        lemma_zombie_at(zs, parent, i, k + 1);
    }
}

proof fn lemma_no_zombie(zs: Seq<Zombie>, parent: u64, k: int)
    requires
        0 <= k <= zs.len(),
        forall|i: int| 0 <= i < zs.len() ==> (#[trigger] zs[i]).parent != parent,
    ensures
        scheduler::zombie_from(zs, parent, k) is None,
    decreases zs.len() - k,
{
    if k < zs.len() {
        lemma_no_zombie(zs, parent, k + 1);
    }
}

/// A wait blocks the caller as long as a child of it lives, ready or blocked itself, and has not
/// exited: the caller leaves the CPU to the front of the queue, or to the kernel.
pub proof fn wait_blocks_for_a_living_child(m: SchedModel, tf: TrapFrame, child: ProcessModel)
    requires
        m.current is Some,
        forall|i: int|
            0 <= i < m.zombies.len() ==> (#[trigger] m.zombies[i]).parent
                != m.current.unwrap().id,
        child.parent == Some(m.current.unwrap().id),
        m.ready.contains(child) || m.blocked.contains(child),
    ensures
        ({
            let (after, context, resume) = scheduler::waiting(m, tf);
            let parked = ProcessModel { context: tf, ..m.current.unwrap() };
            &&& after.blocked == m.blocked.push(parked)
            &&& after.zombies == m.zombies
            &&& m.ready.len() > 0 ==> after.current == Some(m.ready[0]) && after.ready
                == m.ready.skip(1) && context == m.ready[0].context && resume == Resume::Space(
                m.ready[0].image.l4,
            )
            &&& m.ready.len() == 0 ==> after.current is None && after.ready == m.ready && context
                == tf && resume == Resume::Kernel
        }),
{
    lemma_no_zombie(m.zombies, m.current.unwrap().id, 0);
    if m.ready.contains(child) {
        let k = choose|k: int| 0 <= k < m.ready.len() && m.ready[k] == child;
        assert(m.ready[k].parent == Some(m.current.unwrap().id));
    } else {
        let k = choose|k: int| 0 <= k < m.blocked.len() && m.blocked[k] == child;
        assert(m.blocked[k].parent == Some(m.current.unwrap().id));
    }
    if m.ready.len() > 0 {
        assert(m.ready.remove(0) =~= m.ready.skip(1));
    }
}

/// A parent that waits for its only child gets the child's exit code: wait, and the exit of the
/// child once it runs, leave the parent ready to go on right behind its wait, with the code in
/// `rax`.
pub proof fn wait_and_exit_meet(m: SchedModel, tf: TrapFrame, code: u64)
    requires
        m.current is Some,
        forall|i: int|
            0 <= i < m.zombies.len() ==> (#[trigger] m.zombies[i]).parent
                != m.current.unwrap().id,
        m.ready.len() > 0,
        m.ready[0].parent == Some(m.current.unwrap().id),
        forall|j: int|
            0 <= j < m.blocked.len() ==> (#[trigger] m.blocked[j]).id != m.current.unwrap().id,
    ensures
        ({
            let waiting = scheduler::waiting(m, tf).0;
            let after = scheduler::exiting(waiting, code);
            &&& waiting.current == Some(m.ready[0])
            &&& after.ready == m.ready.skip(1).push(
                ProcessModel { context: TrapFrame { rax: code, ..tf }, ..m.current.unwrap() },
            )
            &&& after.blocked == m.blocked
            &&& after.zombies == m.zombies
        }),
{
    wait_blocks_for_a_living_child(m, tf, m.ready[0]);
    let waiting = scheduler::waiting(m, tf).0;
    let n = m.blocked.len() as int;
    assert forall|j: int| 0 <= j < waiting.blocked.len() && j != n implies (
    #[trigger] waiting.blocked[j]).id != waiting.blocked[n].id by {
        assert(waiting.blocked[j] == m.blocked[j]);
    }
    exit_wakes_the_parent(waiting, code, n);
    assert(waiting.blocked.remove(n) =~= m.blocked);
}

} // verus!
