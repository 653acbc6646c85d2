//! A run queue of kernel threads: each core has one and schedules among its own threads.
//!
//! The queue decides which thread runs. The program around it owns the stacks, by the ids of
//! the threads, and switches between them as a [`Switch`] says.

use vstd::prelude::*;

use crate::acpi::CpuCore;
use crate::percpu;
use crate::percpu::PerCpu;

verus! {

/// The size of a thread's stack.
pub const THREAD_STACK_SIZE: usize = 4096;

/// Where a thread is in its life.
#[derive(Debug, Clone, Copy, PartialEq, Eq, Structural)]
pub enum State {
    /// It waits for its turn.
    Ready,
    /// It runs.
    Running,
    /// It has returned and is to be cleaned up.
    Finished,
}

/// A thread.
#[derive(Debug, Clone, Copy, PartialEq, Eq, Structural)]
pub struct KThread {
    pub id: u64,
    pub state: State,
    /// The function it runs; `None` for the context that the core started with.
    pub entry: Option<u64>,
    /// Whether it is the context that the core started with, which takes turns and never
    /// finishes.
    pub is_bootstrap: bool,
}

/// The state of a run queue.
#[verifier::ext_equal]
pub struct QueueModel {
    /// The threads, in the order of their creation.
    pub threads: Seq<KThread>,
    /// The ids of the ready threads, in the order of their turns.
    pub ready: Seq<u64>,
    pub current: Option<u64>,
}

/// A run queue.
pub struct RunQueue {
    threads: Vec<KThread>,
    ready: Vec<u64>,
    current: Option<u64>,
}

impl View for RunQueue {
    type V = QueueModel;

    closed spec fn view(&self) -> QueueModel {
        QueueModel { threads: self.threads@, ready: self.ready@, current: self.current }
    }
}

/// Save the running thread's stack pointer for `from` and go on with that of `to`.
#[derive(Debug, Clone, Copy, PartialEq, Eq, Structural)]
pub struct Switch {
    pub from: u64,
    pub to: u64,
}

/// Whether there is a thread with this id in this state.
pub open spec fn thread_in(m: QueueModel, id: u64, state: State) -> bool {
    exists|i: int|
        0 <= i < m.threads.len() && (#[trigger] m.threads[i]).id == id && m.threads[i].state
            == state
}

/// Whether no two threads have the same id.
pub open spec fn ids_differ(threads: Seq<KThread>) -> bool {
    forall|i: int, j: int|
        0 <= i < j < threads.len() ==> (#[trigger] threads[i]).id != (#[trigger] threads[j]).id
}

/// What holds of a run queue: the queue holds just the ready threads, each once, and just the
/// current thread runs.
pub open spec fn queue_ok(m: QueueModel) -> bool {
    &&& ids_differ(m.threads)
    &&& m.ready.no_duplicates()
    &&& forall|id: u64| #[trigger] m.ready.contains(id) <==> thread_in(m, id, State::Ready)
    &&& forall|id: u64| #[trigger] thread_in(m, id, State::Running) <==> m.current == Some(id)
}

/// Whether all ids of threads were given out before `next`.
pub open spec fn ids_before(m: QueueModel, next: u64) -> bool {
    forall|i: int| 0 <= i < m.threads.len() ==> (#[trigger] m.threads[i]).id < next
}

/// A thread with another state.
pub open spec fn in_state(t: KThread, id: u64, state: State) -> KThread {
    if t.id == id {
        KThread { state, ..t }
    } else {
        t
    }
}

/// The threads with another state for one of them.
pub open spec fn with_state(threads: Seq<KThread>, id: u64, state: State) -> Seq<KThread> {
    Seq::new(threads.len(), |i: int| in_state(threads[i], id, state))
}

/// Sets the state of a thread.
fn set_state(threads: &mut Vec<KThread>, id: u64, state: State)
    ensures
        final(threads)@ == with_state(old(threads)@, id, state),
{
    let ghost before = threads@;
    let mut i: usize = 0;
    while i < threads.len()
        invariant
            i <= threads@.len(),
            threads@.len() == before.len(),
            forall|j: int| 0 <= j < i ==> threads@[j] == in_state(before[j], id, state),
            forall|j: int| i <= j < before.len() ==> threads@[j] == before[j],
        decreases threads@.len() - i,
    {
        if threads[i].id == id {
            let t: KThread = threads[i];
            threads[i] = KThread { id: t.id, state, entry: t.entry, is_bootstrap: t.is_bootstrap };
        }
        i = i + 1;
    }
    assert(threads@ =~= with_state(before, id, state));
}

/// An empty run queue.
pub open spec fn empty_queue() -> QueueModel {
    QueueModel { threads: Seq::empty(), ready: Seq::empty(), current: None }
}

impl RunQueue {
    /// An empty run queue.
    pub fn new() -> (q: RunQueue)
        ensures
            q@ == empty_queue(),
            queue_ok(q@),
    {
        let q = RunQueue { threads: Vec::new(), ready: Vec::new(), current: None };
        assert(q@ =~= empty_queue());
        q
    }
}

/// An empty run queue for each core.
pub fn init(n_cpus: usize) -> (queues: Vec<RunQueue>)
    ensures
        queues@.len() == n_cpus,
        forall|i: int| 0 <= i < n_cpus ==> (#[trigger] queues@[i])@ == empty_queue(),
{
    let mut queues: Vec<RunQueue> = Vec::new();
    let mut i: usize = 0;
    while i < n_cpus
        invariant
            i <= n_cpus,
            queues@.len() == i,
            forall|j: int| 0 <= j < i ==> (#[trigger] queues@[j])@ == empty_queue(),
        decreases n_cpus - i,
    {
        queues.push(RunQueue::new());
        i = i + 1;
    }
    queues
}

/// Which of `n` run queues is that of the core with this APIC id: the one with the core's index.
pub open spec fn queue_of(n: usize, cpus: Seq<PerCpu>, apic_id: u8) -> Option<usize> {
    match percpu::cpu_from(cpus, apic_id, 0) {
        Some(i) => if cpus[i as int].cpu_index < n {
            Some(cpus[i as int].cpu_index)
        } else {
            None
        },
        None => None,
    }
}

/// The index of the run queue of the core with this APIC id, which is the one that asks; `None`
/// if the core was not discovered or the `n` queues have not been built.
pub fn this_queue_opt(n: usize, cpus: &Vec<PerCpu>, apic_id: u8) -> (index: Option<usize>)
    ensures
        index == queue_of(n, cpus@, apic_id),
{
    match percpu::this_cpu_opt(cpus, apic_id) {
        Some(i) => if cpus[i].cpu_index < n {
            Some(cpus[i].cpu_index)
        } else {
            None
        },
        None => None,
    }
}

/// The index of the run queue of a core that has one.
pub fn this_queue(n: usize, cpus: &Vec<PerCpu>, apic_id: u8) -> (index: usize)
    requires
        queue_of(n, cpus@, apic_id) is Some,
    ensures
        Some(index) == queue_of(n, cpus@, apic_id),
{
    cpus[percpu::this_cpu(cpus, apic_id)].cpu_index
}

/// Every core has a run queue of its own: the one with the core's index, which no other core has.
pub proof fn every_core_has_its_queue(cores: Seq<CpuCore>, i: int, j: int)
    requires
        percpu::ids_differ(cores),
        0 <= i < cores.len() <= usize::MAX,
        0 <= j < cores.len(),
    ensures
        queue_of(cores.len() as usize, percpu::fresh_cpus(cores), cores[i].apic_id) == Some(
            percpu::index_of(cores, i) as usize,
        ),
        queue_of(cores.len() as usize, percpu::fresh_cpus(cores), cores[i].apic_id) == queue_of(
            cores.len() as usize,
            percpu::fresh_cpus(cores),
            cores[j].apic_id,
        ) ==> i == j,
{
    percpu::every_core_has_its_block(cores, i);
    percpu::every_core_has_its_block(cores, j);
    percpu::indices_are_dense(cores, i, j);
    percpu::indices_are_dense(cores, j, i);
}

/// The queue with a new thread that waits for its turn.
pub open spec fn spawned(m: QueueModel, id: u64, entry: u64) -> QueueModel {
    QueueModel {
        threads: m.threads.push(
            KThread { id, state: State::Ready, entry: Some(entry), is_bootstrap: false },
        ),
        ready: m.ready.push(id),
        ..m
    }
}

/// Adds a thread that runs `entry`. Ids are unique over all cores: `next` is the next one.
pub fn spawn(q: &mut RunQueue, next: &mut u64, entry: u64) -> (id: u64)
    requires
        *old(next) < u64::MAX,
    ensures
        id == *old(next),
        *final(next) == *old(next) + 1,
        final(q)@ == spawned(old(q)@, id, entry),
{
    let id: u64 = *next;
    *next = id + 1;
    q.threads.push(KThread { id, state: State::Ready, entry: Some(entry), is_bootstrap: false });
    q.ready.push(id);
    id
}

/// The queue with the context that the core started with as the current thread.
pub open spec fn bootstrapped(m: QueueModel, id: u64) -> QueueModel {
    QueueModel {
        threads: m.threads.push(
            KThread { id, state: State::Running, entry: None, is_bootstrap: true },
        ),
        current: Some(id),
        ..m
    }
}

/// Begins to run the threads: makes the calling context a thread, to which the core can always
/// come back.
pub fn run_to_completion(q: &mut RunQueue, next: &mut u64) -> (id: u64)
    requires
        *old(next) < u64::MAX,
    ensures
        id == *old(next),
        *final(next) == *old(next) + 1,
        final(q)@ == bootstrapped(old(q)@, id),
{
    let id: u64 = *next;
    *next = id + 1;
    q.threads.push(KThread { id, state: State::Running, entry: None, is_bootstrap: true });
    q.current = Some(id);
    id
}

/// A thread that is not the starting context and has not finished.
pub open spec fn is_work(t: KThread) -> bool {
    !t.is_bootstrap && t.state != State::Finished
}

/// Whether a thread has not finished yet.
pub fn work_remains(q: &RunQueue) -> (yes: bool)
    ensures
        yes == exists|i: int| 0 <= i < q@.threads.len() && is_work(#[trigger] q@.threads[i]),
{
    let mut i: usize = 0;
    while i < q.threads.len()
        invariant
            i <= q.threads@.len(),
            forall|j: int| 0 <= j < i ==> !is_work(#[trigger] q@.threads[j]),
        decreases q.threads@.len() - i,
    {
        let t: KThread = q.threads[i];
        assert(q@.threads[i as int] == t);
        if !t.is_bootstrap && t.state != State::Finished {
            return true;
        }
        i = i + 1;
    }
    false
}

/// What switching to the next thread does: the current one goes to the end of the queue, the
/// front one runs. Nothing happens if no thread is ready.
pub open spec fn switched(m: QueueModel) -> (QueueModel, Option<Switch>) {
    if m.ready.len() == 0 {
        (m, None)
    } else {
        let from = m.current.unwrap();
        let to = m.ready[0];
        (
            QueueModel {
                threads: with_state(with_state(m.threads, from, State::Ready), to, State::Running),
                ready: m.ready.remove(0).push(from),
                current: Some(to),
            },
            Some(Switch { from, to }),
        )
    }
}

/// Switches to the next thread.
fn switch_to_next(q: &mut RunQueue) -> (s: Option<Switch>)
    requires
        old(q)@.current is Some,
    ensures
        (final(q)@, s) == switched(old(q)@),
{
    let ghost before = q@;
    let from: u64 = match q.current {
        Some(id) => id,
        None => 0,
    };
    if q.ready.len() == 0 {
        return None;
    }
    let to: u64 = q.ready.remove(0);
    set_state(&mut q.threads, from, State::Ready);
    q.ready.push(from);
    set_state(&mut q.threads, to, State::Running);
    q.current = Some(to);
    assert(q@ =~= switched(before).0);
    Some(Switch { from, to })
}

/// The current thread gives up the CPU; `None` if no other is ready.
pub fn yield_now(q: &mut RunQueue) -> (s: Option<Switch>)
    requires
        old(q)@.current is Some,
    ensures
        (final(q)@, s) == switched(old(q)@),
{
    switch_to_next(q)
}

/// The timer takes the CPU from the current thread, which is counted; `None` if no other is
/// ready.
pub fn preempt(q: &mut RunQueue, cpu: &mut PerCpu) -> (s: Option<Switch>)
    requires
        old(q)@.ready.len() > 0 ==> old(q)@.current is Some,
    ensures
        (final(q)@, s) == switched(old(q)@),
        *final(cpu) == if old(q)@.ready.len() > 0 {
            PerCpu { preemptions: old(cpu).preemptions.wrapping_add(1), ..*old(cpu) }
        } else {
            *old(cpu)
        },
{
    if q.ready.len() == 0 {
        return None;
    }
    cpu.count_preemption();
    switch_to_next(q)
}

/// The function of a thread from `k` on.
pub open spec fn entry_from(threads: Seq<KThread>, id: u64, k: int) -> Option<u64>
    decreases threads.len() - k,
{
    if k >= threads.len() {
        None
    } else if threads[k].id == id {
        threads[k].entry
    } else {
        entry_from(threads, id, k + 1)
    }
}

/// The function that the current thread runs; `None` if it is the starting context.
pub fn current_entry(q: &RunQueue) -> (entry: Option<u64>)
    ensures
        entry == match q@.current {
            Some(id) => entry_from(q@.threads, id, 0),
            None => None,
        },
{
    let id: u64 = match q.current {
        Some(id) => id,
        None => {
            return None;
        },
    };
    let mut i: usize = 0;
    while i < q.threads.len()
        invariant
            i <= q.threads@.len(),
            q.current == Some(id),
            entry_from(q@.threads, id, 0) == entry_from(q@.threads, id, i as int),
        decreases q.threads@.len() - i,
    {
        if q.threads[i].id == id {
            return q.threads[i].entry;
        }
        i = i + 1;
    }
    None
}

/// What the end of the current thread does: it is finished and the front thread runs.
pub open spec fn exited(m: QueueModel) -> (QueueModel, Switch) {
    let from = m.current.unwrap();
    let to = m.ready[0];
    (
        QueueModel {
            threads: with_state(with_state(m.threads, from, State::Finished), to, State::Running),
            ready: m.ready.remove(0),
            current: Some(to),
        },
        Switch { from, to },
    )
}

/// The current thread has returned. The starting context takes turns, so there is a thread to go
/// on with.
pub fn thread_exit(q: &mut RunQueue, cpu: &mut PerCpu) -> (s: Switch)
    requires
        old(q)@.current is Some,
        old(q)@.ready.len() > 0,
    ensures
        (final(q)@, s) == exited(old(q)@),
        *final(cpu) == (PerCpu { completed: old(cpu).completed.wrapping_add(1), ..*old(cpu) }),
{
    let ghost before = q@;
    let from: u64 = match q.current {
        Some(id) => id,
        None => 0,
    };
    set_state(&mut q.threads, from, State::Finished);
    let to: u64 = q.ready.remove(0);
    set_state(&mut q.threads, to, State::Running);
    q.current = Some(to);
    cpu.complete_thread();
    assert(q@ =~= exited(before).0);
    Switch { from, to }
}

/// A thread that has not finished.
pub open spec fn is_alive() -> spec_fn(KThread) -> bool {
    |t: KThread| t.state != State::Finished
}

/// The ids of the finished threads among the first `n`.
pub open spec fn finished_among(threads: Seq<KThread>, n: int) -> Seq<u64>
    decreases n,
{
    if n <= 0 {
        Seq::empty()
    } else if threads[n - 1].state == State::Finished {
        finished_among(threads, n - 1).push(threads[n - 1].id)
    } else {
        finished_among(threads, n - 1)
    }
}

/// Forgets the threads that have finished. Their stacks, by the ids that are returned, are no
/// longer needed.
pub fn reap_finished(q: &mut RunQueue) -> (ids: Vec<u64>)
    ensures
        final(q)@ == (QueueModel { threads: old(q)@.threads.filter(is_alive()), ..old(q)@ }),
        ids@ == finished_among(old(q)@.threads, old(q)@.threads.len() as int),
{
    let ghost before = q@;
    let mut ids: Vec<u64> = Vec::new();
    let mut alive: Vec<KThread> = Vec::new();
    let mut i: usize = 0;
    assert(before.threads.take(0).filter(is_alive()) =~= Seq::empty()) by {
        reveal(Seq::filter);
    }
    while i < q.threads.len()
        invariant
            i <= q.threads@.len(),
            q@ == before,
            before.threads == q.threads@,
            alive@ == before.threads.take(i as int).filter(is_alive()),
            ids@ == finished_among(before.threads, i as int),
        decreases q.threads@.len() - i,
    {
        let t: KThread = q.threads[i];
        proof {
            reveal(Seq::filter);
            assert(before.threads.take(i + 1).drop_last() =~= before.threads.take(i as int));
            assert(before.threads.take(i + 1).last() == t);
        }
        if t.state == State::Finished {
            ids.push(t.id);
        } else {
            alive.push(t);
        }
        i = i + 1;
    }
    assert(before.threads.take(i as int) =~= before.threads);
    q.threads = alive;
    ids
}

// The first stack frame of a thread.

/// The stack pointer with which a thread whose stack ends at `top` is first switched to.
pub open spec fn initial_sp(top: u64) -> u64 {
    (top - top % 16 - 64) as u64
}

/// The words to write on a new stack, from the stack pointer up: six registers that are popped,
/// and the address that is returned to.
pub open spec fn initial_words(entry: u64) -> Seq<u64> {
    seq![0, 0, 0, 0, 0, 0, entry]
}

/// Lays out the stack of a new thread to look as if it had been switched from: the words to
/// write at the stack pointer, with which it is first switched to.
pub fn prepare_stack(top: u64, entry: u64) -> (r: (u64, [u64; 7]))
    requires
        top >= 80,
    ensures
        r.0 == initial_sp(top),
        r.1@ == initial_words(entry),
{
    let words: [u64; 7] = [0, 0, 0, 0, 0, 0, entry];
    assert(words@ =~= initial_words(entry));
    (top - top % 16 - 64, words)
}

/// A new thread starts on an aligned stack, with room for its words, and its function begins
/// with the stack pointer that the calling convention asks for, 8 above a multiple of 16.
pub proof fn new_stack_is_aligned(top: u64)
    requires
        top >= 80,
    ensures
        initial_sp(top) % 16 == 0,
        initial_sp(top) + 8 * initial_words(0).len() < top,
        (initial_sp(top) + 8 * initial_words(0).len()) % 16 == 8,
{
}

// Laws.

/// Setting the state of a thread keeps the ids.
proof fn lemma_with_state(threads: Seq<KThread>, id: u64, state: State)
    ensures
        with_state(threads, id, state).len() == threads.len(),
        forall|i: int|
            0 <= i < threads.len() ==> (#[trigger] with_state(threads, id, state)[i]).id
                == threads[i].id,
        ids_differ(threads) ==> ids_differ(with_state(threads, id, state)),
{
}

/// A new thread keeps the queue as it should be.
pub proof fn spawn_keeps_the_queue(m: QueueModel, id: u64, entry: u64)
    requires
        queue_ok(m),
        ids_before(m, id),
        id < u64::MAX,
    ensures
        queue_ok(spawned(m, id, entry)),
        ids_before(spawned(m, id, entry), (id + 1) as u64),
{
    let n = spawned(m, id, entry);
    assert(!m.ready.contains(id)) by {
        if m.ready.contains(id) {
            assert(thread_in(m, id, State::Ready));
        }
    }
    assert(n.ready.no_duplicates()) by {
        assert forall|i: int, j: int|
            0 <= i < n.ready.len() && 0 <= j < n.ready.len() && i != j implies n.ready[i]
            != n.ready[j] by {
            if i < m.ready.len() && j < m.ready.len() {
            } else if i < m.ready.len() {
                assert(m.ready.contains(m.ready[i]));
            } else {
                assert(m.ready.contains(m.ready[j]));
            }
        }
    }
    assert(n.threads.drop_last() =~= m.threads);
    lemma_pushed(m, n);
    assert forall|x: u64| #[trigger] n.ready.contains(x) <==> thread_in(n, x, State::Ready) by {
        assert(n.ready[m.ready.len() as int] == id);
        assert(n.ready.contains(x) <==> m.ready.contains(x) || x == id) by {
            if m.ready.contains(x) {
                let k = choose|k: int| 0 <= k < m.ready.len() && m.ready[k] == x;
                assert(n.ready[k] == x);
            }
            if n.ready.contains(x) && x != id {
                let k = choose|k: int| 0 <= k < n.ready.len() && n.ready[k] == x;
                assert(m.ready[k] == x);
            }
        }
    }
}

/// The threads of `n` are those of `m` and one more.
proof fn lemma_pushed(m: QueueModel, n: QueueModel)
    requires
        n.threads.len() == m.threads.len() + 1,
        n.threads.drop_last() == m.threads,
    ensures
        forall|x: u64, s: State| #[trigger]
            thread_in(n, x, s) <==> thread_in(m, x, s) || (n.threads.last().id == x && n.threads.last().state
                == s),
{
    assert forall|x: u64, s: State| #[trigger] thread_in(n, x, s) <==> thread_in(m, x, s) || (
    n.threads.last().id == x && n.threads.last().state == s) by {
        if thread_in(m, x, s) {
            let k = choose|k: int|
                0 <= k < m.threads.len() && (#[trigger] m.threads[k]).id == x && m.threads[k].state
                    == s;
            assert(n.threads[k] == n.threads.drop_last()[k]);
        }
        if thread_in(n, x, s) {
            let k = choose|k: int|
                0 <= k < n.threads.len() && (#[trigger] n.threads[k]).id == x && n.threads[k].state
                    == s;
            if k < m.threads.len() {
                assert(m.threads[k] == n.threads.drop_last()[k]);
            }
        }
    }
}

/// The starting context becomes the one that runs.
pub proof fn start_keeps_the_queue(m: QueueModel, id: u64)
    requires
        queue_ok(m),
        ids_before(m, id),
        id < u64::MAX,
        m.current is None,
    ensures
        queue_ok(bootstrapped(m, id)),
        ids_before(bootstrapped(m, id), (id + 1) as u64),
{
    let n = bootstrapped(m, id);
    assert(n.threads.drop_last() =~= m.threads);
    lemma_pushed(m, n);
    assert(forall|x: u64| #[trigger] n.ready.contains(x) <==> m.ready.contains(x));
}

/// Where the states of two threads change, all other threads keep theirs.
proof fn lemma_changed(m: QueueModel, n: QueueModel, a: u64, sa: State, b: u64, sb: State)
    requires
        n.threads == with_state(with_state(m.threads, a, sa), b, sb),
        a != b,
        exists|s: State| thread_in(m, a, s),
        exists|s: State| thread_in(m, b, s),
    ensures
        forall|x: u64, s: State| #[trigger]
            thread_in(n, x, s) <==> if x == a {
                s == sa
            } else if x == b {
                s == sb
            } else {
                thread_in(m, x, s)
            },
{
    assert forall|x: u64, s: State| #[trigger] thread_in(n, x, s) <==> if x == a {
        s == sa
    } else if x == b {
        s == sb
    } else {
        thread_in(m, x, s)
    } by {
        if x == a || x == b {
            let t = if x == a {
                choose|t: State| thread_in(m, a, t)
            } else {
                choose|t: State| thread_in(m, b, t)
            };
            let k = choose|k: int|
                0 <= k < m.threads.len() && (#[trigger] m.threads[k]).id == x && m.threads[k].state
                    == t;
            assert(n.threads[k].id == x);
            if thread_in(n, x, s) {
                let j = choose|j: int|
                    0 <= j < n.threads.len() && (#[trigger] n.threads[j]).id == x
                        && n.threads[j].state == s;
                assert(m.threads[j].id == x);
            }
        } else {
            if thread_in(m, x, s) {
                let k = choose|k: int|
                    0 <= k < m.threads.len() && (#[trigger] m.threads[k]).id == x
                        && m.threads[k].state == s;
                assert(n.threads[k].id == x && n.threads[k].state == s);
            }
            if thread_in(n, x, s) {
                let j = choose|j: int|
                    0 <= j < n.threads.len() && (#[trigger] n.threads[j]).id == x
                        && n.threads[j].state == s;
                assert(m.threads[j].id == x && m.threads[j].state == s);
            }
        }
    }
}

/// Switching keeps the queue as it should be, and every thread.
pub proof fn switch_keeps_the_queue(m: QueueModel)
    requires
        queue_ok(m),
        m.current is Some,
    ensures
        queue_ok(switched(m).0),
        switched(m).0.threads.len() == m.threads.len(),
        forall|i: int|
            0 <= i < m.threads.len() ==> (#[trigger] switched(m).0.threads[i]).id
                == m.threads[i].id,
{
    if m.ready.len() > 0 {
        let n = switched(m).0;
        let from = m.current.unwrap();
        let to = m.ready[0];
        assert(m.ready.contains(to));
        assert(thread_in(m, to, State::Ready));
        assert(thread_in(m, from, State::Running));
        lemma_one_state(m, from, State::Running, State::Ready);
        assert(from != to);
        lemma_with_state(m.threads, from, State::Ready);
        lemma_with_state(with_state(m.threads, from, State::Ready), to, State::Running);
        lemma_changed(m, n, from, State::Ready, to, State::Running);
        assert(!m.ready.contains(from));
        lemma_rotated(m.ready, from);
        assert forall|x: u64| #[trigger] n.ready.contains(x) <==> thread_in(n, x, State::Ready) by {
            assert(m.ready.contains(x) <==> thread_in(m, x, State::Ready));
        }
        assert forall|x: u64| #[trigger] thread_in(n, x, State::Running) <==> n.current == Some(x) by {
            assert(thread_in(m, x, State::Running) <==> m.current == Some(x));
        }
    }
}

/// A thread is in one state.
proof fn lemma_one_state(m: QueueModel, id: u64, a: State, b: State)
    requires
        ids_differ(m.threads),
        thread_in(m, id, a),
        a != b,
    ensures
        !thread_in(m, id, b),
{
    if thread_in(m, id, b) {
        let i = choose|i: int|
            0 <= i < m.threads.len() && (#[trigger] m.threads[i]).id == id && m.threads[i].state
                == a;
        let j = choose|j: int|
            0 <= j < m.threads.len() && (#[trigger] m.threads[j]).id == id && m.threads[j].state
                == b;
        assert(i == j);
    }
}

/// The front of a queue has gone and another has come to the end.
proof fn lemma_rotated(s: Seq<u64>, x: u64)
    requires
        s.len() > 0,
        s.no_duplicates(),
        !s.contains(x),
    ensures
        s.remove(0).no_duplicates(),
        s.remove(0).push(x).no_duplicates(),
        forall|y: u64| #[trigger] s.remove(0).contains(y) <==> s.contains(y) && y != s[0],
        forall|y: u64| #[trigger]
            s.remove(0).push(x).contains(y) <==> (s.contains(y) && y != s[0]) || y == x,
{
    let r = s.remove(0);
    let p = r.push(x);
    assert forall|i: int, j: int| 0 <= i < r.len() && 0 <= j < r.len() && i != j implies r[i]
        != r[j] by {
        assert(r[i] == s[i + 1] && r[j] == s[j + 1]);
    }
    assert forall|y: u64| #[trigger] r.contains(y) <==> s.contains(y) && y != s[0] by {
        if s.contains(y) && y != s[0] {
            let k = choose|k: int| 0 <= k < s.len() && s[k] == y;
            assert(r[k - 1] == y);
        }
        if r.contains(y) {
            let k = choose|k: int| 0 <= k < r.len() && r[k] == y;
            assert(s[k + 1] == y);
        }
    }
    assert forall|i: int, j: int| 0 <= i < p.len() && 0 <= j < p.len() && i != j implies p[i]
        != p[j] by {
        if i < r.len() {
            assert(p[i] == r[i] && r.contains(r[i]));
        }
        if j < r.len() {
            assert(p[j] == r[j] && r.contains(r[j]));
        }
    }
    assert forall|y: u64| #[trigger] p.contains(y) <==> (s.contains(y) && y != s[0]) || y == x by {
        assert(p[r.len() as int] == x);
        if r.contains(y) {
            let k = choose|k: int| 0 <= k < r.len() && r[k] == y;
            assert(p[k] == y);
        }
        if p.contains(y) && y != x {
            let k = choose|k: int| 0 <= k < p.len() && p[k] == y;
            assert(r[k] == y);
        }
    }
}

/// The end of a thread keeps the queue as it should be.
pub proof fn exit_keeps_the_queue(m: QueueModel)
    requires
        queue_ok(m),
        m.current is Some,
        m.ready.len() > 0,
    ensures
        queue_ok(exited(m).0),
        thread_in(exited(m).0, m.current.unwrap(), State::Finished),
{
    let n = exited(m).0;
    let from = m.current.unwrap();
    let to = m.ready[0];
    assert(m.ready.contains(to));
    assert(thread_in(m, to, State::Ready));
    assert(thread_in(m, from, State::Running));
    lemma_one_state(m, from, State::Running, State::Ready);
    assert(from != to);
    lemma_with_state(m.threads, from, State::Finished);
    lemma_with_state(with_state(m.threads, from, State::Finished), to, State::Running);
    lemma_changed(m, n, from, State::Finished, to, State::Running);
    assert(!m.ready.contains(from));
    lemma_rotated(m.ready, from);
    assert forall|x: u64| #[trigger] n.ready.contains(x) <==> thread_in(n, x, State::Ready) by {
        assert(m.ready.contains(x) <==> thread_in(m, x, State::Ready));
    }
    assert forall|x: u64| #[trigger] thread_in(n, x, State::Running) <==> n.current == Some(x) by {
        assert(thread_in(m, x, State::Running) <==> m.current == Some(x));
    }
}

/// The queue after `n` switches.
pub open spec fn switches(m: QueueModel, n: nat) -> QueueModel
    decreases n,
{
    if n == 0 {
        m
    } else {
        switched(switches(m, (n - 1) as nat)).0
    }
}

/// No thread starves: the one at place `k` of the queue runs after `k + 1` switches.
pub proof fn every_thread_gets_its_turn(m: QueueModel, k: nat)
    requires
        m.current is Some,
        k < m.ready.len(),
    ensures
        switches(m, k + 1).current == Some(m.ready[k as int]),
{
    lemma_moves_up(m, k as int, k);
}

/// The thread at place `k` has moved up `n` places after `n` switches.
proof fn lemma_moves_up(m: QueueModel, k: int, n: nat)
    requires
        m.current is Some,
        n <= k < m.ready.len(),
    ensures
        switches(m, n).current is Some,
        switches(m, n).ready.len() == m.ready.len(),
        switches(m, n).ready[k - n] == m.ready[k],
    decreases n,
{
    if n > 0 {
        lemma_moves_up(m, k, (n - 1) as nat);
    }
}

/// Cleaning up forgets no thread that still has work, nor one that waits or runs.
pub proof fn reaping_keeps_the_living(m: QueueModel, i: int)
    requires
        0 <= i < m.threads.len(),
    ensures
        m.threads.filter(is_alive()).contains(m.threads[i]) <==> m.threads[i].state
            != State::Finished,
{
    broadcast use vstd::seq_lib::group_filter_ensures;

    let t = m.threads[i];
    assert(m.threads.contains(t));
    if t.state != State::Finished {
        assert(is_alive()(t));
    } else if m.threads.filter(is_alive()).contains(t) {
        let a = m.threads.filter(is_alive());
        let j = choose|j: int| 0 <= j < a.len() && a[j] == t;
        assert(is_alive()(a[j]));
    }
}

/// Giving up the CPU, or losing it, sends the running thread behind all that wait and lets the
/// first of them run. Only these two threads change, and only in their states. With nobody
/// waiting nothing happens.
pub proof fn turn_passes_to_the_first(m: QueueModel, i: int)
    requires
        queue_ok(m),
        m.current is Some,
        0 <= i < m.threads.len(),
    ensures
        ({
            let (after, s) = switched(m);
            let t = m.threads[i];
            let u = after.threads[i];
            &&& m.ready.len() == 0 ==> after == m && s is None
            &&& m.ready.len() > 0 ==> {
                &&& s == Some(Switch { from: m.current.unwrap(), to: m.ready[0] })
                &&& after.current == Some(m.ready[0])
                &&& after.ready == m.ready.skip(1) + seq![m.current.unwrap()]
                &&& after.threads.len() == m.threads.len()
                &&& u.id == t.id && u.entry == t.entry && u.is_bootstrap == t.is_bootstrap
                &&& t.id == m.ready[0] ==> u.state is Running
                &&& t.id == m.current.unwrap() ==> u.state is Ready
                &&& t.id != m.ready[0] && t.id != m.current.unwrap() ==> u == t
            }
        }),
{
    if m.ready.len() > 0 {
        let from = m.current.unwrap();
        let to = m.ready[0];
        assert(m.ready.contains(to));
        assert(thread_in(m, to, State::Ready));
        assert(thread_in(m, from, State::Running));
        lemma_one_state(m, from, State::Running, State::Ready);
        assert(switched(m).0.ready =~= m.ready.skip(1) + seq![from]);
    }
}

/// A thread that returns is finished for good: it is not queued again, and the first that waits
/// runs.
pub proof fn returned_thread_is_finished(m: QueueModel, i: int)
    requires
        queue_ok(m),
        m.current is Some,
        m.ready.len() > 0,
        0 <= i < m.threads.len(),
    ensures
        ({
            let (after, s) = exited(m);
            let t = m.threads[i];
            let u = after.threads[i];
            &&& s == Switch { from: m.current.unwrap(), to: m.ready[0] }
            &&& after.current == Some(m.ready[0])
            &&& after.ready == m.ready.skip(1)
            &&& !after.ready.contains(m.current.unwrap())
            &&& after.threads.len() == m.threads.len()
            &&& u.id == t.id && u.entry == t.entry && u.is_bootstrap == t.is_bootstrap
            &&& t.id == m.ready[0] ==> u.state is Running
            &&& t.id == m.current.unwrap() ==> u.state is Finished
            &&& t.id != m.ready[0] && t.id != m.current.unwrap() ==> u == t
        }),
{
    let from = m.current.unwrap();
    let to = m.ready[0];
    assert(m.ready.contains(to));
    assert(thread_in(m, to, State::Ready));
    assert(thread_in(m, from, State::Running));
    lemma_one_state(m, from, State::Running, State::Ready);
    assert(!m.ready.contains(from));
    assert(exited(m).0.ready =~= m.ready.skip(1));
    if exited(m).0.ready.contains(from) {
        let k = choose|k: int| 0 <= k < m.ready.skip(1).len() && m.ready.skip(1)[k] == from;
        assert(m.ready[k + 1] == from);
    }
}

/// A new thread waits behind all others, to run its function; the context that the core started
/// with runs at once.
pub proof fn new_thread_waits_behind(m: QueueModel, id: u64, entry: u64)
    ensures
        spawned(m, id, entry).ready == m.ready + seq![id],
        spawned(m, id, entry).threads == m.threads + seq![
            KThread { id, state: State::Ready, entry: Some(entry), is_bootstrap: false },
        ],
        spawned(m, id, entry).current == m.current,
        bootstrapped(m, id).ready == m.ready,
        bootstrapped(m, id).threads == m.threads + seq![
            KThread { id, state: State::Running, entry: None, is_bootstrap: true },
        ],
        bootstrapped(m, id).current == Some(id),
{
    assert(spawned(m, id, entry).ready =~= m.ready + seq![id]);
    assert(spawned(m, id, entry).threads =~= m.threads + seq![
        KThread { id, state: State::Ready, entry: Some(entry), is_bootstrap: false },
    ]);
    assert(bootstrapped(m, id).threads =~= m.threads + seq![
        KThread { id, state: State::Running, entry: None, is_bootstrap: true },
    ]);
}

/// The function of a thread is found by its id.
pub proof fn thread_runs_its_function(threads: Seq<KThread>, i: int, k: int)
    requires
        ids_differ(threads),
        0 <= k <= i < threads.len(),
    ensures
        entry_from(threads, threads[i].id, k) == threads[i].entry,
    decreases i - k,
{
    if k < i {
        assert(threads[k].id != threads[i].id);
        thread_runs_its_function(threads, i, k + 1);
    }
}

/// Cleaning up tells the ids of all threads that have finished, and of no others.
pub proof fn finished_threads_are_told(threads: Seq<KThread>, n: int, id: u64)
    requires
        0 <= n <= threads.len(),
    ensures
        finished_among(threads, n).contains(id) <==> exists|i: int|
            0 <= i < n && (#[trigger] threads[i]).id == id && threads[i].state is Finished,
    decreases n,
{
    if n > 0 {
        finished_threads_are_told(threads, n - 1, id);
        let before = finished_among(threads, n - 1);
        let after = finished_among(threads, n);
        if threads[n - 1].state is Finished {
            assert(after[before.len() as int] == threads[n - 1].id);
            if before.contains(id) {
                let j = choose|j: int| 0 <= j < before.len() && before[j] == id;
                assert(after[j] == id);
            }
            if after.contains(id) && threads[n - 1].id != id {
                let j = choose|j: int| 0 <= j < after.len() && after[j] == id;
                assert(before[j] == id);
            }
        }
    }
}

} // verus!
