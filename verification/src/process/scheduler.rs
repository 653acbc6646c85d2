//! The scheduler of user processes: round robin, with blocking on children and on the network.
//!
//! The handlers here are called with the context of the process that trapped or was interrupted,
//! and may replace it by that of another. They say which address space to resume in.

use vstd::prelude::*;

use crate::interrupts;
use crate::interrupts::{InterruptFrame, TrapFrame};
use crate::net::connect::Connect;
use crate::net::jobs;
use crate::net::jobs::{Step, StepView};
use crate::net::stack;
use crate::net::stack::{
    our_ip, tcp_accept, tcp_listen, tcp_read, tcp_reset, tcp_send, Stack, StackModel,
};
use crate::net::tcp;
use crate::net::tcp::model;
use crate::process::loader::UserImage;
use crate::process::program;
use crate::process::program::{accept_demo_elf, pack_dst, parent_elf, program_elf, unpack_dst};
use crate::syscall::FAILED;

verus! {

/// How often the network is polled for a process that waits for it.
pub const RECV_POLL_ITERS: u32 = 2000;

/// A socket of a process: the ports of its connection, or of the listener that it is. A fresh
/// one has no ports.
#[derive(Debug, Clone, Copy, PartialEq, Eq, Structural)]
pub struct UserSocket {
    pub local_port: u16,
    pub remote_port: u16,
    pub listening: bool,
}

/// A process.
pub struct Process {
    pub id: u64,
    pub image: UserImage,
    /// Where it goes on when it runs again.
    pub context: TrapFrame,
    /// Who may wait for it.
    pub parent: Option<u64>,
    /// Its open sockets by descriptor.
    pub sockets: Vec<Option<UserSocket>>,
}

/// A process, over sequences.
#[verifier::ext_equal]
pub struct ProcessModel {
    pub id: u64,
    pub image: UserImage,
    pub context: TrapFrame,
    pub parent: Option<u64>,
    pub sockets: Seq<Option<UserSocket>>,
}

impl View for Process {
    type V = ProcessModel;

    open spec fn view(&self) -> ProcessModel {
        ProcessModel {
            id: self.id,
            image: self.image,
            context: self.context,
            parent: self.parent,
            sockets: self.sockets@,
        }
    }
}

/// A child that has exited and has not been waited for.
#[derive(Debug, Clone, Copy, PartialEq, Eq, Structural)]
pub struct Zombie {
    pub parent: u64,
    pub child: u64,
    pub code: u64,
}

/// Totals since boot, and what happened last.
#[derive(Debug, Clone, Copy, PartialEq, Eq, Structural)]
pub struct Counters {
    pub exited: u64,
    pub yielded: u64,
    pub preempted: u64,
    pub waited: u64,
    pub last_waited_code: u64,
    pub spawned: u64,
    pub connected: u64,
    pub sent: u64,
    pub received: u64,
    pub last_recv_len: u64,
    pub listened: u64,
    pub accepted: u64,
    pub last_accepted_fd: u64,
    /// The address space of the process that ran last.
    pub last_l4: u64,
    /// The kernel's own address space.
    pub kernel_l4: u64,
}

/// The state of the scheduler.
#[verifier::ext_equal]
pub struct SchedModel {
    pub ready: Seq<ProcessModel>,
    pub current: Option<ProcessModel>,
    /// Processes that wait for a child.
    pub blocked: Seq<ProcessModel>,
    /// Processes that wait for the network.
    pub net_blocked: Seq<ProcessModel>,
    pub zombies: Seq<Zombie>,
    pub next_id: u64,
    pub counters: Counters,
}

/// The scheduler.
pub struct Scheduler {
    ready: Vec<Process>,
    current: Option<Process>,
    blocked: Vec<Process>,
    net_blocked: Vec<Process>,
    zombies: Vec<Zombie>,
    next_id: u64,
    counters: Counters,
}

/// Processes, over sequences.
pub open spec fn views(ps: Seq<Process>) -> Seq<ProcessModel> {
    Seq::new(ps.len(), |i: int| ps[i]@)
}

/// An optional process, over sequences.
pub open spec fn view_of(p: Option<Process>) -> Option<ProcessModel> {
    match p {
        Some(p) => Some(p@),
        None => None,
    }
}

impl View for Scheduler {
    type V = SchedModel;

    closed spec fn view(&self) -> SchedModel {
        SchedModel {
            ready: views(self.ready@),
            current: view_of(self.current),
            blocked: views(self.blocked@),
            net_blocked: views(self.net_blocked@),
            zombies: self.zombies@,
            next_id: self.next_id,
            counters: self.counters,
        }
    }
}

/// Where to go on after a handler.
#[derive(Debug, Clone, Copy, PartialEq, Eq, Structural)]
pub enum Resume {
    /// In the address space that is active.
    Here,
    /// In the address space with this top table.
    Space(u64),
    /// In the kernel: nothing is left to run.
    Kernel,
}

/// The counters at the start.
pub open spec fn fresh_counters() -> Counters {
    Counters {
        exited: 0,
        yielded: 0,
        preempted: 0,
        waited: 0,
        last_waited_code: FAILED,
        spawned: 0,
        connected: 0,
        sent: 0,
        received: 0,
        last_recv_len: 0,
        listened: 0,
        accepted: 0,
        last_accepted_fd: FAILED,
        last_l4: 0,
        kernel_l4: 0,
    }
}

/// The scheduler at the start.
pub open spec fn fresh() -> SchedModel {
    SchedModel {
        ready: Seq::empty(),
        current: None,
        blocked: Seq::empty(),
        net_blocked: Seq::empty(),
        zombies: Seq::empty(),
        next_id: 1,
        counters: fresh_counters(),
    }
}

impl Scheduler {
    /// A scheduler without processes.
    pub fn new() -> (s: Scheduler)
        ensures
            s@ == fresh(),
    {
        let s = Scheduler {
            ready: Vec::new(),
            current: None,
            blocked: Vec::new(),
            net_blocked: Vec::new(),
            zombies: Vec::new(),
            next_id: 1,
            counters: Counters {
                exited: 0,
                yielded: 0,
                preempted: 0,
                waited: 0,
                last_waited_code: FAILED,
                spawned: 0,
                connected: 0,
                sent: 0,
                received: 0,
                last_recv_len: 0,
                listened: 0,
                accepted: 0,
                last_accepted_fd: FAILED,
                last_l4: 0,
                kernel_l4: 0,
            },
        };
        assert(s@ =~= fresh());
        s
    }
}

/// A process that has not run yet.
pub open spec fn newborn(
    id: u64,
    image: UserImage,
    parent: Option<u64>,
    iframe: InterruptFrame,
) -> ProcessModel {
    ProcessModel {
        id,
        image,
        context: interrupts::fresh_frame(iframe),
        parent,
        sockets: Seq::empty(),
    }
}

/// The scheduler with a new process at the end of the queue.
pub open spec fn spawned(
    m: SchedModel,
    image: UserImage,
    parent: Option<u64>,
    iframe: InterruptFrame,
) -> SchedModel {
    SchedModel {
        ready: m.ready.push(newborn(m.next_id, image, parent, iframe)),
        next_id: (m.next_id + 1) as u64,
        ..m
    }
}

/// Adds a loaded program as a process, which starts with `iframe`. Returns its id.
pub fn spawn(s: &mut Scheduler, image: UserImage, parent: Option<u64>, iframe: InterruptFrame) -> (id:
    u64)
    requires
        old(s)@.next_id < u64::MAX,
    ensures
        id == old(s)@.next_id,
        final(s)@ == spawned(old(s)@, image, parent, iframe),
{
    let ghost before = s@;
    let id: u64 = s.next_id;
    s.next_id = id + 1;
    let p = Process { id, image, context: TrapFrame::new(iframe), parent, sockets: Vec::new() };
    let ghost view = p@;
    assert(view =~= newborn(id, image, parent, iframe));
    s.ready.push(p);
    assert(s@.ready =~= before.ready.push(view));
    id
}

/// The scheduler after the process at the front of the queue has been made current.
pub open spec fn activated(m: SchedModel) -> SchedModel {
    if m.ready.len() == 0 {
        m
    } else {
        SchedModel {
            ready: m.ready.remove(0),
            current: Some(m.ready[0]),
            counters: Counters { last_l4: m.ready[0].image.l4, ..m.counters },
            ..m
        }
    }
}

/// Makes the process at the front of the queue current and returns its context and address
/// space; `None` if the queue is empty.
fn activate_next(s: &mut Scheduler) -> (next: Option<(TrapFrame, u64)>)
    ensures
        final(s)@ == activated(old(s)@),
        match next {
            Some((context, l4)) => old(s)@.ready.len() > 0 && context == old(s)@.ready[0].context
                && l4 == old(s)@.ready[0].image.l4,
            None => old(s)@.ready.len() == 0,
        },
{
    let ghost before = s@;
    assert(before.ready.len() == s.ready@.len());
    if s.ready.len() == 0 {
        return None;
    }
    assert(before.ready[0] == s.ready@[0]@);
    let next: Process = s.ready.remove(0);
    assert(views(s.ready@) =~= before.ready.remove(0));
    let context: TrapFrame = next.context;
    let l4: u64 = next.image.l4;
    s.counters.last_l4 = l4;
    s.current = Some(next);
    assert(s@ =~= activated(before));
    Some((context, l4))
}

/// The process with which the user phase begins: its entry point, stack and address space.
pub open spec fn first_to_run(m: SchedModel) -> Option<UserImage> {
    if m.ready.len() == 0 {
        None
    } else {
        Some(m.ready[0].image)
    }
}

/// Begins to run the processes: notes the kernel's address space and makes the first process
/// current. `None` if there is none.
pub fn run(s: &mut Scheduler, kernel_l4: u64) -> (first: Option<UserImage>)
    ensures
        first == first_to_run(old(s)@),
        final(s)@ == activated(
            (SchedModel {
                counters: Counters { kernel_l4, ..old(s)@.counters },
                ..old(s)@
            }),
        ),
{
    let ghost before = s@;
    s.counters.kernel_l4 = kernel_l4;
    assert(s@ =~= (SchedModel {
        counters: Counters { kernel_l4, ..before.counters },
        ..before
    }));
    let first: Option<UserImage> = if s.ready.len() == 0 {
        None
    } else {
        assert(before.ready[0] == s.ready@[0]@);
        Some(s.ready[0].image)
    };
    assert(before.ready.len() == s.ready@.len());
    activate_next(s);
    first
}

/// The scheduler after the current process, with context `tf`, has gone to the end of the queue.
pub open spec fn requeued(m: SchedModel, tf: TrapFrame) -> SchedModel {
    match m.current {
        Some(p) => SchedModel {
            ready: m.ready.push(ProcessModel { context: tf, ..p }),
            current: None,
            ..m
        },
        None => m,
    }
}

/// Where to go on with the process at the front of the queue, or as before if there is none.
pub open spec fn next_or_here(m: SchedModel, tf: TrapFrame) -> (TrapFrame, Resume) {
    if m.ready.len() == 0 {
        (tf, Resume::Here)
    } else {
        (m.ready[0].context, Resume::Space(m.ready[0].image.l4))
    }
}

/// Where to go on with the process at the front of the queue, or in the kernel if there is none.
pub open spec fn next_or_kernel(m: SchedModel, tf: TrapFrame) -> (TrapFrame, Resume) {
    if m.ready.len() == 0 {
        (tf, Resume::Kernel)
    } else {
        (m.ready[0].context, Resume::Space(m.ready[0].image.l4))
    }
}

/// Puts the current process at the end of the queue.
fn requeue(s: &mut Scheduler, tf: &TrapFrame)
    ensures
        final(s)@ == requeued(old(s)@, *tf),
{
    let ghost before = s@;
    let mut taken: Option<Process> = None;
    std::mem::swap(&mut taken, &mut s.current);
    if let Some(mut p) = taken {
        p.context = *tf;
        let ghost view = p@;
        s.ready.push(p);
        assert(view =~= (ProcessModel { context: *tf, ..before.current.unwrap() }));
        assert(views(s.ready@) =~= before.ready.push(view));
    }
    assert(s@ =~= requeued(before, *tf));
}

/// The scheduler after a yield, before the next process is made current.
pub open spec fn yielding(m: SchedModel, tf: TrapFrame) -> SchedModel {
    requeued(
        SchedModel {
            counters: Counters { yielded: m.counters.yielded.wrapping_add(1), ..m.counters },
            ..m
        },
        tf,
    )
}

/// The current process gives up the CPU: it goes to the end of the queue and the one at the
/// front goes on.
pub fn on_user_yield(s: &mut Scheduler, tf: &mut TrapFrame) -> (r: Resume)
    ensures
        final(s)@ == activated(yielding(old(s)@, *old(tf))),
        (*final(tf), r) == next_or_here(yielding(old(s)@, *old(tf)), *old(tf)),
{
    s.counters.yielded = s.counters.yielded.wrapping_add(1);
    assert(s@ =~= (SchedModel {
        counters: Counters {
            yielded: old(s)@.counters.yielded.wrapping_add(1),
            ..old(s)@.counters
        },
        ..old(s)@
    }));
    requeue(s, tf);
    match activate_next(s) {
        Some((context, l4)) => {
            *tf = context;
            Resume::Space(l4)
        },
        None => Resume::Here,
    }
}

/// The position of the first process with this id.
pub open spec fn position_from(ps: Seq<ProcessModel>, id: u64, k: int) -> Option<int>
    decreases ps.len() - k,
{
    if k >= ps.len() {
        None
    } else if ps[k].id == id {
        Some(k)
    } else {
        position_from(ps, id, k + 1)
    }
}

/// The position of the first process with this id.
pub open spec fn position(ps: Seq<ProcessModel>, id: u64) -> Option<int> {
    position_from(ps, id, 0)
}

/// A process that is there is found.
proof fn lemma_found(ps: Seq<ProcessModel>, i: int, k: int)
    requires
        0 <= k <= i < ps.len(),
    ensures
        position_from(ps, ps[i].id, k) is Some,
    decreases i - k,
{
    if k < i {
        lemma_found(ps, i, k + 1);
    }
}

/// The position of the first process with this id.
fn find(ps: &Vec<Process>, id: u64) -> (at: Option<usize>)
    ensures
        match at {
            Some(i) => position(views(ps@), id) == Some(i as int) && i < ps@.len(),
            None => position(views(ps@), id) is None,
        },
{
    let mut i: usize = 0;
    while i < ps.len()
        invariant
            i <= ps@.len(),
            position(views(ps@), id) == position_from(views(ps@), id, i as int),
        decreases ps@.len() - i,
    {
        assert(views(ps@)[i as int] == ps@[i as int]@);
        if ps[i].id == id {
            return Some(i);
        }
        i = i + 1;
    }
    None
}

/// The scheduler after the exit code of a child has been delivered to its parent: one that waits
/// is woken with the code in `rax`, and otherwise a zombie keeps it.
pub open spec fn delivered(m: SchedModel, parent: u64, child: u64, code: u64) -> SchedModel {
    match position(m.blocked, parent) {
        Some(i) => {
            let w = m.blocked[i];
            SchedModel {
                blocked: m.blocked.remove(i),
                ready: m.ready.push(
                    ProcessModel { context: TrapFrame { rax: code, ..w.context }, ..w },
                ),
                counters: Counters {
                    waited: m.counters.waited.wrapping_add(1),
                    last_waited_code: code,
                    ..m.counters
                },
                ..m
            }
        },
        None => SchedModel {
            zombies: m.zombies.push(Zombie { parent, child, code }),
            ..m
        },
    }
}

/// Delivers the exit code of a child to its parent.
fn deliver(s: &mut Scheduler, parent: u64, child: u64, code: u64)
    ensures
        final(s)@ == delivered(old(s)@, parent, child, code),
{
    let ghost before = s@;
    match find(&s.blocked, parent) {
        Some(i) => {
            assert(before.blocked[i as int] == s.blocked@[i as int]@);
            let mut w: Process = s.blocked.remove(i);
            assert(views(s.blocked@) =~= before.blocked.remove(i as int));
            w.context.rax = code;
            let ghost view = w@;
            s.ready.push(w);
            assert(views(s.ready@) =~= before.ready.push(view));
            s.counters.waited = s.counters.waited.wrapping_add(1);
            s.counters.last_waited_code = code;
            assert(s@ =~= delivered(before, parent, child, code));
        },
        None => {
            s.zombies.push(Zombie { parent, child, code });
            assert(s@ =~= delivered(before, parent, child, code));
        },
    }
}

/// The scheduler after the current process has exited, before the next is made current.
pub open spec fn exiting(m: SchedModel, code: u64) -> SchedModel {
    let gone = SchedModel {
        current: None,
        counters: Counters { exited: m.counters.exited.wrapping_add(1), ..m.counters },
        ..m
    };
    match m.current {
        Some(p) => match p.parent {
            Some(parent) => delivered(gone, parent, p.id, code),
            None => gone,
        },
        None => gone,
    }
}

/// The current process exits. Its exit code goes to its parent, and the process at the front of
/// the queue goes on, or the kernel if there is none.
pub fn on_user_exit(s: &mut Scheduler, tf: &mut TrapFrame, code: u64) -> (r: Resume)
    ensures
        final(s)@ == activated(exiting(old(s)@, code)),
        (*final(tf), r) == next_or_kernel(exiting(old(s)@, code), *old(tf)),
{
    let ghost before = s@;
    s.counters.exited = s.counters.exited.wrapping_add(1);
    let mut taken: Option<Process> = None;
    std::mem::swap(&mut taken, &mut s.current);
    assert(s@ =~= (SchedModel {
        current: None,
        counters: Counters { exited: before.counters.exited.wrapping_add(1), ..before.counters },
        ..before
    }));
    if let Some(p) = taken {
        if let Some(parent) = p.parent {
            deliver(s, parent, p.id, code);
        }
    }
    match activate_next(s) {
        Some((context, l4)) => {
            *tf = context;
            Resume::Space(l4)
        },
        None => Resume::Kernel,
    }
}

/// The position of the first zombie of this parent.
pub open spec fn zombie_from(zs: Seq<Zombie>, parent: u64, k: int) -> Option<int>
    decreases zs.len() - k,
{
    if k >= zs.len() {
        None
    } else if zs[k].parent == parent {
        Some(k)
    } else {
        zombie_from(zs, parent, k + 1)
    }
}

/// The position of the first zombie of this parent.
fn find_zombie(zs: &Vec<Zombie>, parent: u64) -> (at: Option<usize>)
    ensures
        match at {
            Some(i) => zombie_from(zs@, parent, 0) == Some(i as int) && i < zs@.len(),
            None => zombie_from(zs@, parent, 0) is None,
        },
{
    let mut i: usize = 0;
    while i < zs.len()
        invariant
            i <= zs@.len(),
            zombie_from(zs@, parent, 0) == zombie_from(zs@, parent, i as int),
        decreases zs@.len() - i,
    {
        if zs[i].parent == parent {
            return Some(i);
        }
        i = i + 1;
    }
    None
}

/// Whether one of the processes is a child of this parent.
pub open spec fn any_child(ps: Seq<ProcessModel>, parent: u64) -> bool {
    exists|i: int| 0 <= i < ps.len() && (#[trigger] ps[i]).parent == Some(parent)
}

/// Whether one of the processes is a child of this parent.
fn has_child(ps: &Vec<Process>, parent: u64) -> (yes: bool)
    ensures
        yes == any_child(views(ps@), parent),
{
    let mut i: usize = 0;
    while i < ps.len()
        invariant
            i <= ps@.len(),
            forall|j: int| 0 <= j < i ==> (#[trigger] views(ps@)[j]).parent != Some(parent),
        decreases ps@.len() - i,
    {
        assert(views(ps@)[i as int] == ps@[i as int]@);
        if let Some(id) = ps[i].parent {
            if id == parent {
                assert(views(ps@)[i as int].parent == Some(parent));
                return true;
            }
        }
        i = i + 1;
    }
    false
}

/// The scheduler after the current process has blocked on its children.
pub open spec fn parked(m: SchedModel, tf: TrapFrame) -> SchedModel {
    match m.current {
        Some(p) => SchedModel {
            blocked: m.blocked.push(ProcessModel { context: tf, ..p }),
            current: None,
            ..m
        },
        None => m,
    }
}

/// What waiting for a child does: a child that has exited is collected, its code in `rax`;
/// without children the result is -1; and otherwise the process blocks until one exits.
pub open spec fn waiting(m: SchedModel, tf: TrapFrame) -> (SchedModel, TrapFrame, Resume) {
    match m.current {
        None => (m, tf, Resume::Here),
        Some(p) => match zombie_from(m.zombies, p.id, 0) {
            Some(i) => (
                SchedModel {
                    zombies: m.zombies.remove(i),
                    counters: Counters {
                        waited: m.counters.waited.wrapping_add(1),
                        last_waited_code: m.zombies[i].code,
                        ..m.counters
                    },
                    ..m
                },
                TrapFrame { rax: m.zombies[i].code, ..tf },
                Resume::Here,
            ),
            None => if !any_child(m.ready, p.id) && !any_child(m.blocked, p.id) {
                (m, TrapFrame { rax: FAILED, ..tf }, Resume::Here)
            } else {
                let (context, r) = next_or_kernel(parked(m, tf), tf);
                (activated(parked(m, tf)), context, r)
            },
        },
    }
}

/// The current process waits for a child to exit.
pub fn on_user_wait(s: &mut Scheduler, tf: &mut TrapFrame) -> (r: Resume)
    ensures
        (final(s)@, *final(tf), r) == waiting(old(s)@, *old(tf)),
{
    let ghost before = s@;
    let pid: u64 = match &s.current {
        Some(p) => p.id,
        None => {
            return Resume::Here;
        },
    };
    if let Some(i) = find_zombie(&s.zombies, pid) {
        let z: Zombie = s.zombies.remove(i);
        s.counters.waited = s.counters.waited.wrapping_add(1);
        s.counters.last_waited_code = z.code;
        tf.rax = z.code;
        assert(s@ =~= waiting(before, *old(tf)).0);
        return Resume::Here;
    }
    if !has_child(&s.ready, pid) && !has_child(&s.blocked, pid) {
        tf.rax = FAILED;
        return Resume::Here;
    }
    let mut taken: Option<Process> = None;
    std::mem::swap(&mut taken, &mut s.current);
    if let Some(mut p) = taken {
        p.context = *tf;
        let ghost view = p@;
        s.blocked.push(p);
        assert(view =~= (ProcessModel { context: *tf, ..before.current.unwrap() }));
        assert(views(s.blocked@) =~= before.blocked.push(view));
    }
    assert(s@ =~= parked(before, *old(tf)));
    match activate_next(s) {
        Some((context, l4)) => {
            *tf = context;
            Resume::Space(l4)
        },
        None => Resume::Kernel,
    }
}

/// What a spawn asks for: the id of the caller and the program to load; `None` if there is no
/// caller or no such program.
pub fn spawn_request(s: &Scheduler, prog_id: u64) -> (r: Option<(u64, Vec<u8>)>)
    ensures
        match r {
            Some((parent, image)) => s@.current matches Some(p) && p.id == parent && prog_id
                == program::PROG_CHILD && image@ == program::child_image(),
            None => s@.current is None || prog_id != program::PROG_CHILD,
        },
{
    let parent: u64 = match &s.current {
        Some(p) => p.id,
        None => {
            return None;
        },
    };
    match program_elf(prog_id) {
        Some(image) => Some((parent, image)),
        None => None,
    }
}

/// What a spawn does with the program that was loaded for it, if it could be.
pub open spec fn spawning(
    m: SchedModel,
    parent: u64,
    loaded: Option<(UserImage, InterruptFrame)>,
) -> (SchedModel, u64) {
    match loaded {
        Some((image, iframe)) => {
            let after = spawned(m, image, Some(parent), iframe);
            (
                SchedModel {
                    counters: Counters {
                        spawned: m.counters.spawned.wrapping_add(1),
                        ..m.counters
                    },
                    ..after
                },
                m.next_id,
            )
        },
        None => (m, FAILED),
    }
}

/// Completes a spawn for the process `parent`. The result is the id of the child, which does not
/// run yet.
pub fn on_user_spawn(s: &mut Scheduler, parent: u64, loaded: Option<(UserImage, InterruptFrame)>) -> (pid:
    u64)
    requires
        old(s)@.next_id < u64::MAX,
    ensures
        (final(s)@, pid) == spawning(old(s)@, parent, loaded),
{
    match loaded {
        Some((image, iframe)) => {
            let ghost before = s@;
            let pid: u64 = spawn(s, image, Some(parent), iframe);
            s.counters.spawned = s.counters.spawned.wrapping_add(1);
            assert(s@ =~= spawning(before, parent, loaded).0);
            pid
        },
        None => FAILED,
    }
}

/// The scheduler after a tick of the timer has preempted the current process.
pub open spec fn preempting(m: SchedModel, tf: TrapFrame) -> SchedModel {
    requeued(
        SchedModel {
            counters: Counters { preempted: m.counters.preempted.wrapping_add(1), ..m.counters },
            ..m
        },
        tf,
    )
}

/// What a tick of the timer does: the current process goes to the end of the queue and the one
/// at the front goes on. Nothing changes if no process is current or no other is ready.
pub open spec fn ticking(m: SchedModel, tf: TrapFrame) -> (SchedModel, TrapFrame, Resume) {
    if m.current is None || m.ready.len() == 0 {
        (m, tf, Resume::Here)
    } else {
        let (context, r) = next_or_here(preempting(m, tf), tf);
        (activated(preempting(m, tf)), context, r)
    }
}

/// A tick of the timer interrupts the current process.
pub fn on_timer_tick(s: &mut Scheduler, tf: &mut TrapFrame) -> (r: Resume)
    ensures
        (final(s)@, *final(tf), r) == ticking(old(s)@, *old(tf)),
{
    assert(s@.ready.len() == s.ready@.len());
    if s.current.is_none() || s.ready.len() == 0 {
        return Resume::Here;
    }
    s.counters.preempted = s.counters.preempted.wrapping_add(1);
    assert(s@ =~= (SchedModel {
        counters: Counters {
            preempted: old(s)@.counters.preempted.wrapping_add(1),
            ..old(s)@.counters
        },
        ..old(s)@
    }));
    requeue(s, tf);
    match activate_next(s) {
        Some((context, l4)) => {
            *tf = context;
            Resume::Space(l4)
        },
        None => Resume::Here,
    }
}

/// The socket that a process has under this descriptor.
pub open spec fn socket_at(p: ProcessModel, fd: u64) -> Option<UserSocket> {
    if fd < p.sockets.len() {
        p.sockets[fd as int]
    } else {
        None
    }
}

/// The socket that the current process has under this descriptor.
pub open spec fn own_socket(m: SchedModel, fd: u64) -> Option<UserSocket> {
    match m.current {
        Some(p) => socket_at(p, fd),
        None => None,
    }
}

/// The socket under this descriptor.
fn socket(sockets: &Vec<Option<UserSocket>>, fd: u64) -> (s: Option<UserSocket>)
    ensures
        s == if fd < sockets@.len() {
            sockets@[fd as int]
        } else {
            None
        },
{
    if fd < sockets.len() as u64 {
        sockets[fd as usize]
    } else {
        None
    }
}

/// The first descriptor from `k` on that is free.
pub open spec fn free_from(sockets: Seq<Option<UserSocket>>, k: int) -> int
    decreases sockets.len() - k,
{
    if k >= sockets.len() || sockets[k] is None {
        k
    } else {
        free_from(sockets, k + 1)
    }
}

/// The sockets of a process after one has been added under the lowest free descriptor, and that
/// descriptor.
pub open spec fn with_socket(sockets: Seq<Option<UserSocket>>, sock: UserSocket) -> (
    Seq<Option<UserSocket>>,
    u64,
) {
    let fd = free_from(sockets, 0);
    (
        if fd < sockets.len() {
            sockets.update(fd, Some(sock))
        } else {
            sockets.push(Some(sock))
        },
        fd as u64,
    )
}

/// Adds a socket under the lowest free descriptor, which it returns.
fn alloc_socket(sockets: &mut Vec<Option<UserSocket>>, sock: UserSocket) -> (fd: u64)
    ensures
        (final(sockets)@, fd) == with_socket(old(sockets)@, sock),
{
    let mut i: usize = 0;
    while i < sockets.len()
        invariant
            i <= sockets@.len(),
            sockets@ == old(sockets)@,
            free_from(sockets@, 0) == free_from(sockets@, i as int),
        decreases sockets@.len() - i,
    {
        if sockets[i].is_none() {
            sockets[i] = Some(sock);
            return i as u64;
        }
        i = i + 1;
    }
    sockets.push(Some(sock));
    i as u64
}

/// What opening a socket does: the current process gets a fresh one.
pub open spec fn opening(m: SchedModel) -> (SchedModel, u64) {
    match m.current {
        Some(p) => {
            let (sockets, fd) = with_socket(
                p.sockets,
                UserSocket { local_port: 0, remote_port: 0, listening: false },
            );
            (SchedModel { current: Some(ProcessModel { sockets, ..p }), ..m }, fd)
        },
        None => (m, FAILED),
    }
}

/// Opens a socket for the current process. The result is its descriptor, the lowest that is
/// free.
pub fn on_user_socket(s: &mut Scheduler) -> (fd: u64)
    ensures
        (final(s)@, fd) == opening(old(s)@),
{
    let ghost before = s@;
    let mut taken: Option<Process> = None;
    std::mem::swap(&mut taken, &mut s.current);
    match taken {
        Some(mut p) => {
            let fd: u64 = alloc_socket(
                &mut p.sockets,
                UserSocket { local_port: 0, remote_port: 0, listening: false },
            );
            s.current = Some(p);
            assert(s@ =~= opening(before).0);
            fd
        },
        None => {
            assert(s@ =~= before);
            FAILED
        },
    }
}

/// Whether a socket is neither connected nor listening.
pub open spec fn is_unbound(sock: Option<UserSocket>) -> bool {
    match sock {
        Some(sock) => sock.local_port == 0 && !sock.listening,
        None => false,
    }
}

/// The sockets of the current process with one replaced.
pub open spec fn bound(p: ProcessModel, fd: u64, sock: UserSocket) -> ProcessModel {
    ProcessModel { sockets: p.sockets.update(fd as int, Some(sock)), ..p }
}

/// The low 16 bits of a port argument.
pub open spec fn port_of(port: u64) -> u16 {
    (port % 65536) as u16
}

/// The stack with a listener on `port`.
pub open spec fn with_listener(m: StackModel, port: u16) -> StackModel {
    match model::find(m.tcp.connections, model::listens_on(port)) {
        Some(_) => m,
        None => StackModel {
            tcp: model::TcpModel {
                connections: m.tcp.connections.push(model::listener(port)),
                ..m.tcp
            },
            ..m
        },
    }
}

/// What listening does: an unbound socket of the current process becomes a listener on `port`,
/// and so does the stack. The result is 0, or -1 if there is no such socket.
pub open spec fn listening(m: SchedModel, n: StackModel, fd: u64, port: u64) -> (
    SchedModel,
    StackModel,
    u64,
) {
    match m.current {
        Some(p) => if is_unbound(socket_at(p, fd)) {
            (SchedModel {
                current: Some(
                    bound(
                        p,
                        fd,
                        UserSocket {
                            local_port: port_of(port),
                            remote_port: 0,
                            listening: true,
                        },
                    ),
                ),
                counters: Counters {
                    listened: m.counters.listened.wrapping_add(1),
                    ..m.counters
                },
                ..m
            },
            with_listener(n, port_of(port)),
            0)
        } else {
            (m, n, FAILED)
        },
        None => (m, n, FAILED),
    }
}

/// Turns an unbound socket of the current process into a listener.
pub fn on_user_listen(s: &mut Scheduler, net: &mut Stack, fd: u64, port: u64) -> (r: u64)
    requires
        old(net).ok(),
    ensures
        final(net).ok(),
        (final(s)@, final(net)@, r) == listening(old(s)@, old(net)@, fd, port),
{
    let ghost before = s@;
    let ghost net_before = net@;
    let port16: u16 = (port % 65536) as u16;
    let mut taken: Option<Process> = None;
    std::mem::swap(&mut taken, &mut s.current);
    match taken {
        Some(mut p) => {
            let free: bool = match socket(&p.sockets, fd) {
                Some(sock) => sock.local_port == 0 && !sock.listening,
                None => false,
            };
            if free {
                assert(fd < p.sockets.len());
                p.sockets[fd as usize] = Some(
                    UserSocket { local_port: port16, remote_port: 0, listening: true },
                );
                s.current = Some(p);
                s.counters.listened = s.counters.listened.wrapping_add(1);
                tcp_listen(net, port16);
                assert(s@ =~= listening(before, net_before, fd, port).0);
                0
            } else {
                s.current = Some(p);
                assert(s@ =~= before);
                FAILED
            }
        },
        None => {
            assert(s@ =~= before);
            FAILED
        },
    }
}

/// The scheduler after the current process has blocked on the network.
pub open spec fn net_parked(m: SchedModel, tf: TrapFrame) -> SchedModel {
    match m.current {
        Some(p) => SchedModel {
            net_blocked: m.net_blocked.push(ProcessModel { context: tf, ..p }),
            current: None,
            ..m
        },
        None => m,
    }
}

/// Blocks the current process on the network.
fn net_park(s: &mut Scheduler, tf: &TrapFrame)
    ensures
        final(s)@ == net_parked(old(s)@, *tf),
        old(s)@.current matches Some(p) ==> position(final(s)@.net_blocked, p.id) is Some,
{
    let ghost before = s@;
    let mut taken: Option<Process> = None;
    std::mem::swap(&mut taken, &mut s.current);
    if let Some(mut p) = taken {
        p.context = *tf;
        let ghost view = p@;
        s.net_blocked.push(p);
        assert(view =~= (ProcessModel { context: *tf, ..before.current.unwrap() }));
        assert(views(s.net_blocked@) =~= before.net_blocked.push(view));
        proof {
            lemma_found(s@.net_blocked, before.net_blocked.len() as int, 0);
        }
    }
    assert(s@ =~= net_parked(before, *tf));
}

/// The process with this id among those that wait for the network.
pub open spec fn net_waiter(m: SchedModel, pid: u64) -> ProcessModel {
    m.net_blocked[position(m.net_blocked, pid).unwrap()]
}

/// The scheduler after a process that waited for the network has been made current, as `p`.
pub open spec fn net_woken(m: SchedModel, pid: u64, p: ProcessModel) -> SchedModel {
    SchedModel {
        net_blocked: m.net_blocked.remove(position(m.net_blocked, pid).unwrap()),
        current: Some(p),
        ..m
    }
}

/// A process with this result of its call.
pub open spec fn returning(p: ProcessModel, rax: u64) -> ProcessModel {
    ProcessModel { context: TrapFrame { rax, ..p.context }, ..p }
}

/// Takes a process out of those that wait for the network.
fn net_wake(s: &mut Scheduler, pid: u64) -> (p: Process)
    requires
        position(old(s)@.net_blocked, pid) is Some,
    ensures
        p@ == net_waiter(old(s)@, pid),
        final(s)@ == (SchedModel {
            net_blocked: old(s)@.net_blocked.remove(
                position(old(s)@.net_blocked, pid).unwrap(),
            ),
            ..old(s)@
        }),
{
    let ghost before = s@;
    let mut at: usize = 0;
    if let Some(i) = find(&s.net_blocked, pid) {
        at = i;
    }
    assert(before.net_blocked[at as int] == s.net_blocked@[at as int]@);
    let p: Process = s.net_blocked.remove(at);
    assert(views(s.net_blocked@) =~= before.net_blocked.remove(at as int));
    p
}

/// Prepares the program that talks to itself: drops all connections, and returns the program,
/// which connects to our own address. Load it and [`spawn`] it.
pub fn spawn_accept_demo(net: &mut Stack) -> (image: Vec<u8>)
    ensures
        final(net).ok(),
        final(net)@ == (StackModel {
            tcp: model::TcpModel { connections: Seq::empty(), ..old(net)@.tcp },
            ..old(net)@
        }),
        image@ == program::accept_demo_image(
            program::packed(old(net)@.ip, program::CONNECT_DEMO_PORT),
        ),
{
    let ip: [u8; 4] = our_ip(net);
    tcp_reset(net);
    accept_demo_elf(pack_dst(ip, program::CONNECT_DEMO_PORT))
}

/// The program that spawns a child and waits for it. Load it and [`spawn`] it.
pub fn spawn_wait_demo() -> (image: Vec<u8>)
    ensures
        image@ == program::parent_image(),
{
    parent_elf()
}

/// What `accept` begins with: the caller blocks, and its id and the listener's port say what it
/// waits for. If the descriptor is no listener the result is -1 at once.
pub open spec fn accept_begun(m: SchedModel, tf: TrapFrame, fd: u64) -> (
    SchedModel,
    TrapFrame,
    Option<(u64, u16)>,
) {
    match m.current {
        Some(p) => match socket_at(p, fd) {
            Some(sock) => if sock.listening {
                (net_parked(m, tf), tf, Some((p.id, sock.local_port)))
            } else {
                (m, TrapFrame { rax: FAILED, ..tf }, None)
            },
            None => (m, TrapFrame { rax: FAILED, ..tf }, None),
        },
        None => (m, tf, None),
    }
}

/// The current process waits for a connection to its listener `fd`. If it is to wait, the result
/// is its id and the port; go on with [`accept_step`] and [`finish_accept`].
pub fn on_user_accept(s: &mut Scheduler, tf: &mut TrapFrame, fd: u64) -> (waits: Option<(u64, u16)>)
    ensures
        (final(s)@, *final(tf), waits) == accept_begun(old(s)@, *old(tf), fd),
        waits matches Some((pid, _)) ==> position(final(s)@.net_blocked, pid) is Some,
{
    let (pid, sock): (u64, Option<UserSocket>) = match &s.current {
        Some(p) => (p.id, socket(&p.sockets, fd)),
        None => {
            return None;
        },
    };
    if let Some(sock) = sock {
        if sock.listening {
            net_park(s, tf);
            return Some((pid, sock.local_port));
        }
    }
    tf.rax = FAILED;
    None
}

/// What polling for a connection does: it is done once there is one, or after
/// [`RECV_POLL_ITERS`] attempts.
pub open spec fn accept_polled(
    n: StackModel,
    claimed: Seq<(u16, u16)>,
    port: u16,
    attempt: u32,
) -> (Seq<(u16, u16)>, StepView<(u16, u16)>) {
    if attempt >= RECV_POLL_ITERS {
        (claimed, StepView::Done(None))
    } else {
        match stack::accepted(n, claimed, port) {
            (claimed, Some(ports)) => (claimed, StepView::Done(Some(ports))),
            (claimed, None) => (claimed, StepView::Wait(jobs::nothing())),
        }
    }
}

/// Polls for a connection to the listener on `port`.
pub fn accept_step(net: &Stack, claimed: &mut Vec<(u16, u16)>, port: u16, attempt: u32) -> (step: Step<
    (u16, u16),
>)
    ensures
        (final(claimed)@, jobs::step_view(step)) == accept_polled(
            net@,
            old(claimed)@,
            port,
            attempt,
        ),
{
    if attempt >= RECV_POLL_ITERS {
        return Step::Done(None);
    }
    match tcp_accept(net, claimed, port) {
        Some(ports) => Step::Done(Some(ports)),
        None => Step::Wait(jobs::none()),
    }
}

/// What `accept` ends with: the caller goes on with a new descriptor for the connection, or with
/// -1 if none came.
pub open spec fn accept_finished(m: SchedModel, pid: u64, accepted: Option<(u16, u16)>) -> SchedModel {
    let p = net_waiter(m, pid);
    match accepted {
        Some((local_port, remote_port)) => {
            let (sockets, fd) = with_socket(
                p.sockets,
                UserSocket { local_port, remote_port, listening: false },
            );
            SchedModel {
                counters: Counters {
                    accepted: m.counters.accepted.wrapping_add(1),
                    last_accepted_fd: fd,
                    ..m.counters
                },
                ..net_woken(m, pid, returning(ProcessModel { sockets, ..p }, fd))
            }
        },
        None => net_woken(m, pid, returning(p, FAILED)),
    }
}

/// The context that the current process goes on with.
pub open spec fn resumed(m: SchedModel) -> TrapFrame {
    m.current.unwrap().context
}

/// Lets the process that waits in `accept` go on.
pub fn finish_accept(s: &mut Scheduler, tf: &mut TrapFrame, pid: u64, accepted: Option<(u16, u16)>)
    requires
        position(old(s)@.net_blocked, pid) is Some,
    ensures
        final(s)@ == accept_finished(old(s)@, pid, accepted),
        *final(tf) == resumed(final(s)@),
{
    let ghost before = s@;
    let mut p: Process = net_wake(s, pid);
    match accepted {
        Some((local_port, remote_port)) => {
            let fd: u64 = alloc_socket(
                &mut p.sockets,
                UserSocket { local_port, remote_port, listening: false },
            );
            s.counters.accepted = s.counters.accepted.wrapping_add(1);
            s.counters.last_accepted_fd = fd;
            p.context.rax = fd;
        },
        None => {
            p.context.rax = FAILED;
        },
    }
    *tf = p.context;
    s.current = Some(p);
    assert(s@ =~= accept_finished(before, pid, accepted));
}

/// What `connect` begins with: the caller blocks, and its id and the destination say what it
/// waits for. If it has no such socket the result is -1 at once.
pub open spec fn connect_begun(m: SchedModel, tf: TrapFrame, fd: u64) -> (
    SchedModel,
    TrapFrame,
    Option<u64>,
) {
    match m.current {
        Some(p) => match socket_at(p, fd) {
            Some(_) => (net_parked(m, tf), tf, Some(p.id)),
            None => (m, TrapFrame { rax: FAILED, ..tf }, None),
        },
        None => (m, tf, None),
    }
}

/// The job that opens a connection to a packed destination.
pub open spec fn connecting_to(dst: u64) -> crate::net::connect::ConnectView {
    crate::net::connect::ConnectView::Resolving {
        ip: program::packed_ip(dst),
        port: program::packed_port(dst),
        attempt: 0,
    }
}

/// The current process connects its socket `fd` to the destination packed in `dst`. If it is to
/// wait, the result is its id and the job that opens the connection; go on with
/// [`crate::net::connect::tcp_connect`] and [`finish_connect`].
pub fn on_user_connect(s: &mut Scheduler, tf: &mut TrapFrame, fd: u64, dst: u64) -> (waits: Option<
    (u64, Connect),
>)
    ensures
        final(s)@ == connect_begun(old(s)@, *old(tf), fd).0,
        *final(tf) == connect_begun(old(s)@, *old(tf), fd).1,
        match (waits, connect_begun(old(s)@, *old(tf), fd).2) {
            (Some((pid, job)), Some(id)) => pid == id && job@ == connecting_to(dst),
            (None, None) => true,
            _ => false,
        },
        waits matches Some((pid, _)) ==> position(final(s)@.net_blocked, pid) is Some,
{
    let (pid, sock): (u64, Option<UserSocket>) = match &s.current {
        Some(p) => (p.id, socket(&p.sockets, fd)),
        None => {
            return None;
        },
    };
    if sock.is_none() {
        tf.rax = FAILED;
        return None;
    }
    let (ip, port): ([u8; 4], u16) = unpack_dst(dst);
    net_park(s, tf);
    Some((pid, Connect::Resolving { ip, port, attempt: 0 }))
}

/// What `connect` ends with: the socket is bound to the connection and the caller goes on with
/// its descriptor, or with -1 if no connection came about.
pub open spec fn connect_finished(
    m: SchedModel,
    pid: u64,
    fd: u64,
    dst: u64,
    opened: Option<u16>,
) -> SchedModel {
    let p = net_waiter(m, pid);
    match opened {
        Some(local_port) => SchedModel {
            counters: Counters {
                connected: m.counters.connected.wrapping_add(1),
                ..m.counters
            },
            ..net_woken(
                m,
                pid,
                returning(
                    bound(
                        p,
                        fd,
                        UserSocket {
                            local_port,
                            remote_port: program::packed_port(dst),
                            listening: false,
                        },
                    ),
                    fd,
                ),
            )
        },
        None => net_woken(m, pid, returning(p, FAILED)),
    }
}

/// Lets the process that waits in `connect` go on. `opened` is the local port of the connection.
pub fn finish_connect(
    s: &mut Scheduler,
    tf: &mut TrapFrame,
    pid: u64,
    fd: u64,
    dst: u64,
    opened: Option<u16>,
)
    requires
        position(old(s)@.net_blocked, pid) is Some,
        fd < net_waiter(old(s)@, pid).sockets.len(),
    ensures
        final(s)@ == connect_finished(old(s)@, pid, fd, dst, opened),
        *final(tf) == resumed(final(s)@),
{
    let ghost before = s@;
    let mut p: Process = net_wake(s, pid);
    match opened {
        Some(local_port) => {
            let (_, remote_port): ([u8; 4], u16) = unpack_dst(dst);
            assert(fd < p.sockets.len());
            p.sockets[fd as usize] = Some(UserSocket { local_port, remote_port, listening: false });
            s.counters.connected = s.counters.connected.wrapping_add(1);
            p.context.rax = fd;
        },
        None => {
            p.context.rax = FAILED;
        },
    }
    *tf = p.context;
    s.current = Some(p);
    assert(s@ =~= connect_finished(before, pid, fd, dst, opened));
}

/// The ports of the connection that a socket is bound to.
pub open spec fn ports_of(sock: Option<UserSocket>) -> Option<(u16, u16)> {
    match sock {
        Some(sock) => if sock.local_port != 0 && !sock.listening {
            Some((sock.local_port, sock.remote_port))
        } else {
            None
        },
        None => None,
    }
}

/// The ports of the connection that the current process has under this descriptor.
pub fn socket_ports(s: &Scheduler, fd: u64) -> (ports: Option<(u16, u16)>)
    ensures
        ports == ports_of(own_socket(s@, fd)),
{
    match &s.current {
        Some(p) => match socket(&p.sockets, fd) {
            Some(sock) => if sock.local_port != 0 && !sock.listening {
                Some((sock.local_port, sock.remote_port))
            } else {
                None
            },
            None => None,
        },
        None => None,
    }
}

/// What the stack does with data to send: as [`tcp_send`].
pub open spec fn data_queued(n: StackModel, ports: (u16, u16), data: Seq<u8>, now: u64) -> Option<
    (StackModel, Seq<(Seq<u8>, Seq<u8>)>),
> {
    match model::find(n.tcp.connections, model::established_on(ports.0, ports.1)) {
        Some(i) => {
            let t = n.tcp.connections[i];
            let queued = n.tcp.connections.update(
                i,
                model::TcbModel { snd_buf: t.snd_buf + data, ..t },
            );
            let out = model::flush_output(queued, n.ip, now, queued.len() as int);
            Some(
                (
                    StackModel {
                        tcp: model::TcpModel {
                            connections: model::flush_table(queued, n.ip, now),
                            counters: tcp::table::sent_counted(n.tcp.counters, out.len()),
                            ..n.tcp
                        },
                        ..n
                    },
                    out,
                ),
            )
        },
        None => None,
    }
}

/// What `send` does: the data is queued on the connection of the socket and what the windows
/// allow goes out. The result is its length, or -1 if there is no such connection.
pub open spec fn sending(m: SchedModel, n: StackModel, fd: u64, data: Seq<u8>, now: u64) -> (
    SchedModel,
    StackModel,
    u64,
    Seq<(Seq<u8>, Seq<u8>)>,
) {
    match ports_of(own_socket(m, fd)) {
        Some(ports) => match data_queued(n, ports, data, now) {
            Some((after, out)) => (
                SchedModel {
                    counters: Counters { sent: m.counters.sent.wrapping_add(1), ..m.counters },
                    ..m
                },
                after,
                data.len() as u64,
                out,
            ),
            None => (m, n, FAILED, Seq::empty()),
        },
        None => (m, n, FAILED, Seq::empty()),
    }
}

/// The current process sends data on its socket `fd`. Returns the result of the call and the
/// segments to transmit with the addresses they go to.
pub fn on_user_send(s: &mut Scheduler, net: &mut Stack, fd: u64, data: &[u8], now: u64) -> (r: (
    u64,
    Vec<(Vec<u8>, [u8; 4])>,
))
    requires
        old(net).ok(),
        model::clock_ok(now),
    ensures
        final(net).ok(),
        (final(s)@, final(net)@, r.0, tcp::table::outgoing_views(r.1@)) == sending(
            old(s)@,
            old(net)@,
            fd,
            data@,
            now,
        ),
{
    let ghost before = s@;
    let ghost net_before = net@;
    match socket_ports(s, fd) {
        Some((local, remote)) => {
            match tcp_send(net, local, remote, data, now) {
                Some(out) => {
                    s.counters.sent = s.counters.sent.wrapping_add(1);
                    assert(s@ =~= sending(before, net_before, fd, data@, now).0);
                    assert(out@.len() == tcp::table::outgoing_views(out@).len());
                    (data.len() as u64, out)
                },
                None => {
                    let out: Vec<(Vec<u8>, [u8; 4])> = Vec::new();
                    assert(tcp::table::outgoing_views(out@) =~= Seq::empty());
                    (FAILED, out)
                },
            }
        },
        None => {
            let out: Vec<(Vec<u8>, [u8; 4])> = Vec::new();
            assert(tcp::table::outgoing_views(out@) =~= Seq::empty());
            (FAILED, out)
        },
    }
}

/// What `recv` begins with: the caller blocks, and its id and the connection's ports say what it
/// waits for. If the socket is not connected the result is -1 at once.
pub open spec fn recv_begun(m: SchedModel, tf: TrapFrame, fd: u64) -> (
    SchedModel,
    TrapFrame,
    Option<(u64, (u16, u16))>,
) {
    match m.current {
        Some(p) => match ports_of(socket_at(p, fd)) {
            Some(ports) => (net_parked(m, tf), tf, Some((p.id, ports))),
            None => (m, TrapFrame { rax: FAILED, ..tf }, None),
        },
        None => (m, tf, None),
    }
}

/// The current process waits for data on its socket `fd`. If it is to wait, the result is its id
/// and the ports of the connection; go on with [`recv_step`] and [`finish_recv`].
pub fn on_user_recv(s: &mut Scheduler, tf: &mut TrapFrame, fd: u64) -> (waits: Option<
    (u64, (u16, u16)),
>)
    ensures
        (final(s)@, *final(tf), waits) == recv_begun(old(s)@, *old(tf), fd),
        waits matches Some((pid, _)) ==> position(final(s)@.net_blocked, pid) is Some,
{
    let pid: u64 = match &s.current {
        Some(p) => p.id,
        None => {
            return None;
        },
    };
    match socket_ports(s, fd) {
        Some(ports) => {
            net_park(s, tf);
            Some((pid, ports))
        },
        None => {
            tf.rax = FAILED;
            None
        },
    }
}

/// What polling for data does: it is done once there is some, or after [`RECV_POLL_ITERS`]
/// attempts.
pub open spec fn recv_polled(n: StackModel, ports: (u16, u16), max: nat, attempt: u32) -> (
    StackModel,
    StepView<Seq<u8>>,
) {
    if attempt >= RECV_POLL_ITERS {
        (n, StepView::Done(None))
    } else {
        match model::find(n.tcp.connections, model::has_ports(ports.0, ports.1)) {
            Some(i) => {
                let t = n.tcp.connections[i];
                let k = model::smaller(max as int, t.rx.len() as int);
                if k > 0 {
                    (
                        StackModel {
                            tcp: model::TcpModel {
                                connections: n.tcp.connections.update(
                                    i,
                                    model::TcbModel { rx: t.rx.skip(k), ..t },
                                ),
                                ..n.tcp
                            },
                            ..n
                        },
                        StepView::Done(Some(t.rx.take(k))),
                    )
                } else {
                    (n, StepView::Wait(jobs::nothing()))
                }
            },
            None => (n, StepView::Wait(jobs::nothing())),
        }
    }
}

/// Polls for up to `max` bytes on a connection.
pub fn recv_step(net: &mut Stack, ports: (u16, u16), max: usize, attempt: u32) -> (step: Step<Vec<u8>>)
    requires
        old(net).ok(),
    ensures
        final(net).ok(),
        (final(net)@, jobs::frame_step(step)) == recv_polled(
            old(net)@,
            ports,
            max as nat,
            attempt,
        ),
{
    let ghost before = net@;
    if attempt >= RECV_POLL_ITERS {
        return Step::Done(None);
    }
    if let Some(data) = tcp_read(net, ports.0, ports.1, max) {
        if data.len() > 0 {
            return Step::Done(Some(data));
        }
        proof {
            let found = model::find(before.tcp.connections, model::has_ports(ports.0, ports.1));
            let i = found.unwrap();
            let t = before.tcp.connections[i];
            assert(t.rx.skip(0) =~= t.rx);
            assert(before.tcp.connections.update(i, t) =~= before.tcp.connections);
        }
    }
    Step::Wait(jobs::none())
}

/// What `recv` ends with: the caller goes on with the number of bytes that were received.
pub open spec fn recv_finished(m: SchedModel, pid: u64, n: u64) -> SchedModel {
    let woken = net_woken(m, pid, returning(net_waiter(m, pid), n));
    if n > 0 {
        SchedModel {
            counters: Counters {
                received: m.counters.received.wrapping_add(1),
                last_recv_len: n,
                ..m.counters
            },
            ..woken
        }
    } else {
        woken
    }
}

/// Lets the process that waits in `recv` go on. `n` is the number of bytes that have been copied
/// to its buffer.
pub fn finish_recv(s: &mut Scheduler, tf: &mut TrapFrame, pid: u64, n: u64)
    requires
        position(old(s)@.net_blocked, pid) is Some,
    ensures
        final(s)@ == recv_finished(old(s)@, pid, n),
        *final(tf) == resumed(final(s)@),
{
    let ghost before = s@;
    let mut p: Process = net_wake(s, pid);
    p.context.rax = n;
    if n > 0 {
        s.counters.received = s.counters.received.wrapping_add(1);
        s.counters.last_recv_len = n;
    }
    *tf = p.context;
    s.current = Some(p);
    assert(s@ =~= recv_finished(before, pid, n));
}

/// The address space of the process that ran last; 0 if none has run.
pub fn last_user_run_l4(s: &Scheduler) -> (n: u64)
    ensures
        n == s@.counters.last_l4,
{
    s.counters.last_l4
}

/// The kernel's own address space, as noted by [`run`].
pub fn kernel_l4(s: &Scheduler) -> (n: u64)
    ensures
        n == s@.counters.kernel_l4,
{
    s.counters.kernel_l4
}

/// How many processes have exited.
pub fn processes_exited(s: &Scheduler) -> (n: u64)
    ensures
        n == s@.counters.exited,
{
    s.counters.exited
}

/// How often a process has yielded.
pub fn processes_yielded(s: &Scheduler) -> (n: u64)
    ensures
        n == s@.counters.yielded,
{
    s.counters.yielded
}

/// How often the timer has preempted a process.
pub fn processes_preempted(s: &Scheduler) -> (n: u64)
    ensures
        n == s@.counters.preempted,
{
    s.counters.preempted
}

/// How often a parent has collected a child.
pub fn processes_waited(s: &Scheduler) -> (n: u64)
    ensures
        n == s@.counters.waited,
{
    s.counters.waited
}

/// The exit code that was collected last; -1 if none was.
pub fn last_waited_code(s: &Scheduler) -> (n: u64)
    ensures
        n == s@.counters.last_waited_code,
{
    s.counters.last_waited_code
}

/// How many children have been spawned.
pub fn processes_spawned(s: &Scheduler) -> (n: u64)
    ensures
        n == s@.counters.spawned,
{
    s.counters.spawned
}

/// How many connections processes have opened.
pub fn processes_connected(s: &Scheduler) -> (n: u64)
    ensures
        n == s@.counters.connected,
{
    s.counters.connected
}

/// How often a process has sent data.
pub fn processes_sent(s: &Scheduler) -> (n: u64)
    ensures
        n == s@.counters.sent,
{
    s.counters.sent
}

/// How often a process has received data.
pub fn processes_received(s: &Scheduler) -> (n: u64)
    ensures
        n == s@.counters.received,
{
    s.counters.received
}

/// How many bytes were received last.
pub fn last_recv_len(s: &Scheduler) -> (n: u64)
    ensures
        n == s@.counters.last_recv_len,
{
    s.counters.last_recv_len
}

/// How many listeners processes have opened.
pub fn processes_listened(s: &Scheduler) -> (n: u64)
    ensures
        n == s@.counters.listened,
{
    s.counters.listened
}

/// How many connections processes have accepted.
pub fn processes_accepted(s: &Scheduler) -> (n: u64)
    ensures
        n == s@.counters.accepted,
{
    s.counters.accepted
}

/// The descriptor of the connection accepted last; -1 if none was.
pub fn last_accepted_fd(s: &Scheduler) -> (n: u64)
    ensures
        n == s@.counters.last_accepted_fd,
{
    s.counters.last_accepted_fd
}

} // verus!
