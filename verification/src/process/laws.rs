//! What holds of the scheduler as a whole.

use vstd::multiset::Multiset;
use vstd::prelude::*;

use crate::interrupts::{InterruptFrame, TrapFrame};
use crate::net::connect::ConnectView;
use crate::net::stack;
use crate::net::stack::StackModel;
use crate::net::tcp::model;
use crate::process::loader::UserImage;
use crate::process::program;
use crate::process::scheduler;
use crate::process::scheduler::{ProcessModel, Resume, SchedModel, UserSocket, Zombie};
use crate::syscall::FAILED;

verus! {

/// The ids of processes.
pub open spec fn ids_of(ps: Seq<ProcessModel>) -> Multiset<u64> {
    Seq::new(ps.len(), |i: int| ps[i].id).to_multiset()
}

/// The id of the current process.
pub open spec fn current_id(m: SchedModel) -> Multiset<u64> {
    match m.current {
        Some(p) => Multiset::singleton(p.id),
        None => Multiset::empty(),
    }
}

/// The ids of all processes, wherever they are.
pub open spec fn everyone(m: SchedModel) -> Multiset<u64> {
    ids_of(m.ready).add(ids_of(m.blocked)).add(ids_of(m.net_blocked)).add(current_id(m))
}

/// Adding a process adds its id.
proof fn lemma_push(ps: Seq<ProcessModel>, p: ProcessModel)
    ensures
        ids_of(ps.push(p)) == ids_of(ps).insert(p.id),
{
    let ids = Seq::new(ps.len(), |i: int| ps[i].id);
    ids.to_multiset_ensures();
    assert(Seq::new(ps.push(p).len(), |i: int| ps.push(p)[i].id) =~= ids.push(p.id));
}

/// Removing a process removes its id.
proof fn lemma_remove(ps: Seq<ProcessModel>, i: int)
    requires
        0 <= i < ps.len(),
    ensures
        ids_of(ps) == ids_of(ps.remove(i)).insert(ps[i].id),
{
    broadcast use vstd::multiset::group_multiset_axioms;

    let ids = Seq::new(ps.len(), |j: int| ps[j].id);
    ids.to_multiset_ensures();
    assert(Seq::new(ps.remove(i).len(), |j: int| ps.remove(i)[j].id) =~= ids.remove(i));
    assert(ids.contains(ids[i]));
    assert(ids.to_multiset().count(ids[i]) > 0);
    assert(ids.to_multiset() =~= ids.to_multiset().remove(ids[i]).insert(ids[i]));
}

/// Making the next process current moves it, when no other is current.
proof fn lemma_activated(m: SchedModel)
    requires
        m.current is None,
    ensures
        everyone(scheduler::activated(m)) == everyone(m),
{
    broadcast use vstd::multiset::group_multiset_axioms;

    if m.ready.len() > 0 {
        lemma_remove(m.ready, 0);
        assert(everyone(scheduler::activated(m)) =~= everyone(m));
    }
}

/// Putting the current process at the end of the queue moves it.
proof fn lemma_requeued(m: SchedModel, tf: TrapFrame)
    ensures
        everyone(scheduler::requeued(m, tf)) == everyone(m),
        scheduler::requeued(m, tf).current is None,
{
    broadcast use vstd::multiset::group_multiset_axioms;

    if let Some(p) = m.current {
        lemma_push(m.ready, ProcessModel { context: tf, ..p });
        assert(everyone(scheduler::requeued(m, tf)) =~= everyone(m));
    }
}

/// A found position is in range and holds the process.
proof fn lemma_position(ps: Seq<ProcessModel>, id: u64, k: int)
    requires
        0 <= k <= ps.len(),
    ensures
        match scheduler::position_from(ps, id, k) {
            Some(i) => k <= i < ps.len() && ps[i].id == id && forall|j: int|
                k <= j < i ==> (#[trigger] ps[j]).id != id,
            None => forall|j: int| k <= j < ps.len() ==> (#[trigger] ps[j]).id != id,
        },
    decreases ps.len() - k,
{
    if k < ps.len() && ps[k].id != id {
        lemma_position(ps, id, k + 1);
    }
}

/// Delivering an exit code moves the parent or no process.
proof fn lemma_delivered(m: SchedModel, parent: u64, child: u64, code: u64)
    ensures
        everyone(scheduler::delivered(m, parent, child, code)) == everyone(m),
        scheduler::delivered(m, parent, child, code).current == m.current,
{
    broadcast use vstd::multiset::group_multiset_axioms;

    lemma_position(m.blocked, parent, 0);
    if let Some(i) = scheduler::position(m.blocked, parent) {
        let w = m.blocked[i];
        lemma_remove(m.blocked, i);
        lemma_push(m.ready, ProcessModel { context: TrapFrame { rax: code, ..w.context }, ..w });
        assert(everyone(scheduler::delivered(m, parent, child, code)) =~= everyone(m));
    }
}

/// No process is lost or doubled when the CPU changes hands: a yield, a tick of the timer and a
/// wait keep everyone.
pub proof fn switching_keeps_everyone(m: SchedModel, tf: TrapFrame)
    ensures
        everyone(scheduler::activated(scheduler::yielding(m, tf))) == everyone(m),
        everyone(scheduler::ticking(m, tf).0) == everyone(m),
        everyone(scheduler::waiting(m, tf).0) == everyone(m),
{
    broadcast use vstd::multiset::group_multiset_axioms;

    let y = scheduler::yielding(m, tf);
    lemma_requeued(
        SchedModel {
            counters: scheduler::Counters {
                yielded: m.counters.yielded.wrapping_add(1),
                ..m.counters
            },
            ..m
        },
        tf,
    );
    lemma_activated(y);
    let t = scheduler::preempting(m, tf);
    lemma_requeued(
        SchedModel {
            counters: scheduler::Counters {
                preempted: m.counters.preempted.wrapping_add(1),
                ..m.counters
            },
            ..m
        },
        tf,
    );
    lemma_activated(t);
    if let Some(p) = m.current {
        let w = scheduler::parked(m, tf);
        lemma_push(m.blocked, ProcessModel { context: tf, ..p });
        assert(everyone(w) =~= everyone(m));
        lemma_activated(w);
    }
}

/// An exit removes the current process and keeps all others.
pub proof fn exit_removes_one(m: SchedModel, code: u64)
    ensures
        everyone(m) == everyone(scheduler::activated(scheduler::exiting(m, code))).add(
            current_id(m),
        ),
{
    broadcast use vstd::multiset::group_multiset_axioms;

    let gone = SchedModel {
        current: None,
        counters: scheduler::Counters {
            exited: m.counters.exited.wrapping_add(1),
            ..m.counters
        },
        ..m
    };
    assert(everyone(m) =~= everyone(gone).add(current_id(m)));
    if let Some(p) = m.current {
        if let Some(parent) = p.parent {
            lemma_delivered(gone, parent, p.id, code);
        }
    }
    lemma_activated(scheduler::exiting(m, code));
}

/// A process that blocks on the network is neither lost nor doubled.
pub proof fn blocking_keeps_everyone(m: SchedModel, tf: TrapFrame)
    ensures
        everyone(scheduler::net_parked(m, tf)) == everyone(m),
{
    broadcast use vstd::multiset::group_multiset_axioms;

    if let Some(p) = m.current {
        lemma_push(m.net_blocked, ProcessModel { context: tf, ..p });
        assert(everyone(scheduler::net_parked(m, tf)) =~= everyone(m));
    }
}

/// A process that is woken by the network is neither lost nor doubled.
pub proof fn waking_keeps_everyone(
    m: SchedModel,
    pid: u64,
    accepted: Option<(u16, u16)>,
    fd: u64,
    dst: u64,
    opened: Option<u16>,
    n: u64,
)
    requires
        m.current is None,
        scheduler::position(m.net_blocked, pid) is Some,
    ensures
        everyone(scheduler::accept_finished(m, pid, accepted)) == everyone(m),
        everyone(scheduler::connect_finished(m, pid, fd, dst, opened)) == everyone(m),
        everyone(scheduler::recv_finished(m, pid, n)) == everyone(m),
{
    broadcast use vstd::multiset::group_multiset_axioms;

    lemma_position(m.net_blocked, pid, 0);
    lemma_remove(m.net_blocked, scheduler::position(m.net_blocked, pid).unwrap());
    assert(everyone(scheduler::accept_finished(m, pid, accepted)) =~= everyone(m));
    assert(everyone(scheduler::connect_finished(m, pid, fd, dst, opened)) =~= everyone(m));
    assert(everyone(scheduler::recv_finished(m, pid, n)) =~= everyone(m));
}

/// Ids are unique, and all were given out.
pub open spec fn ids_are_unique(m: SchedModel) -> bool {
    forall|id: u64| #[trigger]
        everyone(m).count(id) <= if id < m.next_id {
            1nat
        } else {
            0nat
        }
}

/// A scheduler starts with unique ids, and a process that is spawned keeps them so. (What else
/// happens to processes adds none: see the laws above.)
pub proof fn spawned_ids_are_unique(
    m: SchedModel,
    image: UserImage,
    parent: Option<u64>,
    iframe: InterruptFrame,
)
    requires
        ids_are_unique(m),
        m.next_id < u64::MAX,
    ensures
        ids_are_unique(scheduler::fresh()),
        ids_are_unique(scheduler::spawned(m, image, parent, iframe)),
        everyone(scheduler::spawned(m, image, parent, iframe)) == everyone(m).insert(m.next_id),
        everyone(m).count(m.next_id) == 0,
{
    broadcast use vstd::multiset::group_multiset_axioms;

    let f = scheduler::fresh();
    Seq::new(f.ready.len(), |i: int| f.ready[i].id).to_multiset_ensures();
    assert(ids_of(f.ready).len() == 0);
    assert forall|id: u64| #[trigger] everyone(f).count(id) == 0 by {
        assert(!Seq::new(f.ready.len(), |i: int| f.ready[i].id).contains(id));
        assert(ids_of(f.ready).count(id) == 0);
    }
    let s = scheduler::spawned(m, image, parent, iframe);
    lemma_push(m.ready, scheduler::newborn(m.next_id, image, parent, iframe));
    assert(everyone(s) =~= everyone(m).insert(m.next_id));
    assert(everyone(m).count(m.next_id) == 0);
    assert forall|id: u64| #[trigger]
        everyone(s).count(id) <= if id < s.next_id {
            1nat
        } else {
            0nat
        } by {
        assert(everyone(m).count(id) <= if id < m.next_id {
            1nat
        } else {
            0nat
        });
    }
}

/// A process that blocked on the network is found again by its id, as it was when it blocked.
pub proof fn blocked_process_is_found(m: SchedModel, tf: TrapFrame)
    requires
        ids_are_unique(m),
        m.current is Some,
    ensures
        ({
            let p = m.current.unwrap();
            let after = scheduler::net_parked(m, tf);
            &&& scheduler::position(after.net_blocked, p.id) == Some(m.net_blocked.len() as int)
            &&& scheduler::net_waiter(after, p.id) == (ProcessModel { context: tf, ..p })
        }),
{
    broadcast use vstd::multiset::group_multiset_axioms;

    let p = m.current.unwrap();
    let after = scheduler::net_parked(m, tf);
    let ids = Seq::new(m.net_blocked.len(), |i: int| m.net_blocked[i].id);
    ids.to_multiset_ensures();
    assert(everyone(m).count(p.id) <= 1);
    assert(ids_of(m.net_blocked).count(p.id) == 0);
    assert forall|j: int| 0 <= j < m.net_blocked.len() implies (#[trigger] m.net_blocked[j]).id
        != p.id by {
        assert(ids[j] == m.net_blocked[j].id);
        assert(ids.contains(m.net_blocked[j].id));
    }
    lemma_position(after.net_blocked, p.id, 0);
    let last = after.net_blocked.len() - 1;
    assert(after.net_blocked[last].id == p.id);
    let at = scheduler::position(after.net_blocked, p.id);
    assert(at is Some);
    if at.unwrap() < last {
        assert(after.net_blocked[at.unwrap()] == m.net_blocked[at.unwrap()]);
    }
}

/// Processes take turns: when one yields, the front of the queue runs from where it stopped,
/// every other process moves up by one place, unchanged, and the one that yielded comes last,
/// with the context with which it stopped.
pub proof fn turns_come_round(m: SchedModel, tf: TrapFrame)
    requires
        m.current is Some,
    ensures
        ({
            let after = scheduler::activated(scheduler::yielding(m, tf));
            let yielded = ProcessModel { context: tf, ..m.current.unwrap() };
            let queue = m.ready.push(yielded);
            &&& after.current == Some(queue[0])
            &&& scheduler::next_or_here(scheduler::yielding(m, tf), tf) == (
                queue[0].context,
                Resume::Space(queue[0].image.l4),
            )
            &&& after.ready.len() == m.ready.len()
            &&& forall|i: int|
                0 <= i < after.ready.len() ==> #[trigger] after.ready[i] == queue[i + 1]
        }),
{
}

/// The scheduler and the context after `n` yields, each from the context that was resumed.
pub open spec fn yields(m: SchedModel, tf: TrapFrame, n: nat) -> (SchedModel, TrapFrame)
    decreases n,
{
    if n == 0 {
        (m, tf)
    } else {
        let (m, tf) = yields(m, tf, (n - 1) as nat);
        (
            scheduler::activated(scheduler::yielding(m, tf)),
            scheduler::next_or_here(scheduler::yielding(m, tf), tf).0,
        )
    }
}

/// No process starves: the one at place `k` of the queue runs, from where it stopped, after
/// `k + 1` yields.
pub proof fn every_process_gets_its_turn(m: SchedModel, tf: TrapFrame, k: nat)
    requires
        m.current is Some,
        k < m.ready.len(),
    ensures
        yields(m, tf, k + 1).0.current == Some(m.ready[k as int]),
        yields(m, tf, k + 1).1 == m.ready[k as int].context,
{
    lemma_moves_up(m, tf, k as int, k);
    let (n, nf) = yields(m, tf, k);
    assert(n.ready[0] == m.ready[k as int]);
}

/// The process at place `k` has moved up `n` places after `n` yields.
proof fn lemma_moves_up(m: SchedModel, tf: TrapFrame, k: int, n: nat)
    requires
        m.current is Some,
        n <= k < m.ready.len(),
    ensures
        yields(m, tf, n).0.current is Some,
        yields(m, tf, n).0.ready.len() == m.ready.len(),
        yields(m, tf, n).0.ready[k - n] == m.ready[k],
    decreases n,
{
    if n > 0 {
        lemma_moves_up(m, tf, k, (n - 1) as nat);
        let (o, of) = yields(m, tf, (n - 1) as nat);
        turns_come_round(o, of);
    }
}

/// The timer leaves a process alone that has no other to give way to.
pub proof fn sole_process_is_not_preempted(m: SchedModel, tf: TrapFrame)
    requires
        m.ready.len() == 0,
    ensures
        scheduler::ticking(m, tf) == (m, tf, Resume::Here),
{
}

/// A parent that already waits is woken by the exit of its child, with the exit code as its
/// result.
pub proof fn waiting_parent_gets_the_code(m: SchedModel, code: u64)
    requires
        m.current is Some,
        m.current.unwrap().parent is Some,
        scheduler::position(m.blocked, m.current.unwrap().parent.unwrap()) is Some,
    ensures
        ({
            let i = scheduler::position(
                m.blocked,
                m.current.unwrap().parent.unwrap(),
            ).unwrap();
            let after = scheduler::exiting(m, code);
            &&& after.ready.last() == scheduler::returning(m.blocked[i], code)
            &&& after.blocked == m.blocked.remove(i)
            &&& after.zombies == m.zombies
        }),
{
}

/// Whether a parent has no exited child to collect.
pub open spec fn no_zombie_of(m: SchedModel, parent: u64) -> bool {
    forall|i: int| 0 <= i < m.zombies.len() ==> (#[trigger] m.zombies[i]).parent != parent
}

/// The first zombie of a parent that had none is the one that was added.
proof fn lemma_zombie(zs: Seq<Zombie>, z: Zombie, k: int)
    requires
        0 <= k <= zs.len(),
        forall|i: int| 0 <= i < zs.len() ==> (#[trigger] zs[i]).parent != z.parent,
    ensures
        scheduler::zombie_from(zs.push(z), z.parent, k) == Some(zs.len() as int),
    decreases zs.len() - k,
{
    if k < zs.len() {
        assert(zs.push(z)[k] == zs[k]);
        lemma_zombie(zs, z, k + 1);
    }
}

/// A parent that does not wait yet finds the exit code when it does: the exit leaves a zombie,
/// and a wait of the parent returns its code at once and removes it.
pub proof fn late_parent_gets_the_code(m: SchedModel, code: u64, later: SchedModel, tf: TrapFrame)
    requires
        m.current is Some,
        m.current.unwrap().parent is Some,
        scheduler::position(m.blocked, m.current.unwrap().parent.unwrap()) is None,
        no_zombie_of(m, m.current.unwrap().parent.unwrap()),
        later.zombies == scheduler::exiting(m, code).zombies,
        later.current is Some,
        later.current.unwrap().id == m.current.unwrap().parent.unwrap(),
    ensures
        scheduler::waiting(later, tf).1 == (TrapFrame { rax: code, ..tf }),
        scheduler::waiting(later, tf).2 == Resume::Here,
        scheduler::waiting(later, tf).0.zombies == m.zombies,
        scheduler::waiting(later, tf).0.current == later.current,
{
    let child = m.current.unwrap();
    let z = Zombie { parent: child.parent.unwrap(), child: child.id, code };
    assert(later.zombies == m.zombies.push(z));
    lemma_zombie(m.zombies, z, 0);
    assert(m.zombies.push(z).remove(m.zombies.len() as int) =~= m.zombies);
}

/// A process without children does not block in a wait.
pub proof fn childless_wait_fails(m: SchedModel, tf: TrapFrame)
    requires
        m.current is Some,
        no_zombie_of(m, m.current.unwrap().id),
        !scheduler::any_child(m.ready, m.current.unwrap().id),
        !scheduler::any_child(m.blocked, m.current.unwrap().id),
    ensures
        scheduler::waiting(m, tf) == (m, TrapFrame { rax: FAILED, ..tf }, Resume::Here),
{
    lemma_no_zombie(m.zombies, m.current.unwrap().id, 0);
}

/// No zombie is found where there is none.
proof fn lemma_no_zombie(zs: Seq<Zombie>, parent: u64, k: int)
    requires
        0 <= k <= zs.len(),
        forall|i: int| 0 <= i < zs.len() ==> (#[trigger] zs[i]).parent != parent,
    ensures
        scheduler::zombie_from(zs, parent, k) is None,
    decreases zs.len() - k,
{
    if k < zs.len() {
        lemma_no_zombie(zs, parent, k + 1);
    }
}

/// A new socket gets the lowest free descriptor, and all others stay as they are.
pub proof fn lowest_descriptor_is_used(sockets: Seq<Option<UserSocket>>, sock: UserSocket)
    requires
        sockets.len() < u64::MAX,
    ensures
        ({
            let (after, fd) = scheduler::with_socket(sockets, sock);
            &&& fd < after.len()
            &&& after[fd as int] == Some(sock)
            &&& fd < sockets.len() ==> sockets[fd as int] is None
            &&& forall|i: int| 0 <= i < fd ==> (#[trigger] sockets[i]) is Some
            &&& forall|i: int|
                0 <= i < sockets.len() && i != fd ==> #[trigger] after[i] == sockets[i]
        }),
{
    lemma_free(sockets, 0);
}

/// The first free descriptor is free, and those before it are not.
proof fn lemma_free(sockets: Seq<Option<UserSocket>>, k: int)
    requires
        0 <= k <= sockets.len(),
    ensures
        k <= scheduler::free_from(sockets, k) <= sockets.len(),
        scheduler::free_from(sockets, k) < sockets.len() ==> sockets[scheduler::free_from(
            sockets,
            k,
        )] is None,
        forall|i: int|
            k <= i < scheduler::free_from(sockets, k) ==> (#[trigger] sockets[i]) is Some,
    decreases sockets.len() - k,
{
    if k < sockets.len() && sockets[k] is Some {
        lemma_free(sockets, k + 1);
    }
}

/// `connect` undoes the packing of its destination: the connection that is opened is one to exactly
/// that address and port. The caller goes on with its descriptor, which now stands for the
/// connection, or with -1 and its sockets as they were; no other register and no other descriptor
/// of it changes, and nothing else but the count of connections.
pub proof fn connect_opens_the_destination(
    m: SchedModel,
    tf: TrapFrame,
    fd: u64,
    ip: Seq<u8>,
    port: u16,
    opened: Option<u16>,
)
    requires
        ids_are_unique(m),
        m.current is Some,
        scheduler::socket_at(m.current.unwrap(), fd) is Some,
        ip.len() == 4,
    ensures
        ({
            let p = m.current.unwrap();
            let dst = program::packed(ip, port);
            let (parked, waiting, pid) = scheduler::connect_begun(m, tf, fd);
            let after = scheduler::connect_finished(parked, p.id, fd, dst, opened);
            let context = TrapFrame {
                rax: if opened is Some {
                    fd
                } else {
                    FAILED
                },
                ..tf
            };
            &&& waiting == tf
            &&& pid == Some(p.id)
            &&& scheduler::connecting_to(dst) == (ConnectView::Resolving { ip, port, attempt: 0 })
            &&& scheduler::position(parked.net_blocked, p.id) is Some
            &&& fd < scheduler::net_waiter(parked, p.id).sockets.len()
            &&& scheduler::resumed(after) == context
            &&& after == match opened {
                Some(local_port) => SchedModel {
                    current: Some(
                        ProcessModel {
                            context,
                            sockets: p.sockets.update(
                                fd as int,
                                Some(
                                    UserSocket { local_port, remote_port: port, listening: false },
                                ),
                            ),
                            ..p
                        },
                    ),
                    counters: scheduler::Counters {
                        connected: m.counters.connected.wrapping_add(1),
                        ..m.counters
                    },
                    ..m
                },
                None => SchedModel { current: Some(ProcessModel { context, ..p }), ..m },
            }
        }),
{
    let p = m.current.unwrap();
    let parked = scheduler::net_parked(m, tf);
    program::destination_round_trips(ip, port);
    blocked_process_is_found(m, tf);
    let at = scheduler::position(parked.net_blocked, p.id).unwrap();
    assert(parked.net_blocked.remove(at) =~= m.net_blocked);
}

/// After a connection has been opened, the socket stands for it: it is what data is sent and
/// received on.
pub proof fn connected_socket_carries_data(
    m: SchedModel,
    pid: u64,
    fd: u64,
    dst: u64,
    local_port: u16,
)
    requires
        scheduler::position(m.net_blocked, pid) is Some,
        fd < scheduler::net_waiter(m, pid).sockets.len(),
        local_port != 0,
    ensures
        ({
            let after = scheduler::connect_finished(m, pid, fd, dst, Some(local_port));
            &&& scheduler::ports_of(scheduler::own_socket(after, fd)) == Some(
                (local_port, program::packed_port(dst)),
            )
            &&& scheduler::resumed(after).rax == fd
        }),
{
}

/// An accepted connection gets a descriptor of its own, on which data is sent and received, and
/// the listener stays as it is.
pub proof fn accepted_connection_carries_data(
    m: SchedModel,
    pid: u64,
    ports: (u16, u16),
    listener: u64,
)
    requires
        scheduler::position(m.net_blocked, pid) is Some,
        scheduler::net_waiter(m, pid).sockets.len() < u64::MAX,
        scheduler::socket_at(scheduler::net_waiter(m, pid), listener) is Some,
        ports.0 != 0,
    ensures
        ({
            let after = scheduler::accept_finished(m, pid, Some(ports));
            let fd = scheduler::resumed(after).rax;
            &&& fd != listener
            &&& scheduler::ports_of(scheduler::own_socket(after, fd)) == Some(ports)
            &&& scheduler::own_socket(after, listener) == scheduler::socket_at(
                scheduler::net_waiter(m, pid),
                listener,
            )
        }),
{
    let p = scheduler::net_waiter(m, pid);
    let sock = UserSocket { local_port: ports.0, remote_port: ports.1, listening: false };
    lowest_descriptor_is_used(p.sockets, sock);
    let (after, fd) = scheduler::with_socket(p.sockets, sock);
    assert(p.sockets[listener as int] is Some);
    assert(fd != listener);
    lemma_free(p.sockets, 0);
    assert(after.len() >= p.sockets.len());
    assert(after[listener as int] == p.sockets[listener as int]);
    let end = scheduler::accept_finished(m, pid, Some(ports));
    assert(end.current.unwrap().sockets == after);
    assert(scheduler::own_socket(end, fd) == Some(sock));
}

/// No connection is accepted twice, and one that is there is accepted.
pub proof fn connections_are_accepted_once(n: StackModel, claimed: Seq<(u16, u16)>, port: u16, i: int)
    ensures
        match stack::accepted(n, claimed, port) {
            (after, Some(ports)) => !claimed.contains(ports) && after.contains(ports) && ports.0
                == port,
            (after, None) => after == claimed && (0 <= i < n.tcp.connections.len()
                ==> !model::acceptable(port, claimed)(n.tcp.connections[i])),
        },
{
    let p = model::acceptable(port, claimed);
    match model::find(n.tcp.connections, p) {
        Some(c) => {
            assert(model::is_first(n.tcp.connections, p, c));
            let t = n.tcp.connections[c];
            let after = claimed.push((t.local_port, t.remote_port));
            assert(after[claimed.len() as int] == (t.local_port, t.remote_port));
        },
        None => {
            if 0 <= i < n.tcp.connections.len() && p(n.tcp.connections[i]) {
                let f = lemma_first(n.tcp.connections, p, i);
                assert(model::is_first(n.tcp.connections, p, f));
            }
        },
    }
}

/// Where there is a match there is a first one.
proof fn lemma_first(
    table: Seq<model::TcbModel>,
    p: spec_fn(model::TcbModel) -> bool,
    i: int,
) -> (f: int)
    requires
        0 <= i < table.len(),
        p(table[i]),
    ensures
        model::is_first(table, p, f),
    decreases i,
{
    if exists|j: int| 0 <= j < i && p(#[trigger] table[j]) {
        let j = choose|j: int| 0 <= j < i && p(#[trigger] table[j]);
        lemma_first(table, p, j)
    } else {
        i
    }
}

} // verus!
