//! What the system calls of a process do, for every caller and every argument.

use vstd::prelude::*;

use crate::interrupts;
use crate::interrupts::{InterruptFrame, TrapFrame};
use crate::net::jobs::StepView;
use crate::net::stack::StackModel;
use crate::net::tcp::model;
use crate::net::tcp::model::{State, TcbModel};
use crate::net::tcp::states;
use crate::process::laws;
use crate::process::loader::UserImage;
use crate::process::scheduler;
use crate::process::scheduler::{ProcessModel, SchedModel, UserSocket};
use crate::syscall;
use crate::syscall::{Call, Effect, Return};

verus! {

/// Which call a number of a process stands for, how many arguments are read for it, and where its
/// result goes.
pub proof fn numbers_stand_for_calls(n: u64)
    ensures
        ({
            let r = syscall::route_of(n, true);
            &&& n == 0 ==> r.call == Call::Exit && r.arguments == 1 && r.returns == Return::Nothing
            &&& n == 1 ==> r.call == Call::Value && r.arguments == 2 && r.returns == Return::Stack
            &&& n == 2 ==> r.call == Call::Value && r.returns == Return::Stack
            &&& n == 3 ==> r.call == Call::Yield && r.arguments == 0 && r.returns
                == Return::Nothing
            &&& n == 4 ==> r.call == Call::Wait && r.arguments == 0 && r.returns == Return::Rax
            &&& n == 5 ==> r.call == Call::Spawn && r.arguments == 1 && r.returns == Return::Stack
            &&& n == 6 ==> r.call == Call::Socket && r.arguments == 0 && r.returns
                == Return::Stack
            &&& n == 7 ==> r.call == Call::Connect && r.arguments == 2 && r.returns == Return::Rax
            &&& n == 8 ==> r.call == Call::Send && r.arguments == 3 && r.returns == Return::Stack
            &&& n == 9 ==> r.call == Call::Recv && r.arguments == 3 && r.returns == Return::Rax
            &&& n == 10 ==> r.call == Call::Listen && r.arguments == 2 && r.returns
                == Return::Stack
            &&& n == 11 ==> r.call == Call::Accept && r.arguments == 1 && r.returns == Return::Rax
            &&& n > 11 ==> r.call == Call::Value && r.returns == Return::Stack
        }),
{
}

/// What the calls do that only return a value: a write prints what it is given and returns its
/// length, the id of the kernel's own process is 1, an exit is noted, and an unknown number
/// fails.
pub proof fn value_calls_return_their_value(n: u64, a: u64, b: u64)
    ensures
        syscall::dispatched(1, a, b) == (Effect::Print { ptr: a, len: b }, b),
        syscall::dispatched(2, a, b) == (Effect::Nothing, 1u64),
        syscall::dispatched(0, a, b) == (Effect::NoteExit(a), 0u64),
        n > 2 ==> syscall::dispatched(n, a, b) == (Effect::NoteUnknown(n), u64::MAX),
{
}

/// A process comes from ring 3 exactly if the low two bits of its code segment are set, and only
/// then does a tick preempt it; the first tick and every hundredth are logged.
pub proof fn ticks_tell_the_ring(t: interrupts::Timer, f: InterruptFrame)
    requires
        t.ticks < u64::MAX,
    ensures
        ({
            let tick = interrupts::tick_of(t, f);
            &&& tick.count == t.ticks + 1
            &&& tick.preempts <==> f.code_segment % 4 == 3
            &&& tick.logged <==> t.ticks == 0 || (t.ticks + 1) % 100 == 0
        }),
{
}

/// A new process is behind all that are ready, begins where its program does with its registers
/// clear and without sockets, and knows its parent; its id is one that no process had.
pub proof fn spawned_process_comes_last(
    m: SchedModel,
    parent: u64,
    image: UserImage,
    iframe: InterruptFrame,
)
    requires
        m.next_id < u64::MAX,
    ensures
        ({
            let (after, pid) = scheduler::spawning(m, parent, Some((image, iframe)));
            let child = after.ready.last();
            &&& pid == m.next_id
            &&& after.next_id == m.next_id + 1
            &&& after.ready.len() == m.ready.len() + 1
            &&& after.ready.drop_last() == m.ready
            &&& child.id == pid
            &&& child.image == image
            &&& child.parent == Some(parent)
            &&& child.sockets.len() == 0
            &&& child.context.iframe == iframe
            &&& child.context.rax == 0 && child.context.rbx == 0 && child.context.rcx == 0
                && child.context.rdx == 0 && child.context.rsi == 0 && child.context.rdi == 0
                && child.context.rbp == 0
            &&& after.current == m.current
            &&& after.blocked == m.blocked
            &&& after.net_blocked == m.net_blocked
            &&& after.zombies == m.zombies
            &&& after.counters.spawned == m.counters.spawned.wrapping_add(1)
        }),
        scheduler::spawning(m, parent, None) == (m, u64::MAX),
{
    let after = scheduler::spawning(m, parent, Some((image, iframe))).0;
    assert(after.ready.drop_last() =~= m.ready);
}

/// Only the current process differs, and of it only its sockets.
pub open spec fn only_sockets_change(a: SchedModel, b: SchedModel) -> bool {
    &&& a.ready == b.ready
    &&& a.blocked == b.blocked
    &&& a.net_blocked == b.net_blocked
    &&& a.zombies == b.zombies
    &&& a.next_id == b.next_id
    &&& a.current is Some && b.current is Some
    &&& a.current.unwrap() == (ProcessModel {
        sockets: a.current.unwrap().sockets,
        ..b.current.unwrap()
    })
}

/// A socket that is opened is fresh and gets the lowest descriptor that is free; no other socket
/// and nothing else of the process changes.
pub proof fn opened_socket_is_fresh(m: SchedModel)
    requires
        m.current is Some,
        m.current.unwrap().sockets.len() < u64::MAX,
    ensures
        ({
            let (after, fd) = scheduler::opening(m);
            let before = m.current.unwrap().sockets;
            let sockets = after.current.unwrap().sockets;
            &&& only_sockets_change(after, m)
            &&& after.counters == m.counters
            &&& fd <= before.len()
            &&& fd < before.len() ==> before[fd as int] is None && sockets.len() == before.len()
            &&& fd == before.len() ==> sockets.len() == before.len() + 1
            &&& forall|i: int| 0 <= i < fd ==> (#[trigger] before[i]) is Some
            &&& sockets[fd as int] == Some(
                UserSocket { local_port: 0, remote_port: 0, listening: false },
            )
            &&& forall|i: int|
                0 <= i < before.len() && i != fd ==> #[trigger] sockets[i] == before[i]
        }),
        scheduler::opening(SchedModel { current: None, ..m }) == (
            SchedModel { current: None, ..m },
            u64::MAX,
        ),
{
    let fresh = UserSocket { local_port: 0, remote_port: 0, listening: false };
    let before = m.current.unwrap().sockets;
    laws::lowest_descriptor_is_used(before, fresh);
    let (sockets, fd) = scheduler::with_socket(before, fresh);
    lemma_free(before, 0);
}

proof fn lemma_free(sockets: Seq<Option<UserSocket>>, k: int)
    requires
        0 <= k <= sockets.len(),
    ensures
        k <= scheduler::free_from(sockets, k) <= sockets.len(),
    decreases sockets.len() - k,
{
    if k < sockets.len() && sockets[k] is Some {
        lemma_free(sockets, k + 1);
    }
}

/// Whether a table has a listener on a port.
pub open spec fn has_listener(table: Seq<TcbModel>, port: u16) -> bool {
    exists|i: int| 0 <= i < table.len() && states::is_listener(#[trigger] table[i], port)
}

/// A socket that is neither connected nor listening becomes a listener on the low 16 bits of the
/// port, and the network has a listener there, one and no second; any other descriptor fails and
/// changes nothing.
pub proof fn unbound_socket_listens(m: SchedModel, n: StackModel, fd: u64, port: u64)
    requires
        m.current is Some,
    ensures
        ({
            let (after, net, r) = scheduler::listening(m, n, fd, port);
            let before = m.current.unwrap().sockets;
            let p = (port % 65536) as u16;
            let unbound = fd < before.len() && (before[fd as int] matches Some(s) && s.local_port
                == 0 && !s.listening);
            &&& unbound ==> {
                &&& r == 0
                &&& only_sockets_change(after, m)
                &&& after.current.unwrap().sockets == before.update(
                    fd as int,
                    Some(UserSocket { local_port: p, remote_port: 0, listening: true }),
                )
                &&& after.counters.listened == m.counters.listened.wrapping_add(1)
                &&& has_listener(net.tcp.connections, p)
                &&& has_listener(n.tcp.connections, p) ==> net == n
                &&& !has_listener(n.tcp.connections, p) ==> net.tcp.connections.len()
                    == n.tcp.connections.len() + 1 && net.tcp.connections.drop_last()
                    == n.tcp.connections
                &&& net.ip == n.ip
            }
            &&& !unbound ==> after == m && net == n && r == u64::MAX
        }),
{
    let p = (port % 65536) as u16;
    let q = model::listens_on(p);
    let table = n.tcp.connections;
    if has_listener(table, p) {
        let i = choose|i: int| 0 <= i < table.len() && states::is_listener(#[trigger] table[i], p);
        assert(q(table[i]));
        if model::find(table, q) is None {
            crate::net::tcp::laws::lemma_none_matches(table, q);
        }
    } else {
        if model::find(table, q) is Some {
            let i = model::find(table, q).unwrap();
            assert(model::is_first(table, q, i));
            assert(states::is_listener(table[i], p));
        }
        let pushed = table.push(model::listener(p));
        assert(states::is_listener(pushed[table.len() as int], p));
        assert(pushed.drop_last() =~= table);
    }
}

/// A wait for a connection begins if the descriptor is a listener, and then the process waits
/// with the context it had; it fails at once, in `rax`, for any other.
pub proof fn only_listeners_accept(m: SchedModel, tf: TrapFrame, fd: u64)
    requires
        m.current is Some,
    ensures
        ({
            let (after, context, waits) = scheduler::accept_begun(m, tf, fd);
            let p = m.current.unwrap();
            let sock = if fd < p.sockets.len() {
                p.sockets[fd as int]
            } else {
                None
            };
            match sock {
                Some(s) if s.listening => {
                    &&& waits == Some((p.id, s.local_port))
                    &&& context == tf
                    &&& after.current is None
                    &&& after.net_blocked == m.net_blocked.push(ProcessModel { context: tf, ..p })
                    &&& after.ready == m.ready
                    &&& after.blocked == m.blocked
                },
                _ => {
                    &&& waits is None
                    &&& after == m
                    &&& context == (TrapFrame { rax: u64::MAX, ..tf })
                },
            }
        }),
{
}

/// The first established connection on the port that nobody has taken is taken, and noted so that
/// it is not taken again; without one the wait goes on, and after 2000 attempts it is given up.
pub proof fn waiting_connection_is_taken(
    n: StackModel,
    claimed: Seq<(u16, u16)>,
    port: u16,
    attempt: u32,
    i: int,
)
    requires
        0 <= i <= n.tcp.connections.len(),
        forall|j: int|
            0 <= j < i ==> !is_waiting(#[trigger] n.tcp.connections[j], port, claimed),
        i < n.tcp.connections.len() ==> is_waiting(n.tcp.connections[i], port, claimed),
    ensures
        ({
            let r = scheduler::accept_polled(n, claimed, port, attempt);
            &&& attempt >= 2000 ==> r == (claimed, StepView::<(u16, u16)>::Done(None))
            &&& attempt < 2000 && i < n.tcp.connections.len() ==> {
                let ports = (port, n.tcp.connections[i].remote_port);
                r == (claimed.push(ports), StepView::Done(Some(ports)))
            }
            &&& attempt < 2000 && i == n.tcp.connections.len() ==> r.0 == claimed && (
            r.1 matches StepView::Wait(frames) && frames.len() == 0)
        }),
{
    let p = model::acceptable(port, claimed);
    let table = n.tcp.connections;
    assert forall|j: int| 0 <= j < i implies !p(#[trigger] table[j]) by {
        assert(!is_waiting(table[j], port, claimed));
    }
    if i < table.len() {
        states::first_match_is_found(table, p, i);
    }
}

/// Whether a connection on a port waits to be accepted.
pub open spec fn is_waiting(t: TcbModel, port: u16, claimed: Seq<(u16, u16)>) -> bool {
    &&& t.state == State::Established
    &&& t.local_port == port
    &&& !claimed.contains((port, t.remote_port))
}

/// Position `i` holds the only process with its id.
pub open spec fn only_one(ps: Seq<ProcessModel>, i: int) -> bool {
    &&& 0 <= i < ps.len()
    &&& forall|j: int| 0 <= j < ps.len() && j != i ==> (#[trigger] ps[j]).id != ps[i].id
}

proof fn lemma_position(ps: Seq<ProcessModel>, i: int, k: int)
    requires
        only_one(ps, i),
        0 <= k <= i,
    ensures
        scheduler::position_from(ps, ps[i].id, k) == Some(i),
    decreases i - k,
{
    if k < i {
        lemma_position(ps, i, k + 1);
    }
}

/// A process that waited for a connection goes on with a new descriptor for it in `rax`, the
/// lowest that is free; its listener and all its other sockets stay. Without a connection it goes
/// on with -1 and its sockets as they were.
pub proof fn accepting_process_goes_on(m: SchedModel, i: int, ports: (u16, u16))
    requires
        only_one(m.net_blocked, i),
        m.net_blocked[i].sockets.len() < u64::MAX,
    ensures
        ({
            let p = m.net_blocked[i];
            let after = scheduler::accept_finished(m, p.id, Some(ports));
            let q = after.current.unwrap();
            let fd = q.context.rax;
            &&& after.current is Some
            &&& after.net_blocked == m.net_blocked.remove(i)
            &&& after.ready == m.ready && after.blocked == m.blocked && after.zombies == m.zombies
            &&& q.id == p.id && q.image == p.image && q.parent == p.parent
            &&& q.context == (TrapFrame { rax: fd, ..p.context })
            &&& fd < q.sockets.len()
            &&& q.sockets[fd as int] == Some(
                UserSocket { local_port: ports.0, remote_port: ports.1, listening: false },
            )
            &&& fd < p.sockets.len() ==> p.sockets[fd as int] is None
            &&& forall|k: int|
                0 <= k < p.sockets.len() && k != fd ==> #[trigger] q.sockets[k] == p.sockets[k]
            &&& after.counters.accepted == m.counters.accepted.wrapping_add(1)
            &&& after.counters.last_accepted_fd == fd
        }),
        ({
            let p = m.net_blocked[i];
            let after = scheduler::accept_finished(m, p.id, None);
            &&& after.current == Some(
                ProcessModel { context: TrapFrame { rax: u64::MAX, ..p.context }, ..p },
            )
            &&& after.net_blocked == m.net_blocked.remove(i)
            &&& after.counters == m.counters
        }),
{
    let p = m.net_blocked[i];
    lemma_position(m.net_blocked, i, 0);
    let sock = UserSocket { local_port: ports.0, remote_port: ports.1, listening: false };
    laws::lowest_descriptor_is_used(p.sockets, sock);
}

/// A connection is begun for a descriptor that is a socket: the process waits with the context it
/// had. Any other descriptor fails at once.
pub proof fn any_socket_connects(m: SchedModel, tf: TrapFrame, fd: u64)
    requires
        m.current is Some,
    ensures
        ({
            let (after, context, waits) = scheduler::connect_begun(m, tf, fd);
            let p = m.current.unwrap();
            if fd < p.sockets.len() && p.sockets[fd as int] is Some {
                &&& waits == Some(p.id)
                &&& context == tf
                &&& after.current is None
                &&& after.net_blocked == m.net_blocked.push(ProcessModel { context: tf, ..p })
                &&& after.ready == m.ready
            } else {
                &&& waits is None
                &&& after == m
                &&& context == (TrapFrame { rax: u64::MAX, ..tf })
            }
        }),
{
}

/// The ports of the connection that a descriptor of the current process stands for: a socket that
/// has a local port and does not listen.
pub open spec fn stands_for(m: SchedModel, fd: u64, local: u16, remote: u16) -> bool {
    &&& m.current is Some
    &&& fd < m.current.unwrap().sockets.len()
    &&& m.current.unwrap().sockets[fd as int] == Some(
        UserSocket { local_port: local, remote_port: remote, listening: false },
    )
    &&& local != 0
}

/// Data is sent on the established connection that the descriptor stands for: all of it is queued
/// there, in order behind what was, and what the windows allow goes out; the result is its length.
pub proof fn data_is_queued_on_its_connection(
    m: SchedModel,
    n: StackModel,
    fd: u64,
    local: u16,
    remote: u16,
    data: Seq<u8>,
    now: u64,
    i: int,
)
    requires
        stands_for(m, fd, local, remote),
        data.len() <= u64::MAX,
        0 <= i < n.tcp.connections.len(),
        is_open(n.tcp.connections[i], local, remote),
        forall|j: int| 0 <= j < i ==> !is_open(#[trigger] n.tcp.connections[j], local, remote),
    ensures
        ({
            let (after, net, r, out) = scheduler::sending(m, n, fd, data, now);
            let t = n.tcp.connections[i];
            let queued = n.tcp.connections.update(i, TcbModel { snd_buf: t.snd_buf + data, ..t });
            &&& r == data.len()
            &&& after.counters.sent == m.counters.sent.wrapping_add(1)
            &&& after.current == m.current
            &&& net.tcp.connections == model::flush_table(queued, n.ip, now)
            &&& out == model::flush_output(queued, n.ip, now, queued.len() as int)
        }),
{
    let p = model::established_on(local, remote);
    assert forall|j: int| 0 <= j < i implies !p(#[trigger] n.tcp.connections[j]) by {
        assert(!is_open(n.tcp.connections[j], local, remote));
    }
    states::first_match_is_found(n.tcp.connections, p, i);
}

/// Whether a connection is established between these ports.
pub open spec fn is_open(t: TcbModel, local: u16, remote: u16) -> bool {
    t.state == State::Established && t.local_port == local && t.remote_port == remote
}

/// Nothing is sent on a descriptor that stands for no connection, nor on a connection that is not
/// established.
pub proof fn nothing_is_sent_otherwise(
    m: SchedModel,
    n: StackModel,
    fd: u64,
    data: Seq<u8>,
    now: u64,
)
    requires
        forall|local: u16, remote: u16| #[trigger]
            stands_for(m, fd, local, remote) ==> forall|j: int|
                0 <= j < n.tcp.connections.len() ==> !is_open(
                    #[trigger] n.tcp.connections[j],
                    local,
                    remote,
                ),
    ensures
        scheduler::sending(m, n, fd, data, now) == (
            m,
            n,
            u64::MAX,
            Seq::<(Seq<u8>, Seq<u8>)>::empty(),
        ),
{
    if let Some((local, remote)) = scheduler::ports_of(scheduler::own_socket(m, fd)) {
        assert(stands_for(m, fd, local, remote));
        let p = model::established_on(local, remote);
        if model::find(n.tcp.connections, p) is Some {
            let i = model::find(n.tcp.connections, p).unwrap();
            assert(model::is_first(n.tcp.connections, p, i));
            assert(is_open(n.tcp.connections[i], local, remote));
        }
    }
}

/// A wait for data begins if the descriptor stands for a connection, and fails at once otherwise.
pub proof fn only_connected_sockets_receive(m: SchedModel, tf: TrapFrame, fd: u64)
    requires
        m.current is Some,
    ensures
        ({
            let (after, context, waits) = scheduler::recv_begun(m, tf, fd);
            let p = m.current.unwrap();
            &&& forall|local: u16, remote: u16| #[trigger]
                stands_for(m, fd, local, remote) ==> waits == Some((p.id, (local, remote)))
                    && context == tf && after.current is None && after.net_blocked
                    == m.net_blocked.push(ProcessModel { context: tf, ..p })
            &&& (forall|local: u16, remote: u16| !#[trigger] stands_for(m, fd, local, remote))
                ==> waits is None && after == m && context == (TrapFrame { rax: u64::MAX, ..tf })
        }),
{
    if let Some((local, remote)) = scheduler::ports_of(scheduler::own_socket(m, fd)) {
        assert(stands_for(m, fd, local, remote));
    }
}

/// What has been received is handed out from the front, as much as is asked for and there is, and
/// is gone then; nothing else of the connection and no other connection changes. Without data the
/// wait goes on, and after 2000 attempts it is given up.
pub proof fn received_data_is_handed_out(
    n: StackModel,
    local: u16,
    remote: u16,
    max: nat,
    attempt: u32,
    i: int,
)
    requires
        0 <= i < n.tcp.connections.len(),
        n.tcp.connections[i].local_port == local,
        n.tcp.connections[i].remote_port == remote,
        forall|j: int|
            0 <= j < i ==> (#[trigger] n.tcp.connections[j]).local_port != local
                || n.tcp.connections[j].remote_port != remote,
    ensures
        ({
            let (net, step) = scheduler::recv_polled(n, (local, remote), max, attempt);
            let t = n.tcp.connections[i];
            let k = if max <= t.rx.len() {
                max as int
            } else {
                t.rx.len() as int
            };
            &&& attempt >= 2000 ==> net == n && step == StepView::<Seq<u8>>::Done(None)
            &&& attempt < 2000 && k == 0 ==> net == n && (step matches StepView::Wait(frames)
                && frames.len() == 0)
            &&& attempt < 2000 && k > 0 ==> {
                &&& step == StepView::Done(Some(t.rx.take(k)))
                &&& net.tcp.connections == n.tcp.connections.update(
                    i,
                    TcbModel { rx: t.rx.skip(k), ..t },
                )
                &&& net.tcp.next_isn == n.tcp.next_isn
                &&& net.tcp.counters == n.tcp.counters
                &&& net.ip == n.ip
            }
        }),
{
    let p = model::has_ports(local, remote);
    states::first_match_is_found(n.tcp.connections, p, i);
}

/// A process that waited for data goes on with the number of bytes in `rax` and everything else
/// as it was; data that came is counted.
pub proof fn receiving_process_goes_on(m: SchedModel, i: int, k: u64)
    requires
        only_one(m.net_blocked, i),
    ensures
        ({
            let p = m.net_blocked[i];
            let after = scheduler::recv_finished(m, p.id, k);
            &&& after.current == Some(
                ProcessModel { context: TrapFrame { rax: k, ..p.context }, ..p },
            )
            &&& after.net_blocked == m.net_blocked.remove(i)
            &&& after.ready == m.ready
            &&& after.blocked == m.blocked
            &&& after.zombies == m.zombies
            &&& k == 0 ==> after.counters == m.counters
            &&& k > 0 ==> after.counters.received == m.counters.received.wrapping_add(1)
                && after.counters.last_recv_len == k
        }),
{
    lemma_position(m.net_blocked, i, 0);
}

} // verus!
