//! System calls: which call a number stands for, which of its arguments are read from the
//! caller's stack, and how its result goes back.
//!
//! The caller pushes the arguments and then the number, and traps. Only the slots that a call
//! has arguments in are read: a call with fewer arguments pushes fewer slots, and what lies
//! above them need not be mapped.

use vstd::prelude::*;

use crate::interrupts;
use crate::interrupts::{from_ring3, TrapFrame};
use crate::text::from_utf8;

verus! {

pub const SYS_EXIT: u64 = 0;
pub const SYS_WRITE: u64 = 1;
pub const SYS_GETPID: u64 = 2;
pub const SYS_YIELD: u64 = 3;
pub const SYS_WAIT: u64 = 4;
pub const SYS_SPAWN: u64 = 5;
pub const SYS_SOCKET: u64 = 6;
pub const SYS_CONNECT: u64 = 7;
pub const SYS_SEND: u64 = 8;
pub const SYS_RECV: u64 = 9;
pub const SYS_LISTEN: u64 = 10;
pub const SYS_ACCEPT: u64 = 11;

/// The result of a call that failed.
pub const FAILED: u64 = 0xFFFF_FFFF_FFFF_FFFF;

/// What a system call asks for. Those that concern the calling process are only for ring 3.
#[derive(Debug, Clone, Copy, PartialEq, Eq, Structural)]
pub enum Call {
    Yield,
    Exit,
    Wait,
    Spawn,
    Socket,
    Connect,
    Send,
    Recv,
    Listen,
    Accept,
    /// A call that only returns a value; see [`dispatch`].
    Value,
}

/// How the result of a call goes back to the caller.
#[derive(Debug, Clone, Copy, PartialEq, Eq, Structural)]
pub enum Return {
    /// Written over the number's slot on the caller's stack.
    Stack,
    /// In `rax` of the context that is resumed.
    Rax,
    /// The caller is not resumed with a result.
    Nothing,
}

/// How a system call is handled.
#[derive(Debug, Clone, Copy, PartialEq, Eq, Structural)]
pub struct Route {
    pub call: Call,
    /// How many argument slots above the number are read.
    pub arguments: u8,
    pub returns: Return,
}

/// How the call with this number is handled.
pub open spec fn route_of(number: u64, ring3: bool) -> Route {
    if number == SYS_YIELD && ring3 {
        Route { call: Call::Yield, arguments: 0, returns: Return::Nothing }
    } else if number == SYS_EXIT && ring3 {
        Route { call: Call::Exit, arguments: 1, returns: Return::Nothing }
    } else if number == SYS_WAIT && ring3 {
        Route { call: Call::Wait, arguments: 0, returns: Return::Rax }
    } else if number == SYS_SPAWN && ring3 {
        Route { call: Call::Spawn, arguments: 1, returns: Return::Stack }
    } else if number == SYS_SOCKET && ring3 {
        Route { call: Call::Socket, arguments: 0, returns: Return::Stack }
    } else if number == SYS_CONNECT && ring3 {
        Route { call: Call::Connect, arguments: 2, returns: Return::Rax }
    } else if number == SYS_SEND && ring3 {
        Route { call: Call::Send, arguments: 3, returns: Return::Stack }
    } else if number == SYS_RECV && ring3 {
        Route { call: Call::Recv, arguments: 3, returns: Return::Rax }
    } else if number == SYS_LISTEN && ring3 {
        Route { call: Call::Listen, arguments: 2, returns: Return::Stack }
    } else if number == SYS_ACCEPT && ring3 {
        Route { call: Call::Accept, arguments: 1, returns: Return::Rax }
    } else {
        Route { call: Call::Value, arguments: 2, returns: Return::Stack }
    }
}

/// The system calls that came from ring 3.
#[derive(Debug, Clone, Copy, PartialEq, Eq, Structural)]
pub struct Syscalls {
    pub from_ring3: u64,
}

/// Decides how the call with this number is handled, and counts it if it came from ring 3.
pub fn syscall_dispatch(calls: &mut Syscalls, tf: &TrapFrame, number: u64) -> (route: Route)
    ensures
        route == route_of(number, interrupts::in_user_mode(tf.iframe)),
        final(calls).from_ring3 == if interrupts::in_user_mode(tf.iframe) {
            old(calls).from_ring3.wrapping_add(1)
        } else {
            old(calls).from_ring3
        },
{
    let ring3: bool = from_ring3(&tf.iframe);
    if ring3 {
        calls.from_ring3 = calls.from_ring3.wrapping_add(1);
    }
    if number == SYS_YIELD && ring3 {
        return Route { call: Call::Yield, arguments: 0, returns: Return::Nothing };
    }
    if number == SYS_EXIT && ring3 {
        return Route { call: Call::Exit, arguments: 1, returns: Return::Nothing };
    }
    if number == SYS_WAIT && ring3 {
        return Route { call: Call::Wait, arguments: 0, returns: Return::Rax };
    }
    if number == SYS_SPAWN && ring3 {
        return Route { call: Call::Spawn, arguments: 1, returns: Return::Stack };
    }
    if number == SYS_SOCKET && ring3 {
        return Route { call: Call::Socket, arguments: 0, returns: Return::Stack };
    }
    if number == SYS_CONNECT && ring3 {
        return Route { call: Call::Connect, arguments: 2, returns: Return::Rax };
    }
    if number == SYS_SEND && ring3 {
        return Route { call: Call::Send, arguments: 3, returns: Return::Stack };
    }
    if number == SYS_RECV && ring3 {
        return Route { call: Call::Recv, arguments: 3, returns: Return::Rax };
    }
    if number == SYS_LISTEN && ring3 {
        return Route { call: Call::Listen, arguments: 2, returns: Return::Stack };
    }
    if number == SYS_ACCEPT && ring3 {
        return Route { call: Call::Accept, arguments: 1, returns: Return::Rax };
    }
    Route { call: Call::Value, arguments: 2, returns: Return::Stack }
}

/// The number of system calls that came from ring 3.
pub fn ring3_syscall_count(calls: &Syscalls) -> (n: u64)
    ensures
        n == calls.from_ring3,
{
    calls.from_ring3
}

/// What a call that only returns a value asks the kernel to do besides.
#[derive(Debug, Clone, Copy, PartialEq, Eq, Structural)]
pub enum Effect {
    Nothing,
    /// Print the bytes at this address, if they are text.
    Print { ptr: u64, len: u64 },
    /// Note that an exit with this code was asked for.
    NoteExit(u64),
    /// Note that the number is unknown.
    NoteUnknown(u64),
}

/// What a call that only returns a value does, and the value.
pub open spec fn dispatched(number: u64, arg1: u64, arg2: u64) -> (Effect, u64) {
    if number == SYS_WRITE {
        (Effect::Print { ptr: arg1, len: arg2 }, arg2)
    } else if number == SYS_GETPID {
        (Effect::Nothing, 1)
    } else if number == SYS_EXIT {
        (Effect::NoteExit(arg1), 0)
    } else {
        (Effect::NoteUnknown(number), FAILED)
    }
}

/// Handles a call that only returns a value. Unknown numbers fail.
pub fn dispatch(number: u64, arg1: u64, arg2: u64) -> (r: (Effect, u64))
    ensures
        r == dispatched(number, arg1, arg2),
{
    if number == SYS_WRITE {
        (Effect::Print { ptr: arg1, len: arg2 }, arg2)
    } else if number == SYS_GETPID {
        (Effect::Nothing, 1)
    } else if number == SYS_EXIT {
        (Effect::NoteExit(arg1), 0)
    } else {
        (Effect::NoteUnknown(number), FAILED)
    }
}

/// From ring 0 no call reaches a process: every number is a call that only returns a value.
pub proof fn kernel_calls_leave_processes_alone(number: u64)
    ensures
        route_of(number, false).call == Call::Value,
{
}

/// A call that blocks returns its result in `rax`, where it can be put whatever address space is
/// active by then.
pub proof fn blocking_calls_return_in_rax(number: u64, ring3: bool)
    ensures
        ({
            let r = route_of(number, ring3);
            (r.call == Call::Wait || r.call == Call::Connect || r.call == Call::Recv || r.call
                == Call::Accept) <==> r.returns == Return::Rax
        }),
{
}

/// What a write prints: text is printed, anything else is not.
pub open spec fn printed(data: Seq<u8>) -> Option<Seq<char>> {
    if vstd::utf8::valid_utf8(data) {
        Some(vstd::utf8::decode_utf8(data))
    } else {
        None
    }
}

/// Writes data to the screen: what is to be printed, and the result of the call.
pub fn sys_write(data: &[u8]) -> (r: (Option<String>, u64))
    ensures
        match r.0 {
            Some(text) => printed(data@) == Some(text@),
            None => printed(data@) is None,
        },
        r.1 == data@.len(),
{
    (from_utf8(data), data.len() as u64)
}

} // verus!
