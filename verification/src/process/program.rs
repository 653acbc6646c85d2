//! The demonstration programs: machine code for ring 3, wrapped in small executables.
//!
//! A program is a flat sequence of system calls: push the arguments, push the number, trap. The
//! pushes are never popped; the user stack just drifts down a little.

use vstd::prelude::*;

use crate::bytes;
use crate::bytes::{append, append_le16, append_le32, append_le64, append_zeros};
use crate::elf;
use crate::elf::{ProgramHeader, PT_LOAD};
use crate::syscall::{
    SYS_ACCEPT, SYS_CONNECT, SYS_EXIT, SYS_LISTEN, SYS_RECV, SYS_SEND, SYS_SOCKET, SYS_SPAWN,
    SYS_WAIT, SYS_WRITE, SYS_YIELD,
};

verus! {

/// Where programs are loaded: a part of the address space that the kernel leaves empty.
pub const USER_LOAD_BASE: u64 = 0x2000_0000_0000;

/// Where the code starts in a program's file, behind the headers.
pub const DEMO_ENTRY_OFFSET: usize = 120;

/// How many rounds the looping program runs.
pub const DEMO_ITERATIONS: usize = 3;

/// How long the looping program spins in each round.
pub const DEMO_SPIN: u32 = 50_000_000;

/// The length of the looping program.
pub const DEMO_CODE_LEN: usize = 105;

/// The exit code of the child program.
pub const CHILD_EXIT_CODE: u8 = 42;

/// The length of the child program.
pub const CHILD_CODE_LEN: usize = 23;

/// The length of the parent program.
pub const PARENT_CODE_LEN: usize = 50;

/// The length of the socket program.
pub const ACCEPT_DEMO_CODE_LEN: usize = 117;

/// The size of the socket program's receive buffer.
pub const SOCKET_DEMO_RECV_CAP: u8 = 64;

/// The number of the child program.
pub const PROG_CHILD: u64 = 0;

/// The port that the socket program connects to itself on.
pub const CONNECT_DEMO_PORT: u16 = 7900;

/// `write(ptr, len)`.
pub open spec fn write_code(ptr: u64, len: u8) -> Seq<u8> {
    seq![0x6Au8, len, 0x48u8, 0xB8u8] + bytes::le64_bytes(ptr) + seq![
        0x50u8,
        0x6Au8,
        SYS_WRITE as u8,
        0xCDu8,
        0x80u8,
    ]
}

/// A call without arguments.
pub open spec fn syscall0_code(number: u8) -> Seq<u8> {
    seq![0x6Au8, number, 0xCDu8, 0x80u8]
}

/// A call with one small argument.
pub open spec fn syscall1_code(argument: u8, number: u8) -> Seq<u8> {
    seq![0x6Au8, argument, 0x6Au8, number, 0xCDu8, 0x80u8]
}

/// `socket()`, its result popped into `rax`.
pub open spec fn socket_code() -> Seq<u8> {
    seq![0x6Au8, SYS_SOCKET as u8, 0xCDu8, 0x80u8, 0x58u8]
}

/// `connect(rax, dst)`.
pub open spec fn connect_code(dst: u64) -> Seq<u8> {
    seq![0x48u8, 0x89u8, 0xC6u8, 0x48u8, 0xB8u8] + bytes::le64_bytes(dst) + seq![
        0x50u8,
        0x56u8,
        0x6Au8,
        SYS_CONNECT as u8,
        0xCDu8,
        0x80u8,
    ]
}

/// A call on the socket in `rbx` with a buffer: `send` or `recv`.
pub open spec fn transfer_code(ptr: u64, len: u8, number: u8) -> Seq<u8> {
    seq![0x6Au8, len, 0x48u8, 0xB8u8] + bytes::le64_bytes(ptr) + seq![
        0x50u8,
        0x53u8,
        0x6Au8,
        number,
        0xCDu8,
        0x80u8,
    ]
}

/// `write(ptr, rax)`.
pub open spec fn write_dyn_code(ptr: u64) -> Seq<u8> {
    seq![0x50u8, 0x48u8, 0xB8u8] + bytes::le64_bytes(ptr) + seq![
        0x50u8,
        0x6Au8,
        SYS_WRITE as u8,
        0xCDu8,
        0x80u8,
    ]
}

/// `listen(rax, port)`.
pub open spec fn listen_code(port: u16) -> Seq<u8> {
    seq![0x68u8] + bytes::le32_bytes(port as u32) + seq![
        0x50u8,
        0x6Au8,
        SYS_LISTEN as u8,
        0xCDu8,
        0x80u8,
    ]
}

/// `accept(rax)`.
pub open spec fn accept_code() -> Seq<u8> {
    seq![0x50u8, 0x6Au8, SYS_ACCEPT as u8, 0xCDu8, 0x80u8]
}

/// A loop that counts `rcx` down from `count`.
pub open spec fn spin_code(count: u32) -> Seq<u8> {
    seq![0x48u8, 0xC7u8, 0xC1u8] + bytes::le32_bytes(count) + seq![
        0x48u8,
        0xFFu8,
        0xC9u8,
        0x75u8,
        0xFBu8,
    ]
}

fn emit_write(code: &mut Vec<u8>, ptr: u64, len: u8)
    ensures
        final(code)@ == old(code)@ + write_code(ptr, len),
{
    append(code, &[0x6A, len, 0x48, 0xB8]);
    append_le64(code, ptr);
    append(code, &[0x50, 0x6A, SYS_WRITE as u8, 0xCD, 0x80]);
    assert(code@ =~= old(code)@ + write_code(ptr, len));
}

fn emit_syscall0(code: &mut Vec<u8>, number: u8)
    ensures
        final(code)@ == old(code)@ + syscall0_code(number),
{
    append(code, &[0x6A, number, 0xCD, 0x80]);
    assert(code@ =~= old(code)@ + syscall0_code(number));
}

fn emit_exit(code: &mut Vec<u8>, exit_code: u8)
    ensures
        final(code)@ == old(code)@ + syscall1_code(exit_code, SYS_EXIT as u8),
{
    append(code, &[0x6A, exit_code, 0x6A, SYS_EXIT as u8, 0xCD, 0x80]);
    assert(code@ =~= old(code)@ + syscall1_code(exit_code, SYS_EXIT as u8));
}

fn emit_spawn(code: &mut Vec<u8>, prog_id: u8)
    ensures
        final(code)@ == old(code)@ + syscall1_code(prog_id, SYS_SPAWN as u8),
{
    append(code, &[0x6A, prog_id, 0x6A, SYS_SPAWN as u8, 0xCD, 0x80]);
    assert(code@ =~= old(code)@ + syscall1_code(prog_id, SYS_SPAWN as u8));
}

fn emit_socket(code: &mut Vec<u8>)
    ensures
        final(code)@ == old(code)@ + socket_code(),
{
    append(code, &[0x6A, SYS_SOCKET as u8, 0xCD, 0x80, 0x58]);
    assert(code@ =~= old(code)@ + socket_code());
}

fn emit_connect(code: &mut Vec<u8>, dst: u64)
    ensures
        final(code)@ == old(code)@ + connect_code(dst),
{
    append(code, &[0x48, 0x89, 0xC6, 0x48, 0xB8]);
    append_le64(code, dst);
    append(code, &[0x50, 0x56, 0x6A, SYS_CONNECT as u8, 0xCD, 0x80]);
    assert(code@ =~= old(code)@ + connect_code(dst));
}

fn emit_transfer(code: &mut Vec<u8>, ptr: u64, len: u8, number: u8)
    ensures
        final(code)@ == old(code)@ + transfer_code(ptr, len, number),
{
    append(code, &[0x6A, len, 0x48, 0xB8]);
    append_le64(code, ptr);
    append(code, &[0x50, 0x53, 0x6A, number, 0xCD, 0x80]);
    assert(code@ =~= old(code)@ + transfer_code(ptr, len, number));
}

fn emit_send(code: &mut Vec<u8>, ptr: u64, len: u8)
    ensures
        final(code)@ == old(code)@ + transfer_code(ptr, len, SYS_SEND as u8),
{
    emit_transfer(code, ptr, len, SYS_SEND as u8);
}

fn emit_recv(code: &mut Vec<u8>, ptr: u64, len: u8)
    ensures
        final(code)@ == old(code)@ + transfer_code(ptr, len, SYS_RECV as u8),
{
    emit_transfer(code, ptr, len, SYS_RECV as u8);
}

fn emit_write_dyn(code: &mut Vec<u8>, ptr: u64)
    ensures
        final(code)@ == old(code)@ + write_dyn_code(ptr),
{
    append(code, &[0x50, 0x48, 0xB8]);
    append_le64(code, ptr);
    append(code, &[0x50, 0x6A, SYS_WRITE as u8, 0xCD, 0x80]);
    assert(code@ =~= old(code)@ + write_dyn_code(ptr));
}

fn emit_listen(code: &mut Vec<u8>, port: u16)
    ensures
        final(code)@ == old(code)@ + listen_code(port),
{
    code.push(0x68);
    append_le32(code, port as u32);
    append(code, &[0x50, 0x6A, SYS_LISTEN as u8, 0xCD, 0x80]);
    assert(code@ =~= old(code)@ + listen_code(port));
}

fn emit_accept(code: &mut Vec<u8>)
    ensures
        final(code)@ == old(code)@ + accept_code(),
{
    append(code, &[0x50, 0x6A, SYS_ACCEPT as u8, 0xCD, 0x80]);
    assert(code@ =~= old(code)@ + accept_code());
}

/// A move between registers.
fn emit_move(code: &mut Vec<u8>, prefix: u8, registers: u8)
    ensures
        final(code)@ == old(code)@ + seq![prefix, 0x89u8, registers],
{
    append(code, &[prefix, 0x89, registers]);
    assert(code@ =~= old(code)@ + seq![prefix, 0x89u8, registers]);
}

fn emit_spin(code: &mut Vec<u8>, count: u32)
    ensures
        final(code)@ == old(code)@ + spin_code(count),
{
    append(code, &[0x48, 0xC7, 0xC1]);
    append_le32(code, count);
    append(code, &[0x48, 0xFF, 0xC9, 0x75, 0xFB]);
    assert(code@ =~= old(code)@ + spin_code(count));
}

/// One round of the looping program: write, spin, yield.
pub open spec fn round_code(ptr: u64, len: u8) -> Seq<u8> {
    write_code(ptr, len) + spin_code(DEMO_SPIN) + syscall0_code(SYS_YIELD as u8)
}

/// `n` rounds.
pub open spec fn rounds_code(ptr: u64, len: u8, n: nat) -> Seq<u8>
    decreases n,
{
    if n == 0 {
        Seq::empty()
    } else {
        rounds_code(ptr, len, (n - 1) as nat) + round_code(ptr, len)
    }
}

/// The looping program: its rounds, then an exit with code 0.
pub open spec fn looping_code(ptr: u64, len: u8, n: nat) -> Seq<u8> {
    rounds_code(ptr, len, n) + syscall1_code(0, SYS_EXIT as u8)
}

/// The child program: write, then exit with [`CHILD_EXIT_CODE`].
pub open spec fn child_code(ptr: u64, len: u8) -> Seq<u8> {
    write_code(ptr, len) + syscall1_code(CHILD_EXIT_CODE, SYS_EXIT as u8)
}

/// The parent program: write, spawn the child, wait for it, write again, exit with code 0.
pub open spec fn parent_code(ptr: u64, len: u8) -> Seq<u8> {
    write_code(ptr, len) + syscall1_code(PROG_CHILD as u8, SYS_SPAWN as u8) + syscall0_code(
        SYS_WAIT as u8,
    ) + write_code(ptr, len) + syscall1_code(0, SYS_EXIT as u8)
}

/// Opens a socket, keeps it in `r15` and listens on it.
pub open spec fn listening_code(port: u16) -> Seq<u8> {
    socket_code() + seq![0x49u8, 0x89u8, 0xC7u8] + listen_code(port)
}

/// Opens a socket, keeps it in `rbx` and connects it.
pub open spec fn connecting_code(dst: u64) -> Seq<u8> {
    socket_code() + seq![0x48u8, 0x89u8, 0xC3u8] + connect_code(dst)
}

/// Accepts on the socket in `r15` and keeps the new one in `r14`.
pub open spec fn accepting_code() -> Seq<u8> {
    seq![0x4Cu8, 0x89u8, 0xF8u8] + accept_code() + seq![0x49u8, 0x89u8, 0xC6u8]
}

/// Sends on the socket in `rbx`, receives on the one in `r14`, writes what was received and
/// exits.
pub open spec fn exchanging_code(send_ptr: u64, send_len: u8, recv_ptr: u64, recv_cap: u8) -> Seq<
    u8,
> {
    transfer_code(send_ptr, send_len, SYS_SEND as u8) + seq![0x4Cu8, 0x89u8, 0xF3u8]
        + transfer_code(recv_ptr, recv_cap, SYS_RECV as u8) + write_dyn_code(recv_ptr)
        + syscall1_code(0, SYS_EXIT as u8)
}

/// The socket program, which plays both ends of a connection: it listens, connects to itself,
/// accepts, sends on one end, receives on the other, writes what it received and exits.
pub open spec fn accept_demo_code(
    dst: u64,
    port: u16,
    send_ptr: u64,
    send_len: u8,
    recv_ptr: u64,
    recv_cap: u8,
) -> Seq<u8> {
    listening_code(port) + connecting_code(dst) + accepting_code() + exchanging_code(
        send_ptr,
        send_len,
        recv_ptr,
        recv_cap,
    )
}

fn build_looping_program(ptr: u64, len: u8, iterations: usize) -> (code: Vec<u8>)
    ensures
        code@ == looping_code(ptr, len, iterations as nat),
{
    let mut code: Vec<u8> = Vec::new();
    let mut i: usize = 0;
    assert(code@ =~= rounds_code(ptr, len, 0));
    while i < iterations
        invariant
            i <= iterations,
            code@ == rounds_code(ptr, len, i as nat),
        decreases iterations - i,
    {
        let ghost before = code@;
        emit_write(&mut code, ptr, len);
        emit_spin(&mut code, DEMO_SPIN);
        emit_syscall0(&mut code, SYS_YIELD as u8);
        assert(code@ =~= before + round_code(ptr, len));
        i = i + 1;
    }
    emit_exit(&mut code, 0);
    code
}

fn build_child(ptr: u64, len: u8) -> (code: Vec<u8>)
    ensures
        code@ == child_code(ptr, len),
        code@.len() == CHILD_CODE_LEN,
{
    let mut code: Vec<u8> = Vec::new();
    emit_write(&mut code, ptr, len);
    emit_exit(&mut code, CHILD_EXIT_CODE);
    assert(code@ =~= child_code(ptr, len));
    code
}

fn build_parent(ptr: u64, len: u8) -> (code: Vec<u8>)
    ensures
        code@ == parent_code(ptr, len),
        code@.len() == PARENT_CODE_LEN,
{
    let mut code: Vec<u8> = Vec::new();
    emit_write(&mut code, ptr, len);
    emit_spawn(&mut code, PROG_CHILD as u8);
    emit_syscall0(&mut code, SYS_WAIT as u8);
    emit_write(&mut code, ptr, len);
    emit_exit(&mut code, 0);
    assert(code@ =~= parent_code(ptr, len));
    code
}

fn emit_listening(code: &mut Vec<u8>, port: u16)
    ensures
        final(code)@ == old(code)@ + listening_code(port),
        listening_code(port).len() == 18,
{
    emit_socket(code);
    emit_move(code, 0x49, 0xC7);
    emit_listen(code, port);
    assert(code@ =~= old(code)@ + listening_code(port));
}

fn emit_connecting(code: &mut Vec<u8>, dst: u64)
    ensures
        final(code)@ == old(code)@ + connecting_code(dst),
        connecting_code(dst).len() == 27,
{
    emit_socket(code);
    emit_move(code, 0x48, 0xC3);
    emit_connect(code, dst);
    assert(code@ =~= old(code)@ + connecting_code(dst));
}

fn emit_accepting(code: &mut Vec<u8>)
    ensures
        final(code)@ == old(code)@ + accepting_code(),
        accepting_code().len() == 11,
{
    emit_move(code, 0x4C, 0xF8);
    emit_accept(code);
    emit_move(code, 0x49, 0xC6);
    assert(code@ =~= old(code)@ + accepting_code());
}

fn emit_exchanging(code: &mut Vec<u8>, send_ptr: u64, send_len: u8, recv_ptr: u64, recv_cap: u8)
    ensures
        final(code)@ == old(code)@ + exchanging_code(send_ptr, send_len, recv_ptr, recv_cap),
        exchanging_code(send_ptr, send_len, recv_ptr, recv_cap).len() == 61,
{
    emit_send(code, send_ptr, send_len);
    emit_move(code, 0x4C, 0xF3);
    emit_recv(code, recv_ptr, recv_cap);
    emit_write_dyn(code, recv_ptr);
    emit_exit(code, 0);
    assert(code@ =~= old(code)@ + exchanging_code(send_ptr, send_len, recv_ptr, recv_cap));
}

fn build_accept_demo(
    dst: u64,
    port: u16,
    send_ptr: u64,
    send_len: u8,
    recv_ptr: u64,
    recv_cap: u8,
) -> (code: Vec<u8>)
    ensures
        code@ == accept_demo_code(dst, port, send_ptr, send_len, recv_ptr, recv_cap),
        code@.len() == ACCEPT_DEMO_CODE_LEN,
{
    let mut code: Vec<u8> = Vec::new();
    emit_listening(&mut code, port);
    assert(code@ =~= listening_code(port));
    emit_connecting(&mut code, dst);
    emit_accepting(&mut code);
    emit_exchanging(&mut code, send_ptr, send_len, recv_ptr, recv_cap);
    code
}

/// The file header of an executable with one segment.
pub open spec fn file_header() -> Seq<u8> {
    seq![0x7Fu8, 0x45u8, 0x4Cu8, 0x46u8, 2u8, 1u8, 1u8] + bytes::zeros(9) + bytes::le16_bytes(2)
        + bytes::le16_bytes(0x3E) + bytes::le32_bytes(1) + bytes::le64_bytes(
        0x2000_0000_0078,
    ) + bytes::le64_bytes(64) + bytes::zeros(12) + bytes::le16_bytes(64) + bytes::le16_bytes(56)
        + bytes::le16_bytes(1) + bytes::zeros(6)
}

/// The program header of a segment that is the whole file, `total` bytes long.
pub open spec fn segment_header(total: u64) -> Seq<u8> {
    bytes::le32_bytes(PT_LOAD) + bytes::le32_bytes(7) + bytes::le64_bytes(0) + bytes::le64_bytes(
        USER_LOAD_BASE,
    ) + bytes::le64_bytes(USER_LOAD_BASE) + bytes::le64_bytes(total) + bytes::le64_bytes(total)
        + bytes::le64_bytes(0x1000)
}

/// An executable: the headers, the code, then the message.
pub open spec fn elf_image(code: Seq<u8>, msg: Seq<u8>) -> Seq<u8> {
    file_header() + segment_header((120 + code.len() + msg.len()) as u64) + code + msg
}

/// Builds an executable from code and a message.
fn build_elf(code: &[u8], msg: &[u8]) -> (v: Vec<u8>)
    requires
        120 + code@.len() + msg@.len() <= usize::MAX,
    ensures
        v@ == elf_image(code@, msg@),
{
    let total: u64 = (DEMO_ENTRY_OFFSET + code.len() + msg.len()) as u64;
    let mut v: Vec<u8> = Vec::new();
    append(&mut v, &[0x7F, 0x45, 0x4C, 0x46, 2, 1, 1]);
    append_zeros(&mut v, 9);
    append_le16(&mut v, 2);
    append_le16(&mut v, 0x3E);
    append_le32(&mut v, 1);
    append_le64(&mut v, USER_LOAD_BASE + DEMO_ENTRY_OFFSET as u64);
    append_le64(&mut v, 64);
    append_zeros(&mut v, 12);
    append_le16(&mut v, 64);
    append_le16(&mut v, 56);
    append_le16(&mut v, 1);
    append_zeros(&mut v, 6);
    assert(v@ =~= file_header());
    append_le32(&mut v, PT_LOAD);
    append_le32(&mut v, 7);
    append_le64(&mut v, 0);
    append_le64(&mut v, USER_LOAD_BASE);
    append_le64(&mut v, USER_LOAD_BASE);
    append_le64(&mut v, total);
    append_le64(&mut v, total);
    append_le64(&mut v, 0x1000);
    assert(v@ =~= file_header() + segment_header(total));
    append(&mut v, code);
    append(&mut v, msg);
    v
}

/// Where a program's message is in memory: behind the headers and the code.
pub open spec fn message_address(code_len: int) -> u64 {
    (USER_LOAD_BASE + 120 + code_len) as u64
}

fn msg_vaddr(code_len: usize) -> (a: u64)
    requires
        code_len <= 0xFFFF,
    ensures
        a == message_address(code_len as int),
{
    USER_LOAD_BASE + (DEMO_ENTRY_OFFSET + code_len) as u64
}

/// The looping program with this message.
pub open spec fn demo_image(msg: Seq<u8>) -> Seq<u8> {
    elf_image(
        looping_code(message_address(105), (msg.len() % 256) as u8, 3),
        msg,
    )
}

/// The child program.
pub open spec fn child_image() -> Seq<u8> {
    let msg = bytes::str_bytes("  child: running, then exiting\n");
    elf_image(child_code(message_address(23), (msg.len() % 256) as u8), msg)
}

/// The parent program.
pub open spec fn parent_image() -> Seq<u8> {
    let msg = bytes::str_bytes("parent: before/after wait()\n");
    elf_image(parent_code(message_address(50), (msg.len() % 256) as u8), msg)
}

/// The socket program, which connects to `dst`.
pub open spec fn accept_demo_image(dst: u64) -> Seq<u8> {
    let msg = bytes::str_bytes("hello from a ring 3 socket\n");
    let send_ptr = message_address(117);
    elf_image(
        accept_demo_code(
            dst,
            CONNECT_DEMO_PORT,
            send_ptr,
            (msg.len() % 256) as u8,
            (send_ptr + msg.len()) as u64,
            SOCKET_DEMO_RECV_CAP,
        ),
        msg + bytes::zeros(64),
    )
}

proof fn lemma_rounds_len(ptr: u64, len: u8, n: nat)
    ensures
        rounds_code(ptr, len, n).len() == n * 33,
    decreases n,
{
    if n > 0 {
        lemma_rounds_len(ptr, len, (n - 1) as nat);
    }
}

/// Builds the looping program.
pub fn demo_elf(msg: &[u8]) -> (v: Vec<u8>)
    requires
        msg@.len() <= usize::MAX - 256,
    ensures
        v@ == demo_image(msg@),
{
    let len: u8 = (msg.len() % 256) as u8;
    let code: Vec<u8> = build_looping_program(msg_vaddr(DEMO_CODE_LEN), len, DEMO_ITERATIONS);
    proof {
        lemma_rounds_len(message_address(105), len, 3);
    }
    build_elf(&code, msg)
}

/// Builds the child program.
pub fn child_elf() -> (v: Vec<u8>)
    ensures
        v@ == child_image(),
{
    let text: &str = "  child: running, then exiting\n";
    let msg: &[u8] = text.as_bytes();
    proof {
        reveal_strlit("  child: running, then exiting\n");
        vstd::utf8::is_ascii_chars_encode_utf8(text@);
    }
    let code: Vec<u8> = build_child(msg_vaddr(CHILD_CODE_LEN), (msg.len() % 256) as u8);
    build_elf(&code, msg)
}

/// Builds the parent program.
pub fn parent_elf() -> (v: Vec<u8>)
    ensures
        v@ == parent_image(),
{
    let text: &str = "parent: before/after wait()\n";
    let msg: &[u8] = text.as_bytes();
    proof {
        reveal_strlit("parent: before/after wait()\n");
        vstd::utf8::is_ascii_chars_encode_utf8(text@);
    }
    let code: Vec<u8> = build_parent(msg_vaddr(PARENT_CODE_LEN), (msg.len() % 256) as u8);
    build_elf(&code, msg)
}

/// Builds the program with this number; `None` if there is none.
pub fn program_elf(prog_id: u64) -> (v: Option<Vec<u8>>)
    ensures
        match v {
            Some(image) => prog_id == PROG_CHILD && image@ == child_image(),
            None => prog_id != PROG_CHILD,
        },
{
    if prog_id == PROG_CHILD {
        Some(child_elf())
    } else {
        None
    }
}

/// An address and a port in one number: the address in the high 32 bits, in the order in which
/// it is written, and the port in the low 16.
pub open spec fn packed(ip: Seq<u8>, port: u16) -> u64 {
    (bytes::be32(ip, 0) * 0x1_0000_0000 + port) as u64
}

/// The address in a packed destination.
pub open spec fn packed_ip(dst: u64) -> Seq<u8> {
    bytes::be32_bytes((dst / 0x1_0000_0000) as u32)
}

/// The port in a packed destination.
pub open spec fn packed_port(dst: u64) -> u16 {
    (dst % 0x1_0000) as u16
}

/// Packs an address and a port.
pub fn pack_dst(ip: [u8; 4], port: u16) -> (dst: u64)
    ensures
        dst == packed(ip@, port),
{
    bytes::read_be32(&ip, 0) as u64 * 0x1_0000_0000 + port as u64
}

/// The address and the port in a packed destination.
pub fn unpack_dst(dst: u64) -> (r: ([u8; 4], u16))
    ensures
        r.0@ == packed_ip(dst),
        r.1 == packed_port(dst),
{
    let n: u32 = (dst / 0x1_0000_0000) as u32;
    let ip: [u8; 4] = [
        (n / 0x100_0000) as u8,
        (n / 0x1_0000 % 256) as u8,
        (n / 0x100 % 256) as u8,
        (n % 256) as u8,
    ];
    assert(ip@ =~= packed_ip(dst));
    (ip, (dst % 0x1_0000) as u16)
}

/// A packed destination holds the address and the port that it was packed from.
pub proof fn destination_round_trips(ip: Seq<u8>, port: u16)
    requires
        ip.len() == 4,
    ensures
        packed_ip(packed(ip, port)) == ip,
        packed_port(packed(ip, port)) == port,
{
    bytes::be32_unique(ip);
    let n = bytes::be32(ip, 0);
    assert((n * 0x1_0000_0000 + port) / 0x1_0000_0000 == n);
}

/// Builds the socket program, which connects to `dst`.
pub fn accept_demo_elf(dst: u64) -> (v: Vec<u8>)
    ensures
        v@ == accept_demo_image(dst),
{
    let text: &str = "hello from a ring 3 socket\n";
    let msg: &[u8] = text.as_bytes();
    proof {
        reveal_strlit("hello from a ring 3 socket\n");
        vstd::utf8::is_ascii_chars_encode_utf8(text@);
    }
    let send_ptr: u64 = msg_vaddr(ACCEPT_DEMO_CODE_LEN);
    let recv_ptr: u64 = send_ptr + msg.len() as u64;
    let code: Vec<u8> = build_accept_demo(
        dst,
        CONNECT_DEMO_PORT,
        send_ptr,
        (msg.len() % 256) as u8,
        recv_ptr,
        SOCKET_DEMO_RECV_CAP,
    );
    let mut data: Vec<u8> = bytes::to_vec(msg);
    append_zeros(&mut data, SOCKET_DEMO_RECV_CAP as usize);
    build_elf(&code, &data)
}

/// The one segment of a program: the whole file, at [`USER_LOAD_BASE`], readable, writable and
/// executable.
pub open spec fn whole_file_segment(total: u64) -> ProgramHeader {
    ProgramHeader {
        flags: 7,
        file_offset: 0,
        vaddr: USER_LOAD_BASE,
        file_size: total,
        mem_size: total,
    }
}

/// Where the parts of a program's file stand.
proof fn lemma_image_layout(code: Seq<u8>, msg: Seq<u8>)
    ensures
        file_header().len() == 64,
        segment_header((120 + code.len() + msg.len()) as u64).len() == 56,
        elf_image(code, msg).len() == 120 + code.len() + msg.len(),
        elf_image(code, msg).take(64) == file_header(),
        elf_image(code, msg).subrange(64, 120) == segment_header(
            (120 + code.len() + msg.len()) as u64,
        ),
{
    let v = elf_image(code, msg);
    assert(v.take(64) =~= file_header());
    assert(v.subrange(64, 120) =~= segment_header((120 + code.len() + msg.len()) as u64));
}

proof fn lemma_le16(s: Seq<u8>, at: int, x: u16)
    requires
        0 <= at,
        at + 2 <= s.len(),
        s.subrange(at, at + 2) == bytes::le16_bytes(x),
    ensures
        bytes::le16(s, at) == x,
{
    assert(s[at] == s.subrange(at, at + 2)[0] && s[at + 1] == s.subrange(at, at + 2)[1]);
}

proof fn lemma_le32(s: Seq<u8>, at: int, x: u32)
    requires
        0 <= at,
        at + 4 <= s.len(),
        s.subrange(at, at + 4) == bytes::le32_bytes(x),
    ensures
        bytes::le32(s, at) == x,
{
    let p = s.subrange(at, at + 4);
    assert(s[at] == p[0] && s[at + 1] == p[1] && s[at + 2] == p[2] && s[at + 3] == p[3]);
}

proof fn lemma_le64(s: Seq<u8>, at: int, x: u64)
    requires
        0 <= at,
        at + 8 <= s.len(),
        s.subrange(at, at + 8) == bytes::le64_bytes(x),
    ensures
        bytes::le64(s, at) == x,
{
    let p = s.subrange(at, at + 8);
    let low = (x % 0x1_0000_0000) as u32;
    let high = (x / 0x1_0000_0000) as u32;
    assert(s.subrange(at, at + 4) =~= bytes::le32_bytes(low)) by {
        assert(p.subrange(0, 4) =~= bytes::le32_bytes(low));
        assert(s.subrange(at, at + 4) =~= p.subrange(0, 4));
    }
    assert(s.subrange(at + 4, at + 8) =~= bytes::le32_bytes(high)) by {
        assert(p.subrange(4, 8) =~= bytes::le32_bytes(high));
        assert(s.subrange(at + 4, at + 8) =~= p.subrange(4, 8));
    }
    lemma_le32(s, at, low);
    lemma_le32(s, at + 4, high);
}

/// The fields of the file header.
proof fn lemma_header_fields()
    ensures
        ({
            let h = file_header();
            &&& h.len() == 64
            &&& h.subrange(0, 4) == seq![0x7Fu8, 0x45u8, 0x4Cu8, 0x46u8]
            &&& h[4] == 2 && h[5] == 1
            &&& bytes::le16(h, 16) == 2
            &&& bytes::le16(h, 18) == 0x3E
            &&& bytes::le64(h, 24) == 0x2000_0000_0078
            &&& bytes::le64(h, 32) == 64
            &&& bytes::le16(h, 54) == 56
            &&& bytes::le16(h, 56) == 1
        }),
{
    let h = file_header();
    assert(h.subrange(0, 4) =~= seq![0x7Fu8, 0x45u8, 0x4Cu8, 0x46u8]);
    assert(h.subrange(16, 18) =~= bytes::le16_bytes(2));
    lemma_le16(h, 16, 2);
    assert(h.subrange(18, 20) =~= bytes::le16_bytes(0x3E));
    lemma_le16(h, 18, 0x3E);
    assert(h.subrange(24, 32) =~= bytes::le64_bytes(0x2000_0000_0078));
    lemma_le64(h, 24, 0x2000_0000_0078);
    assert(h.subrange(32, 40) =~= bytes::le64_bytes(64));
    lemma_le64(h, 32, 64);
    assert(h.subrange(54, 56) =~= bytes::le16_bytes(56));
    lemma_le16(h, 54, 56);
    assert(h.subrange(56, 58) =~= bytes::le16_bytes(1));
    lemma_le16(h, 56, 1);
}

/// The fields of the program header.
proof fn lemma_segment_fields(total: u64)
    ensures
        ({
            let h = segment_header(total);
            &&& h.len() == 56
            &&& bytes::le32(h, 0) == PT_LOAD
            &&& bytes::le32(h, 4) == 7
            &&& bytes::le64(h, 8) == 0
            &&& bytes::le64(h, 16) == USER_LOAD_BASE
            &&& bytes::le64(h, 32) == total
            &&& bytes::le64(h, 40) == total
        }),
{
    let h = segment_header(total);
    assert(h.subrange(0, 4) =~= bytes::le32_bytes(PT_LOAD));
    lemma_le32(h, 0, PT_LOAD);
    assert(h.subrange(4, 8) =~= bytes::le32_bytes(7));
    lemma_le32(h, 4, 7);
    assert(h.subrange(8, 16) =~= bytes::le64_bytes(0));
    lemma_le64(h, 8, 0);
    assert(h.subrange(16, 24) =~= bytes::le64_bytes(USER_LOAD_BASE));
    lemma_le64(h, 16, USER_LOAD_BASE);
    assert(h.subrange(32, 40) =~= bytes::le64_bytes(total));
    lemma_le64(h, 32, total);
    assert(h.subrange(40, 48) =~= bytes::le64_bytes(total));
    lemma_le64(h, 40, total);
}

/// Fields read at the same place in a file and in a part of it are the same.
proof fn lemma_part(s: Seq<u8>, part: Seq<u8>, from: int, at: int)
    requires
        0 <= from,
        from + part.len() <= s.len(),
        s.subrange(from, from + part.len()) == part,
        0 <= at,
        at + 8 <= part.len(),
    ensures
        bytes::le16(s, from + at) == bytes::le16(part, at),
        bytes::le32(s, from + at) == bytes::le32(part, at),
        bytes::le64(s, from + at) == bytes::le64(part, at),
{
    let sub = s.subrange(from, from + part.len());
    let f = from + at;
    assert(sub[at] == s[f] && sub[at + 1] == s[f + 1] && sub[at + 2] == s[f + 2] && sub[at + 3]
        == s[f + 3] && sub[at + 4] == s[f + 4] && sub[at + 5] == s[f + 5] && sub[at + 6] == s[f + 6]
        && sub[at + 7] == s[f + 7]);
}

/// A program built here parses: it is an executable without faults that starts behind its
/// headers and has one segment, the whole file.
pub proof fn built_program_parses(code: Seq<u8>, msg: Seq<u8>)
    requires
        120 + code.len() + msg.len() <= u64::MAX,
    ensures
        elf::fault(elf_image(code, msg)) is None,
        elf::entry_point(elf_image(code, msg)) == USER_LOAD_BASE + DEMO_ENTRY_OFFSET,
        elf::segments(elf_image(code, msg)) == seq![
            whole_file_segment((120 + code.len() + msg.len()) as u64),
        ],
{
    let v = elf_image(code, msg);
    let total = (120 + code.len() + msg.len()) as u64;
    let h = file_header();
    let p = segment_header(total);
    lemma_image_layout(code, msg);
    lemma_header_fields();
    lemma_segment_fields(total);
    assert(v.subrange(0, 64) =~= v.take(64));
    lemma_part(v, h, 0, 16);
    lemma_part(v, h, 0, 18);
    lemma_part(v, h, 0, 24);
    lemma_part(v, h, 0, 32);
    lemma_part(v, h, 0, 54);
    lemma_part(v, h, 0, 56);
    lemma_part(v, p, 64, 0);
    lemma_part(v, p, 64, 4);
    lemma_part(v, p, 64, 8);
    lemma_part(v, p, 64, 16);
    lemma_part(v, p, 64, 32);
    lemma_part(v, p, 64, 40);
    assert(v.subrange(0, 4) =~= h.subrange(0, 4)) by {
        assert(v.subrange(0, 4) =~= v.take(64).subrange(0, 4));
    }
    assert(v[4] == v.take(64)[4] && v[5] == v.take(64)[5]);
    assert(elf::header_at(v, 0) == 64);
    assert(elf::segments_before(v, 0) =~= Seq::empty());
    assert(elf::segments_before(v, 1) == elf::segments_before(v, 0).push(elf::segment_at(v, 0)));
    assert(elf::segments(v) =~= seq![whole_file_segment(total)]);
}

/// A program's message stands where its code expects it: as far behind the start of the file as
/// the message's address is behind [`USER_LOAD_BASE`].
pub proof fn message_is_where_the_code_expects_it(code: Seq<u8>, msg: Seq<u8>)
    requires
        code.len() <= 0xFFFF,
    ensures
        elf_image(code, msg).skip(message_address(code.len() as int) - USER_LOAD_BASE) == msg,
        elf_image(code, msg).subrange(120, 120int + code.len()) == code,
{
    let v = elf_image(code, msg);
    lemma_image_layout(code, msg);
    assert(v.skip(120int + code.len()) =~= msg);
    assert(v.subrange(120, 120int + code.len()) =~= code);
}

} // verus!
