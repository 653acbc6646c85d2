//! What the user programs do when they run: the calls that they make, and with what.

use vstd::prelude::*;

use crate::bytes;
use crate::process::program;

verus! {

/// The registers that the programs use, and the stack, its top first.
#[verifier::ext_equal]
pub struct Cpu {
    pub rax: u64,
    pub rbx: u64,
    pub rsi: u64,
    pub stack: Seq<u64>,
}

/// The CPU with `x` on top of its stack.
pub open spec fn pushed(c: Cpu, x: u64) -> Cpu {
    Cpu { stack: seq![x] + c.stack, ..c }
}

/// The number in the eight bytes at `i`, the lowest first.
pub open spec fn operand8(code: Seq<u8>, i: int) -> u64 {
    (code[i] + code[i + 1] * 0x100 + code[i + 2] * 0x1_0000 + code[i + 3] * 0x100_0000 + (code[i
        + 4] + code[i + 5] * 0x100 + code[i + 6] * 0x1_0000 + code[i + 7] * 0x100_0000)
        * 0x1_0000_0000) as u64
}

/// The number in the four bytes at `i`, the lowest first.
pub open spec fn operand4(code: Seq<u8>, i: int) -> u64 {
    (code[i] + code[i + 1] * 0x100 + code[i + 2] * 0x1_0000 + code[i + 3] * 0x100_0000) as u64
}

/// Runs code up to its next system call, which `int 0x80` makes: the CPU then, and the code that
/// follows. Pushes, loads and moves are understood, and nothing else; a number that is pushed has
/// its highest bit clear.
pub open spec fn to_call(code: Seq<u8>, c: Cpu) -> Option<(Cpu, Seq<u8>)>
    decreases code.len(),
{
    if code.len() < 2 {
        None
    } else if code[0] == 0xCD && code[1] == 0x80 {
        Some((c, code.skip(2)))
    } else if code[0] == 0x6A && code[1] < 0x80 {
        to_call(code.skip(2), pushed(c, code[1] as u64))
    } else if code[0] == 0x50 {
        to_call(code.skip(1), pushed(c, c.rax))
    } else if code[0] == 0x53 {
        to_call(code.skip(1), pushed(c, c.rbx))
    } else if code[0] == 0x56 {
        to_call(code.skip(1), pushed(c, c.rsi))
    } else if code[0] == 0x68 && code.len() >= 5 && code[4] < 0x80 {
        to_call(code.skip(5), pushed(c, operand4(code, 1)))
    } else if code[0] == 0x48 && code[1] == 0xB8 && code.len() >= 10 {
        to_call(code.skip(10), Cpu { rax: operand8(code, 2), ..c })
    } else if code[0] == 0x48 && code[1] == 0x89 && code.len() >= 3 && code[2] == 0xC6 {
        to_call(code.skip(3), Cpu { rsi: c.rax, ..c })
    } else {
        None
    }
}

proof fn lemma_int(rest: Seq<u8>, c: Cpu)
    ensures
        to_call(seq![0xCDu8, 0x80u8] + rest, c) == Some((c, rest)),
{
    let code = seq![0xCDu8, 0x80u8] + rest;
    assert(code.skip(2) =~= rest);
}

proof fn lemma_push_number(n: u8, rest: Seq<u8>, c: Cpu)
    requires
        n < 0x80,
    ensures
        to_call(seq![0x6Au8, n] + rest, c) == to_call(rest, pushed(c, n as u64)),
{
    let code = seq![0x6Au8, n] + rest;
    assert(code.skip(2) =~= rest);
}

proof fn lemma_push_register(rest: Seq<u8>, c: Cpu)
    requires
        rest.len() > 0,
    ensures
        to_call(seq![0x50u8] + rest, c) == to_call(rest, pushed(c, c.rax)),
        to_call(seq![0x53u8] + rest, c) == to_call(rest, pushed(c, c.rbx)),
        to_call(seq![0x56u8] + rest, c) == to_call(rest, pushed(c, c.rsi)),
{
    assert((seq![0x50u8] + rest).skip(1) =~= rest);
    assert((seq![0x53u8] + rest).skip(1) =~= rest);
    assert((seq![0x56u8] + rest).skip(1) =~= rest);
}

proof fn lemma_load(x: u64, rest: Seq<u8>, c: Cpu)
    ensures
        to_call(seq![0x48u8, 0xB8u8] + bytes::le64_bytes(x) + rest, c) == to_call(
            rest,
            Cpu { rax: x, ..c },
        ),
{
    let b = bytes::le64_bytes(x);
    let code = seq![0x48u8, 0xB8u8] + b + rest;
    assert(code.skip(10) =~= rest);
    assert(code[2] == b[0] && code[3] == b[1] && code[4] == b[2] && code[5] == b[3] && code[6]
        == b[4] && code[7] == b[5] && code[8] == b[6] && code[9] == b[7]);
    let low = (x % 0x1_0000_0000) as u32;
    let high = (x / 0x1_0000_0000) as u32;
    lemma_four(low);
    lemma_four(high);
    let bl = bytes::le32_bytes(low);
    let bh = bytes::le32_bytes(high);
    assert(b[0] == bl[0] && b[1] == bl[1] && b[2] == bl[2] && b[3] == bl[3]);
    assert(b[4] == bh[0] && b[5] == bh[1] && b[6] == bh[2] && b[7] == bh[3]);
    assert(operand8(code, 2) == x);
}

proof fn lemma_four(x: u32)
    ensures
        ({
            let b = bytes::le32_bytes(x);
            b[0] + b[1] * 0x100 + b[2] * 0x1_0000 + b[3] * 0x100_0000 == x
        }),
{
}

/// The call that prints is made with its number, the address and the length, in this order from
/// the top of the stack.
pub proof fn printing_is_called_for(ptr: u64, len: u8, rest: Seq<u8>, c: Cpu)
    requires
        len < 0x80,
    ensures
        ({
            &&& to_call(program::write_code(ptr, len) + rest, c) matches Some((at, behind))
            &&& at.stack == seq![1u64, ptr, len as u64] + c.stack
            &&& behind == rest
        }),
{
    let c1 = pushed(c, len as u64);
    let c2 = Cpu { rax: ptr, ..c1 };
    let c3 = pushed(c2, ptr);
    let c4 = pushed(c3, 1);
    let r5 = seq![0xCDu8, 0x80u8] + rest;
    let r4 = seq![0x6Au8, 1u8] + r5;
    let r3 = seq![0x50u8] + r4;
    let r2 = seq![0x48u8, 0xB8u8] + bytes::le64_bytes(ptr) + r3;
    lemma_push_number(len, r2, c);
    lemma_load(ptr, r3, c1);
    lemma_push_register(r4, c2);
    lemma_push_number(1, r5, c3);
    lemma_int(rest, c4);
    assert(program::write_code(ptr, len) + rest =~= seq![0x6Au8, len] + r2);
    assert(c4.stack =~= seq![1u64, ptr, len as u64] + c.stack);
}

/// A call without arguments is made with its number on the stack, and one with an argument with
/// that below it.
pub proof fn small_calls_are_made(argument: u8, number: u8, rest: Seq<u8>, c: Cpu)
    requires
        argument < 0x80,
        number < 0x80,
    ensures
        ({
            &&& to_call(program::syscall0_code(number) + rest, c) matches Some((at, behind))
            &&& at.stack == seq![number as u64] + c.stack
            &&& behind == rest
        }),
        ({
            &&& to_call(program::syscall1_code(argument, number) + rest, c) matches Some(
                (at, behind),
            )
            &&& at.stack == seq![number as u64, argument as u64] + c.stack
            &&& behind == rest
        }),
{
    let r5 = seq![0xCDu8, 0x80u8] + rest;
    let r4 = seq![0x6Au8, number] + r5;
    lemma_push_number(number, r5, c);
    lemma_int(rest, pushed(c, number as u64));
    assert(program::syscall0_code(number) + rest =~= r4);
    let c1 = pushed(c, argument as u64);
    let c2 = pushed(c1, number as u64);
    lemma_push_number(argument, r4, c);
    lemma_push_number(number, r5, c1);
    lemma_int(rest, c2);
    assert(program::syscall1_code(argument, number) + rest =~= seq![0x6Au8, argument] + r4);
    assert(c2.stack =~= seq![number as u64, argument as u64] + c.stack);
}

/// Sending and receiving are called for with their number, the socket in `rbx`, the address of
/// the buffer and its length.
#[verifier::spinoff_prover]
pub proof fn transfers_are_called_for(ptr: u64, len: u8, number: u8, rest: Seq<u8>, c: Cpu)
    requires
        len < 0x80,
        number < 0x80,
    ensures
        ({
            &&& to_call(program::transfer_code(ptr, len, number) + rest, c) matches Some(
                (at, behind),
            )
            &&& at.stack == seq![number as u64, c.rbx, ptr, len as u64] + c.stack
            &&& behind == rest
        }),
{
    let c1 = pushed(c, len as u64);
    let c2 = Cpu { rax: ptr, ..c1 };
    let c3 = pushed(c2, ptr);
    let r4 = seq![0x53u8, 0x6Au8, number, 0xCDu8, 0x80u8] + rest;
    let r3 = seq![0x50u8] + r4;
    let r2 = seq![0x48u8, 0xB8u8] + bytes::le64_bytes(ptr) + r3;
    lemma_push_number(len, r2, c);
    lemma_load(ptr, r3, c1);
    lemma_push_register(r4, c2);
    lemma_call_on_rbx(number, rest, c3);
    assert(program::transfer_code(ptr, len, number) + rest =~= seq![0x6Au8, len] + r2);
    let at = pushed(pushed(c3, c.rbx), number as u64);
    assert(at.stack =~= seq![number as u64, c.rbx, ptr, len as u64] + c.stack);
}

proof fn lemma_call_on_rbx(number: u8, rest: Seq<u8>, c: Cpu)
    requires
        number < 0x80,
    ensures
        to_call(seq![0x53u8, 0x6Au8, number, 0xCDu8, 0x80u8] + rest, c) == Some(
            (pushed(pushed(c, c.rbx), number as u64), rest),
        ),
{
    let r2 = seq![0xCDu8, 0x80u8] + rest;
    let r1 = seq![0x6Au8, number] + r2;
    lemma_push_register(r1, c);
    lemma_push_number(number, r2, pushed(c, c.rbx));
    lemma_int(rest, pushed(pushed(c, c.rbx), number as u64));
    assert(seq![0x53u8, 0x6Au8, number, 0xCDu8, 0x80u8] + rest =~= seq![0x53u8] + r1);
}

/// Connecting is called for with its number, the socket in `rax` and the destination.
#[verifier::spinoff_prover]
pub proof fn connecting_is_called_for(dst: u64, rest: Seq<u8>, c: Cpu)
    ensures
        ({
            &&& to_call(program::connect_code(dst) + rest, c) matches Some((at, behind))
            &&& at.stack == seq![7u64, c.rax, dst] + c.stack
            &&& behind == rest
        }),
{
    let d1 = Cpu { rsi: c.rax, ..c };
    let d2 = Cpu { rax: dst, ..d1 };
    let d3 = pushed(d2, dst);
    let s4 = seq![0x56u8, 0x6Au8, 7u8, 0xCDu8, 0x80u8] + rest;
    let s3 = seq![0x50u8] + s4;
    let s2 = seq![0x48u8, 0xB8u8] + bytes::le64_bytes(dst) + s3;
    lemma_move(s2, c);
    lemma_load(dst, s3, d1);
    lemma_push_register(s4, d2);
    lemma_call_on_rsi(rest, d3);
    assert(program::connect_code(dst) + rest =~= seq![0x48u8, 0x89u8, 0xC6u8] + s2);
    let at = pushed(pushed(d3, c.rax), 7);
    assert(at.stack =~= seq![7u64, c.rax, dst] + c.stack);
}

proof fn lemma_move(rest: Seq<u8>, c: Cpu)
    ensures
        to_call(seq![0x48u8, 0x89u8, 0xC6u8] + rest, c) == to_call(rest, Cpu { rsi: c.rax, ..c }),
{
    assert((seq![0x48u8, 0x89u8, 0xC6u8] + rest).skip(3) =~= rest);
}

proof fn lemma_call_on_rsi(rest: Seq<u8>, c: Cpu)
    ensures
        to_call(seq![0x56u8, 0x6Au8, 7u8, 0xCDu8, 0x80u8] + rest, c) == Some(
            (pushed(pushed(c, c.rsi), 7), rest),
        ),
{
    let r2 = seq![0xCDu8, 0x80u8] + rest;
    let r1 = seq![0x6Au8, 7u8] + r2;
    lemma_push_register(r1, c);
    lemma_push_number(7, r2, pushed(c, c.rsi));
    lemma_int(rest, pushed(pushed(c, c.rsi), 7));
    assert(seq![0x56u8, 0x6Au8, 7u8, 0xCDu8, 0x80u8] + rest =~= seq![0x56u8] + r1);
}

proof fn lemma_call_on_rax(number: u8, rest: Seq<u8>, c: Cpu)
    requires
        number < 0x80,
    ensures
        to_call(seq![0x50u8, 0x6Au8, number, 0xCDu8, 0x80u8] + rest, c) == Some(
            (pushed(pushed(c, c.rax), number as u64), rest),
        ),
{
    let r2 = seq![0xCDu8, 0x80u8] + rest;
    let r1 = seq![0x6Au8, number] + r2;
    lemma_push_register(r1, c);
    lemma_push_number(number, r2, pushed(c, c.rax));
    lemma_int(rest, pushed(pushed(c, c.rax), number as u64));
    assert(seq![0x50u8, 0x6Au8, number, 0xCDu8, 0x80u8] + rest =~= seq![0x50u8] + r1);
}

/// Listening is called for with its number, the socket in `rax` and the port; accepting with its
/// number and the socket in `rax`; and what was received, as many bytes as `rax` says, is printed
/// from where it lies.
#[verifier::spinoff_prover]
pub proof fn listening_is_called_for(port: u16, ptr: u64, rest: Seq<u8>, c: Cpu)
    ensures
        ({
            &&& to_call(program::listen_code(port) + rest, c) matches Some((at, behind))
            &&& at.stack == seq![10u64, c.rax, port as u64] + c.stack
            &&& behind == rest
        }),
        ({
            &&& to_call(program::accept_code() + rest, c) matches Some((at, behind))
            &&& at.stack == seq![11u64, c.rax] + c.stack
            &&& behind == rest
        }),
        ({
            &&& to_call(program::write_dyn_code(ptr) + rest, c) matches Some((at, behind))
            &&& at.stack == seq![1u64, ptr, c.rax] + c.stack
            &&& behind == rest
        }),
{
    let l1 = seq![0x50u8, 0x6Au8, 10u8, 0xCDu8, 0x80u8] + rest;
    lemma_push_port(port, l1, c);
    lemma_call_on_rax(10, rest, pushed(c, port as u64));
    assert(program::listen_code(port) + rest =~= seq![0x68u8] + bytes::le32_bytes(port as u32)
        + l1);
    assert(pushed(pushed(pushed(c, port as u64), c.rax), 10).stack =~= seq![
        10u64,
        c.rax,
        port as u64,
    ] + c.stack);
    lemma_call_on_rax(11, rest, c);
    assert(program::accept_code() + rest =~= seq![0x50u8, 0x6Au8, 11u8, 0xCDu8, 0x80u8] + rest);
    assert(pushed(pushed(c, c.rax), 11).stack =~= seq![11u64, c.rax] + c.stack);
    let w2 = seq![0x50u8, 0x6Au8, 1u8, 0xCDu8, 0x80u8] + rest;
    let w1 = seq![0x48u8, 0xB8u8] + bytes::le64_bytes(ptr) + w2;
    let e1 = pushed(c, c.rax);
    let e2 = Cpu { rax: ptr, ..e1 };
    lemma_push_register(w1, c);
    lemma_load(ptr, w2, e1);
    lemma_call_on_rax(1, rest, e2);
    assert(program::write_dyn_code(ptr) + rest =~= seq![0x50u8] + w1);
    assert(pushed(pushed(e2, ptr), 1).stack =~= seq![1u64, ptr, c.rax] + c.stack);
}

proof fn lemma_push_port(port: u16, rest: Seq<u8>, c: Cpu)
    ensures
        to_call(seq![0x68u8] + bytes::le32_bytes(port as u32) + rest, c) == to_call(
            rest,
            pushed(c, port as u64),
        ),
{
    let b = bytes::le32_bytes(port as u32);
    let code = seq![0x68u8] + b + rest;
    assert(code.skip(5) =~= rest);
    assert(code[1] == b[0] && code[2] == b[1] && code[3] == b[2] && code[4] == b[3]);
    lemma_four(port as u32);
    assert(operand4(code, 1) == port as u64);
}

/// The child prints and then exits with code 42. The parent prints, spawns program 0, waits for
/// it, prints again and exits with code 0.
pub proof fn programs_make_their_calls(ptr: u64, len: u8)
    ensures
        program::child_code(ptr, len) == program::write_code(ptr, len) + program::syscall1_code(
            42,
            0,
        ),
        program::parent_code(ptr, len) == program::write_code(ptr, len) + program::syscall1_code(
            0,
            5,
        ) + program::syscall0_code(4) + program::write_code(ptr, len) + program::syscall1_code(0, 0),
{
}

/// The looping program prints, spins and yields in each round, and what follows is the program
/// with one round less; after its last round it exits with code 0.
pub proof fn rounds_follow_each_other(ptr: u64, len: u8, n: nat)
    ensures
        program::looping_code(ptr, len, n + 1) == program::write_code(ptr, len)
            + program::spin_code(50_000_000) + program::syscall0_code(3) + program::looping_code(
            ptr,
            len,
            n,
        ),
        program::looping_code(ptr, len, 0) == program::syscall1_code(0, 0),
{
    lemma_first_round(ptr, len, n);
    assert(program::looping_code(ptr, len, n + 1) =~= program::write_code(ptr, len)
        + program::spin_code(50_000_000) + program::syscall0_code(3) + program::looping_code(
        ptr,
        len,
        n,
    ));
    assert(program::looping_code(ptr, len, 0) =~= program::syscall1_code(0, 0));
}

proof fn lemma_first_round(ptr: u64, len: u8, n: nat)
    ensures
        program::rounds_code(ptr, len, n + 1) == program::round_code(ptr, len)
            + program::rounds_code(ptr, len, n),
    decreases n,
{
    let round = program::round_code(ptr, len);
    assert(program::rounds_code(ptr, len, n + 1) == program::rounds_code(ptr, len, n) + round);
    if n == 0 {
        assert(program::rounds_code(ptr, len, 0) + round =~= round + program::rounds_code(
            ptr,
            len,
            0,
        ));
    } else {
        let m = (n - 1) as nat;
        lemma_first_round(ptr, len, m);
        assert(program::rounds_code(ptr, len, n) == program::rounds_code(ptr, len, m) + round);
        assert((round + program::rounds_code(ptr, len, m)) + round =~= round + (
        program::rounds_code(ptr, len, m) + round));
    }
}

} // verus!
