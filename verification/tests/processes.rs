use aether::acpi::CpuCore;
use aether::elf::{ElfError, ElfFile};
use aether::interrupts;
use aether::interrupts::{InterruptFrame, InterruptIndex, Timer, TrapFrame};
use aether::memory;
use aether::memory::{
    AddressSpace, BootInfoFrameAllocator, Checks, GuardedStack, Region, Walk, WalkStep,
};
use aether::net::connect::Connect;
use aether::net::jobs::Step;
use aether::net::stack;
use aether::net::stack::Stack;
use aether::net::tcp::table;
use aether::percpu;
use aether::process::loader;
use aether::process::loader::{Action, Event, LoadCheck, Loader, UserImage};
use aether::process::program;
use aether::process::scheduler;
use aether::process::scheduler::{Resume, Scheduler};
use aether::sched;
use aether::sched::{RunQueue, Switch};
use aether::syscall;
use aether::syscall::{Call, Effect, Return, Syscalls, FAILED};
use aether::task::executor::Executor;
use aether::task::keyboard::{self, Added, Decoder, Key, ScancodeStream};
use aether::task::simple_executor::SimpleExecutor;

// Memory.

#[test]
fn pages_hold_their_addresses() {
    assert_eq!(memory::page_containing(0x1FFF), Some(0x1000));
    assert_eq!(memory::page_containing(0xFFFF_8000_0000_1234), Some(0xFFFF_8000_0000_1000));
    assert_eq!(memory::page_containing(0x7FFF_FFFF_FFFF), Some(0x7FFF_FFFF_F000));
    // Addresses of 48 bits whose last bit is set are extended.
    assert_eq!(memory::page_containing(0x8000_0000_0FFF), Some(0xFFFF_8000_0000_0000));
    assert_eq!(memory::page_containing(0x1_0000_0000_0000), None);
}

#[test]
fn frames_come_from_usable_memory_once() {
    let mut a = BootInfoFrameAllocator::init(vec![
        Region { start: 1, end: 3, usable: true },
        Region { start: 3, end: 9, usable: false },
        Region { start: 9, end: 10, usable: true },
    ]);
    let frames: Vec<Option<u64>> = (0..4).map(|_| a.allocate_frame()).collect();
    assert_eq!(frames, vec![Some(0x1000), Some(0x2000), Some(0x9000), None]);
}

#[test]
fn tables_are_walked() {
    let va = (1u64 << 39) | (2 << 30) | (3 << 21) | (4 << 12) | 0x10;
    let (mut w, step) = Walk::start(0x1000, va);
    assert_eq!(step, WalkStep::Read(0x1008));
    assert_eq!(w.step(0x2000 | 3), WalkStep::Read(0x2010));
    assert_eq!(w.step(0x3000 | 3), WalkStep::Read(0x3018));
    assert_eq!(w.step(0x4000 | 3), WalkStep::Leaf(0x4020));
    let (mut w, _) = Walk::start(0x1000, va);
    assert_eq!(w.step(0x2000), WalkStep::Missing);
    assert!(memory::page_is_present(Some(1)));
    assert!(!memory::page_is_present(Some(2)));
    assert!(!memory::page_is_present(None));
    assert_eq!(memory::set_entry_present(0x5003, false), 0x5002);
    assert_eq!(memory::set_entry_present(0x5002, true), 0x5003);
}

#[test]
fn overflowing_a_stack_hits_its_guard() {
    assert_eq!(GuardedStack::total_size(0x4000), 0x5000);
    let s = GuardedStack::new(0x10_0000, 0x4000);
    assert_eq!(s.guard_page(), 0x10_0000);
    assert_eq!(s.usable_bottom(), 0x10_1000);
    assert_eq!(s.usable_top(), 0x10_5000);
    let mut checks = Checks::new();
    memory::demo_guard_page(&mut checks, true, true, true);
    assert!(!memory::guard_page_ok(&checks));
    memory::demo_guard_page(&mut checks, false, true, true);
    assert!(memory::guard_page_ok(&checks));
}

#[test]
fn cloned_space_maps_the_kernel() {
    let mut kernel = vec![0u64; 512];
    kernel[3] = 0x7003;
    kernel[511] = 0x8003;
    let (space, table) = AddressSpace::new_cloning_kernel(Some(0x5000), &kernel).unwrap();
    assert_eq!(space.l4_frame(), 0x5000);
    assert_eq!(table, kernel);
    assert!(AddressSpace::new_cloning_kernel(None, &kernel).is_none());
    assert_eq!(memory::present_slots(&kernel), vec![3, 511]);
    assert!(!memory::all_in_lower_half(&vec![3, 511]));
    assert!(memory::all_in_lower_half(&vec![3, 255]));
    let mut checks = Checks::new();
    memory::demo_clone_kernel_space(&mut checks, space, 0x5000, true, 0x1000, 0x1000);
    assert!(memory::address_space_clone_ok(&checks));
    memory::demo_clone_kernel_space(&mut checks, space, 0x1000, true, 0x1000, 0x1000);
    assert!(!memory::address_space_clone_ok(&checks));
    assert!(memory::needs_identity_mapping(0x8000, None));
    assert!(!memory::needs_identity_mapping(0x8000, Some(0x8000)));
}

// Programs.

#[test]
fn built_programs_parse() {
    for file in [
        program::demo_elf(b"hello\n"),
        program::child_elf(),
        program::parent_elf(),
        program::accept_demo_elf(program::pack_dst([10, 0, 2, 15], 7900)),
    ] {
        let elf = ElfFile::parse(&file).unwrap();
        assert_eq!(elf.entry(), program::USER_LOAD_BASE + 120);
        let segments = elf.load_segments();
        assert_eq!(segments.len(), 1);
        assert_eq!(segments[0].vaddr, program::USER_LOAD_BASE);
        assert_eq!(segments[0].file_size, file.len() as u64);
        assert!(segments[0].is_executable() && segments[0].is_readable());
    }
    assert_eq!(program::program_elf(program::PROG_CHILD), Some(program::child_elf()));
    assert_eq!(program::program_elf(7), None);
}

#[test]
fn message_stands_behind_the_code() {
    let file = program::demo_elf(b"hello\n");
    assert_eq!(file.len(), 120 + program::DEMO_CODE_LEN + 6);
    assert_eq!(&file[120 + program::DEMO_CODE_LEN..], b"hello\n");
}

#[test]
fn destination_round_trips() {
    let dst = program::pack_dst([10, 0, 2, 15], 7900);
    assert_eq!(dst, 0x0A00_020F_0000_1EDC);
    assert_eq!(program::unpack_dst(dst), ([10, 0, 2, 15], 7900));
}

#[test]
fn files_that_are_not_programs_are_refused() {
    let good = program::child_elf();
    assert_eq!(ElfFile::parse(&good[..63]).err(), Some(ElfError::TooSmall));
    let changes: [(usize, u8, ElfError); 6] = [
        (0, 0, ElfError::BadMagic),
        (4, 1, ElfError::NotElf64),
        (5, 2, ElfError::NotLittleEndian),
        (18, 3, ElfError::NotX86_64),
        (16, 3, ElfError::NotExecutable),
        (56, 200, ElfError::BadProgramHeaders),
    ];
    for (at, byte, error) in changes {
        let mut bad = good.clone();
        bad[at] = byte;
        assert_eq!(ElfFile::parse(&bad).err(), Some(error), "{}", at);
    }
}

#[test]
fn program_is_loaded_page_by_page() {
    let file = program::child_elf();
    let (mut l, first) = loader::load(&file).ok().unwrap();
    assert!(matches!(first, Action::NewSpace));
    let mut action = l.step(Event::Space(true));
    let mut pages = Vec::new();
    let mut code = Vec::new();
    loop {
        let event = match action {
            Action::AllocateFrame => Event::Frame(true),
            Action::MapPage { page, writable } => {
                pages.push((page, writable));
                Event::Mapped(true)
            }
            Action::Fill(data) => {
                if pages.len() == 1 {
                    code = data;
                }
                Event::Filled
            }
            Action::Done { entry, user_stack_top } => {
                assert_eq!(entry, program::USER_LOAD_BASE + 120);
                assert_eq!(user_stack_top, loader::USER_STACK_TOP);
                break;
            }
            Action::NewSpace | Action::Failed(_) => unreachable!(),
        };
        action = l.step(event);
    }
    assert_eq!(pages[0].0, program::USER_LOAD_BASE);
    let stack: Vec<(u64, bool)> =
        (0..4).map(|i| (loader::USER_STACK_BOTTOM + i * 4096, true)).collect();
    assert_eq!(pages[1..], stack);
    assert_eq!(code.len(), 4096);
    assert_eq!(&code[..file.len()], &file[..]);
    assert!(code[file.len()..].iter().all(|b| *b == 0));
}

#[test]
fn loading_fails_without_memory() {
    let file = program::child_elf();
    let start = || loader::load(&file).ok().unwrap().0;
    assert!(matches!(start().step(Event::Space(false)), Action::Failed(ElfError::OutOfFrames)));
    let mut l = start();
    l.step(Event::Space(true));
    assert!(matches!(l.step(Event::Frame(false)), Action::Failed(ElfError::OutOfFrames)));
    let mut l = start();
    l.step(Event::Space(true));
    l.step(Event::Frame(true));
    assert!(matches!(l.step(Event::Mapped(false)), Action::Failed(ElfError::MapFailed)));
    assert_eq!(loader::load(&[]).err(), Some(ElfError::TooSmall));
}

#[test]
fn segment_beyond_the_file_is_refused() {
    let mut file = program::child_elf();
    // The segment is said to be longer than the file.
    file[64 + 32] = 0xFF;
    file[64 + 40] = 0xFF;
    let elf = ElfFile::parse(&file).unwrap();
    assert!(loader::is_loadable(&elf));
    let (mut l, _) = Loader::start(elf);
    l.step(Event::Space(true));
    l.step(Event::Frame(true));
    assert!(matches!(l.step(Event::Mapped(true)), Action::Failed(ElfError::BadSegment)));
}

#[test]
fn loaded_code_is_compared_with_the_file() {
    let file = program::demo_elf(b"x");
    let code = file[120..120 + program::DEMO_CODE_LEN].to_vec();
    let mut check = LoadCheck { ok: false };
    loader::demo_load_elf(&mut check, &file, &None);
    assert!(!loader::elf_load_ok(&check));
    loader::demo_load_elf(&mut check, &file, &Some(code));
    assert!(loader::elf_load_ok(&check));
}

// Traps.

fn user_frame() -> InterruptFrame {
    InterruptFrame {
        instruction_pointer: 0x2000_0000_0078,
        code_segment: 0x23,
        cpu_flags: 0x202,
        stack_pointer: loader::USER_STACK_TOP,
        stack_segment: 0x2B,
    }
}

fn kernel_frame() -> InterruptFrame {
    InterruptFrame { code_segment: 8, stack_segment: 0, ..user_frame() }
}

#[test]
fn ticks_are_counted_and_logged() {
    let mut timer = Timer { ticks: 0 };
    let tick = interrupts::timer_dispatch(&mut timer, &TrapFrame::new(user_frame()));
    assert_eq!((tick.count, tick.logged, tick.preempts), (1, true, true));
    let tick = interrupts::timer_dispatch(&mut timer, &TrapFrame::new(kernel_frame()));
    assert_eq!((tick.count, tick.logged, tick.preempts), (2, false, false));
    let mut later = Timer { ticks: 99 };
    assert!(interrupts::timer_dispatch(&mut later, &TrapFrame::new(kernel_frame())).logged);
    assert_eq!(interrupts::timer_ticks(&later), 100);
    assert_eq!(InterruptIndex::Timer.as_u8(), 32);
    assert_eq!(InterruptIndex::Keyboard.as_usize(), 33);
}

#[test]
fn calls_are_routed_by_number_and_ring() {
    let mut calls = Syscalls { from_ring3: 0 };
    let user = TrapFrame::new(user_frame());
    let expected = [
        (syscall::SYS_EXIT, Call::Exit, 1),
        (syscall::SYS_WRITE, Call::Value, 2),
        (syscall::SYS_GETPID, Call::Value, 2),
        (syscall::SYS_YIELD, Call::Yield, 0),
        (syscall::SYS_WAIT, Call::Wait, 0),
        (syscall::SYS_SPAWN, Call::Spawn, 1),
        (syscall::SYS_SOCKET, Call::Socket, 0),
        (syscall::SYS_CONNECT, Call::Connect, 2),
        (syscall::SYS_SEND, Call::Send, 3),
        (syscall::SYS_RECV, Call::Recv, 3),
        (syscall::SYS_LISTEN, Call::Listen, 2),
        (syscall::SYS_ACCEPT, Call::Accept, 1),
    ];
    for (number, call, arguments) in expected {
        let route = syscall::syscall_dispatch(&mut calls, &user, number);
        assert_eq!((route.call, route.arguments), (call, arguments), "{}", number);
    }
    assert_eq!(syscall::ring3_syscall_count(&calls), 12);
    let kernel = TrapFrame::new(kernel_frame());
    let route = syscall::syscall_dispatch(&mut calls, &kernel, syscall::SYS_EXIT);
    assert_eq!((route.call, route.returns), (Call::Value, Return::Stack));
    assert_eq!(syscall::ring3_syscall_count(&calls), 12);
}

#[test]
fn calls_that_return_values_do() {
    assert_eq!(
        syscall::dispatch(syscall::SYS_WRITE, 0x1000, 5),
        (Effect::Print { ptr: 0x1000, len: 5 }, 5)
    );
    assert_eq!(syscall::dispatch(syscall::SYS_GETPID, 0, 0), (Effect::Nothing, 1));
    assert_eq!(syscall::dispatch(syscall::SYS_EXIT, 3, 0), (Effect::NoteExit(3), 0));
    assert_eq!(syscall::dispatch(99, 0, 0), (Effect::NoteUnknown(99), FAILED));
    assert_eq!(syscall::sys_write("h\u{e9}".as_bytes()), (Some(String::from("h\u{e9}")), 3));
    assert_eq!(syscall::sys_write(&[0xFF, 0xFE]), (None, 2));
}

// Processes.

fn image(l4: u64) -> UserImage {
    UserImage { l4, entry: 0x2000_0000_0078, user_stack_top: loader::USER_STACK_TOP }
}

fn context(rbx: u64) -> TrapFrame {
    TrapFrame { rbx, ..TrapFrame::new(user_frame()) }
}

#[test]
fn processes_take_turns() {
    let mut s = Scheduler::new();
    let ids: Vec<u64> =
        (1..4).map(|i| scheduler::spawn(&mut s, image(i * 0x1000), None, user_frame())).collect();
    assert!(ids[0] != ids[1] && ids[1] != ids[2] && ids[0] != ids[2]);
    assert_eq!(scheduler::run(&mut s, 0x9000).unwrap().l4, 0x1000);
    assert_eq!(scheduler::kernel_l4(&s), 0x9000);
    let mut tf = context(11);
    assert_eq!(scheduler::on_user_yield(&mut s, &mut tf), Resume::Space(0x2000));
    assert_eq!(tf, TrapFrame::new(user_frame()));
    tf = context(22);
    assert_eq!(scheduler::on_timer_tick(&mut s, &mut tf), Resume::Space(0x3000));
    assert_eq!(scheduler::on_user_yield(&mut s, &mut tf), Resume::Space(0x1000));
    assert_eq!(tf.rbx, 11);
    assert_eq!(scheduler::on_user_exit(&mut s, &mut tf, 0), Resume::Space(0x2000));
    assert_eq!(tf.rbx, 22);
    assert_eq!(scheduler::on_user_exit(&mut s, &mut tf, 0), Resume::Space(0x3000));
    assert_eq!(scheduler::on_timer_tick(&mut s, &mut tf), Resume::Here);
    assert_eq!(scheduler::last_user_run_l4(&s), 0x3000);
    assert_eq!(scheduler::on_user_exit(&mut s, &mut tf, 0), Resume::Kernel);
    assert_eq!(scheduler::processes_exited(&s), 3);
    assert_eq!(scheduler::processes_yielded(&s), 2);
    assert_eq!(scheduler::processes_preempted(&s), 1);
}

#[test]
fn nothing_runs_without_processes() {
    let mut s = Scheduler::new();
    assert_eq!(scheduler::run(&mut s, 0x9000), None);
    let mut tf = context(1);
    assert_eq!(scheduler::on_user_yield(&mut s, &mut tf), Resume::Here);
    assert_eq!(tf, context(1));
}

#[test]
fn waiting_parent_is_woken_with_the_code() {
    let mut s = Scheduler::new();
    let parent = scheduler::spawn(&mut s, image(0x1000), None, user_frame());
    scheduler::run(&mut s, 0x9000);
    let (id, file) = scheduler::spawn_request(&s, program::PROG_CHILD).unwrap();
    assert_eq!((id, file), (parent, program::child_elf()));
    assert!(scheduler::spawn_request(&s, 9).is_none());
    let child = scheduler::on_user_spawn(&mut s, parent, Some((image(0x2000), user_frame())));
    assert!(child != FAILED && child != parent);
    assert_eq!(scheduler::on_user_spawn(&mut s, parent, None), FAILED);
    let mut tf = context(5);
    assert_eq!(scheduler::on_user_wait(&mut s, &mut tf), Resume::Space(0x2000));
    assert_eq!(scheduler::on_user_exit(&mut s, &mut tf, 42), Resume::Space(0x1000));
    assert_eq!((tf.rax, tf.rbx), (42, 5));
    assert_eq!(scheduler::last_waited_code(&s), 42);
    assert_eq!((scheduler::processes_spawned(&s), scheduler::processes_waited(&s)), (1, 1));
    // There is no other child to wait for.
    assert_eq!(scheduler::on_user_wait(&mut s, &mut tf), Resume::Here);
    assert_eq!(tf.rax, FAILED);
}

#[test]
fn exited_child_is_collected_later() {
    let mut s = Scheduler::new();
    let parent = scheduler::spawn(&mut s, image(0x1000), None, user_frame());
    scheduler::run(&mut s, 0x9000);
    scheduler::on_user_spawn(&mut s, parent, Some((image(0x2000), user_frame())));
    let mut tf = context(5);
    scheduler::on_user_yield(&mut s, &mut tf);
    scheduler::on_user_exit(&mut s, &mut tf, 7);
    assert_eq!(scheduler::on_user_wait(&mut s, &mut tf), Resume::Here);
    assert_eq!(tf.rax, 7);
}

/// Carries what the stack sends back to itself until nothing moves.
fn circulate(net: &mut Stack, mut out: Vec<Vec<u8>>, now: u64) {
    let mac = stack::our_mac(net);
    loop {
        for (segment, ip) in stack::tcp_service(net, now) {
            out.push(stack::build_ipv4_frame(net, mac, ip, 6, &segment));
        }
        if out.is_empty() {
            break;
        }
        out = stack::poll(net, &out, now);
    }
}

#[test]
fn process_talks_to_itself_over_sockets() {
    let mut net = stack::init([2; 6]);
    stack::use_static_fallback(&mut net);
    let mut claimed = Vec::new();
    let mut s = Scheduler::new();
    scheduler::spawn(&mut s, image(0x1000), None, user_frame());
    scheduler::run(&mut s, 0x9000);
    let mut tf = context(1);

    let listener = scheduler::on_user_socket(&mut s);
    let client = scheduler::on_user_socket(&mut s);
    assert_eq!((listener, client), (0, 1));
    assert_eq!(scheduler::on_user_listen(&mut s, &mut net, listener, 7900), 0);
    assert_eq!(scheduler::on_user_listen(&mut s, &mut net, 9, 7900), FAILED);
    assert_eq!(scheduler::processes_listened(&s), 1);

    let dst = program::pack_dst(stack::our_ip(&net), 7900);
    let (pid, mut job) = scheduler::on_user_connect(&mut s, &mut tf, client, dst).unwrap();
    let mut now = 0;
    let port = loop {
        match aether::net::connect::tcp_connect(&mut net, &mut job) {
            Step::Done(port) => break port,
            Step::Wait(frames) => circulate(&mut net, frames, now),
        }
        now += 1;
    };
    assert!(port.is_some());
    scheduler::finish_connect(&mut s, &mut tf, pid, client, dst, port);
    assert_eq!(tf.rax, client);
    assert_eq!(scheduler::processes_connected(&s), 1);
    assert_eq!(scheduler::socket_ports(&s, client), Some((port.unwrap(), 7900)));

    let (pid, listening) = scheduler::on_user_accept(&mut s, &mut tf, listener).unwrap();
    let accepted = match scheduler::accept_step(&net, &mut claimed, listening, 0) {
        Step::Done(ports) => ports,
        Step::Wait(_) => None,
    };
    assert_eq!(accepted, Some((7900, port.unwrap())));
    scheduler::finish_accept(&mut s, &mut tf, pid, accepted);
    assert_eq!(tf.rax, 2);
    assert_eq!((scheduler::processes_accepted(&s), scheduler::last_accepted_fd(&s)), (1, 2));

    let (sent, segments) = scheduler::on_user_send(&mut s, &mut net, client, b"hello", now);
    assert_eq!(sent, 5);
    let mac = stack::our_mac(&net);
    let frames =
        segments.iter().map(|(g, ip)| stack::build_ipv4_frame(&net, mac, *ip, 6, g)).collect();
    circulate(&mut net, frames, now);
    let (pid, ports) = scheduler::on_user_recv(&mut s, &mut tf, 2).unwrap();
    let data = match scheduler::recv_step(&mut net, ports, 64, 0) {
        Step::Done(data) => data.unwrap(),
        Step::Wait(_) => panic!("nothing arrived"),
    };
    assert_eq!(data, b"hello".to_vec());
    scheduler::finish_recv(&mut s, &mut tf, pid, 5);
    assert_eq!(tf.rax, 5);
    assert_eq!((scheduler::processes_sent(&s), scheduler::processes_received(&s)), (1, 1));
    assert_eq!(scheduler::last_recv_len(&s), 5);
    assert_eq!(table::established_count(net.tcp()), 2);

    let (refused, nothing) = scheduler::on_user_send(&mut s, &mut net, 77, b"x", now);
    assert_eq!((refused, nothing), (FAILED, vec![]));
    assert!(scheduler::on_user_accept(&mut s, &mut tf, 77).is_none());
    assert_eq!(tf.rax, FAILED);
}

#[test]
fn connect_changes_only_its_descriptor_and_result() {
    let mut s = Scheduler::new();
    scheduler::spawn(&mut s, image(0x1000), None, user_frame());
    scheduler::run(&mut s, 0x9000);
    let before = context(1);
    let mut tf = before;
    let other = scheduler::on_user_socket(&mut s);
    let fd = scheduler::on_user_socket(&mut s);
    let dst = program::pack_dst([10, 0, 2, 2], 80);
    let (pid, job) = scheduler::on_user_connect(&mut s, &mut tf, fd, dst).unwrap();
    assert!(matches!(job, Connect::Resolving { ip: [10, 0, 2, 2], port: 80, attempt: 0 }));
    scheduler::finish_connect(&mut s, &mut tf, pid, fd, dst, None);
    assert_eq!(tf, TrapFrame { rax: FAILED, ..before });
    assert_eq!(scheduler::socket_ports(&s, fd), None);
    tf = before;
    let (pid, _) = scheduler::on_user_connect(&mut s, &mut tf, fd, dst).unwrap();
    scheduler::finish_connect(&mut s, &mut tf, pid, fd, dst, Some(50000));
    assert_eq!(tf, TrapFrame { rax: fd, ..before });
    assert_eq!(scheduler::socket_ports(&s, fd), Some((50000, 80)));
    assert_eq!(scheduler::socket_ports(&s, other), None);
    assert_eq!(scheduler::processes_connected(&s), 1);
}

#[test]
fn socket_that_stays_silent_is_given_up() {
    let net = stack::init([2; 6]);
    let mut claimed = Vec::new();
    for attempt in 0..scheduler::RECV_POLL_ITERS {
        assert!(matches!(
            scheduler::accept_step(&net, &mut claimed, 7900, attempt),
            Step::Wait(_)
        ));
    }
    assert!(matches!(
        scheduler::accept_step(&net, &mut claimed, 7900, scheduler::RECV_POLL_ITERS),
        Step::Done(None)
    ));
}

#[test]
fn demonstration_programs_are_prepared() {
    let mut net = stack::init([2; 6]);
    stack::use_static_fallback(&mut net);
    assert_eq!(scheduler::spawn_wait_demo(), program::parent_elf());
    let dst = program::pack_dst([10, 0, 2, 15], program::CONNECT_DEMO_PORT);
    assert_eq!(scheduler::spawn_accept_demo(&mut net), program::accept_demo_elf(dst));
}

// Kernel threads.

#[test]
fn kernel_threads_take_turns() {
    let mut queues = sched::init(2);
    assert_eq!(queues.len(), 2);
    let mut cpus = percpu::init(&vec![CpuCore { apic_id: 0, is_bsp: true }]);
    let q: &mut RunQueue = &mut queues[0];
    let mut next = 0;
    let a = sched::spawn(q, &mut next, 0xA);
    let b = sched::spawn(q, &mut next, 0xB);
    assert!(sched::work_remains(q));
    let boot = sched::run_to_completion(q, &mut next);
    assert_eq!(sched::yield_now(q), Some(Switch { from: boot, to: a }));
    assert_eq!(sched::current_entry(q), Some(0xA));
    assert_eq!(sched::preempt(q, &mut cpus[0]), Some(Switch { from: a, to: b }));
    assert_eq!(cpus[0].preemptions, 1);
    assert_eq!(sched::thread_exit(q, &mut cpus[0]), Switch { from: b, to: boot });
    assert_eq!(cpus[0].completed, 1);
    assert_eq!(sched::yield_now(q), Some(Switch { from: boot, to: a }));
    assert_eq!(sched::thread_exit(q, &mut cpus[0]), Switch { from: a, to: boot });
    assert_eq!(sched::yield_now(q), None);
    let mut gone = sched::reap_finished(q);
    gone.sort();
    assert_eq!(gone, vec![a, b]);
    assert!(!sched::work_remains(q));
}

#[test]
fn new_thread_starts_with_an_aligned_stack() {
    let (sp, words) = sched::prepare_stack(0x10_0000, 0xE);
    assert_eq!(words[6], 0xE);
    assert!(sp < 0x10_0000);
    // The return takes the stack pointer past the entry's address.
    assert_eq!((sp + 7 * 8) % 16, 8);
}

// Tasks.

#[test]
fn woken_tasks_are_polled_in_order() {
    let mut e = Executor::new();
    e.spawn(1);
    e.spawn(2);
    assert!(!e.sleep_if_idle());
    assert_eq!(e.next_ready(), Some(1));
    assert_eq!(e.next_ready(), Some(2));
    assert_eq!(e.next_ready(), None);
    assert!(e.sleep_if_idle());
    assert!(e.wake_task(2));
    assert!(e.wake_task(1));
    e.finished(2);
    assert_eq!(e.next_ready(), Some(1));
    assert_eq!(e.next_ready(), None);
}

#[test]
fn full_ready_queue_takes_no_more() {
    let mut e = Executor::new();
    e.spawn(1);
    for _ in 1..100 {
        assert!(e.wake_task(1));
    }
    assert!(!e.wake_task(1));
    assert_eq!(e.next_ready(), Some(1));
    assert!(e.wake_task(1));
}

#[test]
fn simple_executor_polls_round() {
    let mut e = SimpleExecutor::new();
    e.spawn(1);
    e.spawn(2);
    assert_eq!(e.next(), Some(1));
    e.polled(1, false);
    assert_eq!(e.next(), Some(2));
    e.polled(2, true);
    assert_eq!(e.next(), Some(1));
    e.polled(1, true);
    assert_eq!(e.next(), None);
}

#[test]
fn scancodes_wake_the_task_and_keep_their_order() {
    let mut s = ScancodeStream::new();
    assert_eq!(s.add_scancode(1), Added::Queued);
    assert_eq!(s.poll_next(), Some(1));
    assert_eq!(s.poll_next(), None);
    assert_eq!(s.add_scancode(2), Added::Wake);
    assert_eq!(s.add_scancode(3), Added::Queued);
    assert_eq!((s.poll_next(), s.poll_next()), (Some(2), Some(3)));
    for i in 0..100 {
        assert_eq!(s.add_scancode(i), Added::Queued);
    }
    assert_eq!(s.add_scancode(100), Added::Dropped);
    assert_eq!(s.poll_next(), Some(0));
}

#[test]
fn scancodes_are_decoded() {
    let mut d = Decoder::new();
    assert!(matches!(d.add_byte(0x1E), Some(Key::Unicode('a'))));
    assert!(d.add_byte(0x9E).is_none());
    assert!(matches!(d.add_byte(0x1C), Some(Key::Unicode('\n'))));
    d.add_byte(0x2A);
    assert!(matches!(d.add_byte(0x1E), Some(Key::Unicode('A'))));
    d.add_byte(0xAA);
    assert_eq!(keyboard::print_keypresses(&mut d, 0x30), "b");
    assert_eq!(keyboard::print_keypresses(&mut d, 0x3B), "F1");
    assert_eq!(keyboard::print_keypresses(&mut d, 0xBB), "");
}
