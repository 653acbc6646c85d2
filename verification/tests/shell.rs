use aether::fat::volume::Fat;
use aether::fs;
use aether::fs::Vfs;
use aether::net::arp;
use aether::net::stack;
use aether::net::stack::Stack;
use aether::process::loader::UserImage;
use aether::process::scheduler;
use aether::process::scheduler::Scheduler;
use aether::shell;
use aether::shell::path::resolve_path;
use aether::shell::report;
use aether::shell::script;
use aether::shell::{Press, Reply};
use aether::task::keyboard::{Decoder, Key};

struct Session {
    cwd: String,
    vfs: Vfs<Fat>,
    net: Stack,
}

fn session() -> Session {
    let mut net = stack::init([0x52, 0x54, 0, 0x12, 0x34, 0x56]);
    stack::use_static_fallback(&mut net);
    Session { cwd: String::from("/"), vfs: Vfs::new(), net }
}

impl Session {
    fn reply(&mut self, line: &str) -> Reply {
        shell::dispatch(&mut self.cwd, &mut self.vfs, &self.net, 250, line)
    }

    fn text(&mut self, line: &str) -> String {
        match self.reply(line) {
            Reply::Text(t) => t,
            _ => panic!("no text for {}", line),
        }
    }
}

fn chars(s: &str) -> Vec<char> {
    s.chars().collect()
}

#[test]
fn files_are_handled_from_the_prompt() {
    let mut s = session();
    assert_eq!(s.text("mkdir docs"), "");
    assert_eq!(s.text("cd docs"), "");
    assert_eq!(s.text("pwd"), "/docs\n");
    assert_eq!(s.text("write a.txt hello  world"), "wrote 12 bytes to /docs/a.txt\n");
    let shown = s.text("cat a.txt");
    assert_eq!(shown.trim_end(), "hello  world");
    assert_eq!(s.text("cat /docs/../docs/./a.txt"), shown);
    assert!(s.text("ls").contains("a.txt"));
    assert_eq!(s.text("rm a.txt"), "");
    assert!(s.text("cat a.txt").contains("no such file or directory"));
    assert_eq!(s.text("cd .."), "");
    assert_eq!(s.text("pwd"), "/\n");
    assert!(s.text("cd nowhere").contains("nowhere"));
    assert_eq!(s.cwd, "/");
}

#[test]
fn binary_file_is_not_shown_as_text() {
    let mut s = session();
    fs::write(&mut s.vfs, "/bin", &[0xFF, 0xFE, 0x00]).unwrap();
    assert_eq!(s.text("cat /bin"), "<3 bytes of binary data>\n");
    fs::write(&mut s.vfs, "/utf", "h\u{e9}".as_bytes()).unwrap();
    assert_eq!(s.text("cat /utf"), "h\u{e9}\n");
}

#[test]
fn reports_are_printed() {
    let mut s = session();
    assert_eq!(s.text(""), "");
    assert_eq!(s.text("   "), "");
    assert_eq!(s.text("echo a  b"), "a  b\n");
    assert_eq!(s.text("help"), report::HELP);
    assert!(matches!(s.reply("clear"), Reply::Clear));
    assert_eq!(s.text("mem"), "kernel heap: start=0x444444440000, size=100 KiB\n");
    assert_eq!(s.text("ticks"), "timer ticks since boot: 250\n");
    assert_eq!(s.text("uptime"), "uptime: ~2 s (250 ticks @ ~100 Hz)\n");
    assert_eq!(s.text("dance now"), "unknown command: 'dance' (try 'help')\n");
}

#[test]
fn network_is_reported() {
    let mut s = session();
    assert_eq!(s.text("arp"), "(arp cache empty)\n");
    assert!(s.text("ifconfig").starts_with("eth0: inet 10.0.2.15  ether 52:54:00:12:34:56\n"));
    let mut cache = arp::ArpCache::new();
    arp::cache_insert(&mut cache, [10, 0, 2, 2], [0x52, 0x55, 0x0A, 0, 2, 2]);
    assert_eq!(
        report::cmd_arp(&cache),
        chars("  10.0.2.2  ->  52:55:0a:00:02:02\n")
    );
}

#[test]
fn network_commands_name_their_target() {
    let mut s = session();
    assert!(matches!(s.reply("ping 10.0.2.2"), Reply::Ping([10, 0, 2, 2], _)));
    assert!(matches!(s.reply("ping nonsense"), Reply::Text(_)));
    assert!(matches!(s.reply("nslookup example.com"), Reply::Lookup(h) if h == "example.com"));
    match s.reply("nc 10.0.2.2 80 hi there") {
        Reply::Netcat(ip, port, message, _) => {
            assert_eq!((ip, port, message.as_str()), ([10, 0, 2, 2], 80, "hi there\n"));
        }
        _ => panic!("netcat"),
    }
    match s.reply("nc 10.0.2.2 80") {
        Reply::Netcat(_, _, message, _) => assert_eq!(message, format!("{}\n", shell::NETCAT_DEFAULT)),
        _ => panic!("netcat"),
    }
    assert_eq!(s.text("nc 10.0.2.2 99999"), "usage: nc <a.b.c.d> <port> [text]\n");
    let longest = "x".repeat(254);
    assert!(matches!(s.reply(&format!("nc 1.2.3.4 5 {}", longest)), Reply::Netcat(..)));
    assert_eq!(
        s.text(&format!("nc 1.2.3.4 5 {}x", longest)),
        "nc: text too long (max 254 bytes)\n"
    );
}

#[test]
fn paths_are_resolved() {
    assert_eq!(resolve_path("/", ""), "/");
    assert_eq!(resolve_path("/a/b", ""), "/a/b");
    assert_eq!(resolve_path("/a", "b"), "/a/b");
    assert_eq!(resolve_path("/a", "/b/c/"), "/b/c");
    assert_eq!(resolve_path("/a/b", "../../../x"), "/x");
    assert_eq!(resolve_path("/", ".."), "/");
    assert_eq!(resolve_path("/a", "./b//c/."), "/a/b/c");
    let once = resolve_path("/q", "../a/./b/..");
    assert_eq!(resolve_path("/", &once), once);
}

#[test]
fn keys_edit_the_line() {
    let mut line = Vec::new();
    for c in "lss".chars() {
        assert!(matches!(
            shell::handle_key(&mut line, Some(Key::Unicode(c))),
            Press::Echo(e) if e == c
        ));
    }
    assert!(matches!(shell::handle_key(&mut line, Some(Key::Unicode('\u{8}'))), Press::Erase));
    assert_eq!(line, chars("ls"));
    assert!(matches!(shell::handle_key(&mut line, None), Press::Nothing));
    assert!(matches!(
        shell::handle_key(&mut line, Some(Key::Unicode('\n'))),
        Press::Submit(l) if l == "ls"
    ));
    assert!(line.is_empty());
    assert!(matches!(shell::handle_key(&mut line, Some(Key::Unicode('\u{8}'))), Press::Nothing));
}

#[test]
fn scancodes_become_a_command() {
    let mut d = Decoder::new();
    let mut line = Vec::new();
    for code in [0x26u8, 0xA6, 0x1F, 0x9F] {
        shell::run(&mut d, &mut line, code);
    }
    assert!(matches!(shell::run(&mut d, &mut line, 0x1C), Press::Submit(l) if l == "ls"));
}

#[test]
fn prompt_shows_the_directory() {
    assert_eq!(shell::prompt("/docs"), "aether:/docs> ");
}

#[test]
fn script_runs_in_the_shell() {
    let mut s = session();
    let sections = script::selftest([10, 0, 2, 15]);
    assert_eq!(sections[0].title, script::FILES_TITLE);
    for command in sections[0].commands.iter() {
        s.reply(command);
    }
    assert_eq!(s.cwd, "/");
    let mut line = Vec::new();
    let mut submitted = Vec::new();
    for c in script::keys() {
        if let Press::Submit(l) = shell::handle_key(&mut line, Some(Key::Unicode(c))) {
            submitted.push(l);
        }
    }
    assert_eq!(submitted.len(), 1);
    assert!(!s.text(&submitted[0]).starts_with("unknown command"));
}

#[test]
fn results_of_network_commands_are_reported() {
    let text = |t: Vec<char>| t.into_iter().collect::<String>();
    let ip = [10, 0, 2, 2];
    assert_eq!(text(report::ping_begun(ip)), "PING 10.0.2.2\n");
    assert_eq!(text(report::ping_report(ip, Some(3))), "  reply from 10.0.2.2: icmp_seq=3\n");
    assert_eq!(text(report::ping_report(ip, None)), "  no reply from 10.0.2.2\n");
    assert_eq!(
        text(report::lookup_report("host", Some([1, 2, 3, 4]))),
        "  host has address 1.2.3.4\n"
    );
    assert_eq!(text(report::lookup_report("host", None)), "  could not resolve host\n");
    assert_eq!(
        text(report::netcat_begun(ip, 80)),
        "nc: connecting to 10.0.2.2:80 from ring 3 ...\n"
    );
    assert_eq!(text(report::netcat_report(ip, 80, true)), "nc: connection closed\n");
    assert_eq!(
        text(report::netcat_report(ip, 80, false)),
        "nc: could not connect to 10.0.2.2:80\n"
    );
}

#[test]
fn printed_address_is_read_again() {
    for ip in [[0, 0, 0, 0], [10, 0, 2, 15], [255, 255, 255, 255]] {
        let printed: String = report::dotted_of(ip).into_iter().collect();
        assert_eq!(aether::net::parse_ipv4(&printed), Some(ip));
    }
}

#[test]
fn usage_is_explained() {
    let mut s = session();
    assert_eq!(s.text("ping"), "usage: ping <a.b.c.d>\n");
    assert_eq!(s.text("nslookup"), "usage: nslookup <hostname>\n");
    assert_eq!(s.text("write"), "usage: write <path> <text>\n");
    assert_eq!(s.text("cat /nothing"), "cat: /nothing: no such file or directory\n");
    assert_eq!(s.text("ls /nothing"), "ls: /nothing: no such file or directory\n");
    assert_eq!(s.text("rm /"), "rm: /: no such file or directory\n");
    assert_eq!(s.text("cd /nothing"), "cd: /nothing: not a directory\n");
    assert_eq!(s.text("ls"), "(empty)\n");
    s.text("mkdir d");
    assert_eq!(s.text("mkdir d"), "mkdir: /d: already exists\n");
    assert_eq!(s.text("ls"), "  d/\n");
}

#[test]
fn boot_is_summarised() {
    let mut s = Scheduler::new();
    let image = UserImage { l4: 0x1000, entry: 0x2000, user_stack_top: 0x3000 };
    let iframe = aether::interrupts::InterruptFrame {
        instruction_pointer: 0x2000,
        code_segment: 0x23,
        cpu_flags: 0x202,
        stack_pointer: 0x3000,
        stack_segment: 0x2B,
    };
    scheduler::spawn(&mut s, image, None, iframe);
    scheduler::run(&mut s, 0x9000);
    let mut tf = aether::interrupts::TrapFrame::new(iframe);
    scheduler::on_user_exit(&mut s, &mut tf, 0);
    assert_eq!(
        aether::boot::boot_continue(&s),
        "[sched] 1 processes ran with 0 yields and 0 preemptions (last on L4 0x1000, kernel L4 \
         0x9000); back on the kernel space\n[sched] wait: 0 parent(s) collected a child, last child \
         exit code = 18446744073709551615\n[sched] spawn: 0 child process(es) created at runtime via the spawn syscall\n"
    );
}
