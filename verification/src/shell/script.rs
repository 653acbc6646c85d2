//! The self-test of the shell: command lines and keys that are fed to it at boot.

use vstd::prelude::*;

use crate::shell;
use crate::shell::report;
use crate::shell::report::dotted_of;
use crate::task::keyboard::KeyView;
use crate::text::{append_chars, append_str, chars_of, string_of};

verus! {

/// The heading of the commands on the in-memory filesystem.
pub const FILES_TITLE: &'static str = "[shell selftest] commands + in-memory file system:";

/// The heading of the commands on the mounted volume.
pub const DISK_TITLE: &'static str = "[shell selftest] read/write/remove on the mounted FAT disk at /mnt:";

/// The heading of the commands on a directory of the mounted volume.
pub const SUBDIR_TITLE: &'static str = "[shell selftest] subdirectory traversal on the FAT disk under /mnt/SUB:";

/// The heading of the commands on writing to a directory of the mounted volume.
pub const SUBDIR_WRITE_TITLE: &'static str = "[shell selftest] write + remove inside the FAT subdirectory /mnt/SUB:";

/// The heading of the commands on making and removing a directory of the mounted volume.
pub const RMDIR_TITLE: &'static str = "[shell selftest] mkdir + rmdir on the FAT disk under /mnt:";

/// The heading of the commands on the network.
pub const NETWORK_TITLE: &'static str = "[shell selftest] network stack at /net (18d): ifconfig / arp / ping:";

/// The heading of the command that sends a message to ourselves.
pub const NETCAT_TITLE: &'static str = "[shell selftest] ring 3 netcat over the loopback echo (24d-2):";

/// The heading of the keys.
pub const KEYS_TITLE: &'static str = "[shell selftest] simulating typed input with a Backspace:";

/// What is printed at the end.
pub const DONE: &'static str = "[shell selftest] done";

/// Commands under a heading.
pub struct Section {
    pub title: &'static str,
    pub commands: Vec<String>,
}

/// Commands under a heading, over sequences.
#[verifier::ext_equal]
pub struct SectionView {
    pub title: Seq<char>,
    pub commands: Seq<Seq<char>>,
}

impl View for Section {
    type V = SectionView;

    open spec fn view(&self) -> SectionView {
        SectionView { title: self.title@, commands: strings(self.commands@) }
    }
}

/// Strings, over sequences.
pub open spec fn strings(v: Seq<String>) -> Seq<Seq<char>> {
    Seq::new(v.len(), |i: int| v[i]@)
}

/// String literals, over sequences.
pub open spec fn literals(v: Seq<&'static str>) -> Seq<Seq<char>> {
    Seq::new(v.len(), |i: int| v[i]@)
}

/// Sections, over sequences.
pub open spec fn sections(v: Seq<Section>) -> Seq<SectionView> {
    Seq::new(v.len(), |i: int| v[i]@)
}

/// Copies literals to strings.
fn copied(v: &Vec<&'static str>) -> (out: Vec<String>)
    ensures
        strings(out@) == literals(v@),
{
    let mut out: Vec<String> = Vec::new();
    let mut i: usize = 0;
    while i < v.len()
        invariant
            i <= v@.len(),
            strings(out@) == literals(v@).take(i as int),
        decreases v@.len() - i,
    {
        let ghost before = strings(out@);
        let s: String = string_of(&chars_of(v[i]));
        out.push(s);
        assert(strings(out@) =~= before.push(v@[i as int]@));
        assert(literals(v@).take(i + 1) =~= literals(v@).take(i as int).push(v@[i as int]@));
        i = i + 1;
    }
    assert(literals(v@).take(i as int) =~= literals(v@));
    out
}

/// The commands on the in-memory filesystem.
pub open spec fn files_script() -> Seq<Seq<char>> {
    seq![
        "help"@,
        "mkdir /docs"@,
        "write /docs/hello.txt hi from aether"@,
        "write /readme top-level readme"@,
        "mkdir /docs/sub"@,
        "ls /"@,
        "ls /docs"@,
        "cat /docs/hello.txt"@,
        "cd /docs"@,
        "pwd"@,
        "ls"@,
        "cat ../readme"@,
        "rm /docs/hello.txt"@,
        "ls"@,
        "cd /"@,
        "bogus"@,
    ]
}

/// The commands on the in-memory filesystem.
fn files_script_lines() -> (v: Vec<String>)
    ensures
        strings(v@) == files_script(),
{
    let v: Vec<&'static str> = vec![
        "help",
        "mkdir /docs",
        "write /docs/hello.txt hi from aether",
        "write /readme top-level readme",
        "mkdir /docs/sub",
        "ls /",
        "ls /docs",
        "cat /docs/hello.txt",
        "cd /docs",
        "pwd",
        "ls",
        "cat ../readme",
        "rm /docs/hello.txt",
        "ls",
        "cd /",
        "bogus",
    ];
    assert(literals(v@) =~= files_script());
    copied(&v)
}

/// The commands on the mounted volume.
pub open spec fn disk_script() -> Seq<Seq<char>> {
    seq![
        "ls /mnt"@,
        "cat /mnt/HELLO.TXT"@,
        "write /mnt/NOTE.TXT shell wrote this to disk"@,
        "cat /mnt/NOTE.TXT"@,
        "rm /mnt/NOTE.TXT"@,
        "ls /mnt"@,
    ]
}

/// The commands on the mounted volume.
fn disk_script_lines() -> (v: Vec<String>)
    ensures
        strings(v@) == disk_script(),
{
    let v: Vec<&'static str> = vec![
        "ls /mnt",
        "cat /mnt/HELLO.TXT",
        "write /mnt/NOTE.TXT shell wrote this to disk",
        "cat /mnt/NOTE.TXT",
        "rm /mnt/NOTE.TXT",
        "ls /mnt",
    ];
    assert(literals(v@) =~= disk_script());
    copied(&v)
}

/// The commands on a directory of the mounted volume.
pub open spec fn subdir_script() -> Seq<Seq<char>> {
    seq![
        "ls /mnt/SUB"@,
        "cat /mnt/SUB/NESTED.TXT"@,
        "cd /mnt/SUB"@,
        "pwd"@,
        "ls"@,
        "cat NESTED.TXT"@,
        "cd /"@,
    ]
}

/// The commands on a directory of the mounted volume.
fn subdir_script_lines() -> (v: Vec<String>)
    ensures
        strings(v@) == subdir_script(),
{
    let v: Vec<&'static str> = vec![
        "ls /mnt/SUB",
        "cat /mnt/SUB/NESTED.TXT",
        "cd /mnt/SUB",
        "pwd",
        "ls",
        "cat NESTED.TXT",
        "cd /",
    ];
    assert(literals(v@) =~= subdir_script());
    copied(&v)
}

/// The commands on writing to a directory of the mounted volume.
pub open spec fn subdir_write_script() -> Seq<Seq<char>> {
    seq![
        "write /mnt/SUB/HELLO2.TXT hi from inside a subdir"@,
        "ls /mnt/SUB"@,
        "cat /mnt/SUB/HELLO2.TXT"@,
        "rm /mnt/SUB/HELLO2.TXT"@,
        "ls /mnt/SUB"@,
    ]
}

/// The commands on writing to a directory of the mounted volume.
fn subdir_write_script_lines() -> (v: Vec<String>)
    ensures
        strings(v@) == subdir_write_script(),
{
    let v: Vec<&'static str> = vec![
        "write /mnt/SUB/HELLO2.TXT hi from inside a subdir",
        "ls /mnt/SUB",
        "cat /mnt/SUB/HELLO2.TXT",
        "rm /mnt/SUB/HELLO2.TXT",
        "ls /mnt/SUB",
    ];
    assert(literals(v@) =~= subdir_write_script());
    copied(&v)
}

/// The commands on making and removing a directory of the mounted volume.
pub open spec fn rmdir_script() -> Seq<Seq<char>> {
    seq![
        "mkdir /mnt/TMPDIR"@,
        "ls /mnt"@,
        "rm /mnt/TMPDIR"@,
        "ls /mnt"@,
    ]
}

/// The commands on making and removing a directory of the mounted volume.
fn rmdir_script_lines() -> (v: Vec<String>)
    ensures
        strings(v@) == rmdir_script(),
{
    let v: Vec<&'static str> = vec![
        "mkdir /mnt/TMPDIR",
        "ls /mnt",
        "rm /mnt/TMPDIR",
        "ls /mnt",
    ];
    assert(literals(v@) =~= rmdir_script());
    copied(&v)
}

/// The commands on the network.
pub open spec fn network_script() -> Seq<Seq<char>> {
    seq![
        "ifconfig"@,
        "arp"@,
        "ping 10.0.2.2"@,
        "ping 10.0.2.3"@,
    ]
}

/// The commands on the network.
fn network_script_lines() -> (v: Vec<String>)
    ensures
        strings(v@) == network_script(),
{
    let v: Vec<&'static str> = vec![
        "ifconfig",
        "arp",
        "ping 10.0.2.2",
        "ping 10.0.2.3",
    ];
    assert(literals(v@) =~= network_script());
    copied(&v)
}

/// The command that sends a message to our own address, where the echo service answers.
pub open spec fn netcat_command(ip: Seq<u8>) -> Seq<char> {
    "nc "@ + report::dotted(ip) + " 7 hello from ring 3 netcat"@
}

/// The command that sends a message to our own address.
fn netcat_line(ip: [u8; 4]) -> (line: String)
    ensures
        line@ == netcat_command(ip@),
{
    let mut t: Vec<char> = chars_of("nc ");
    append_chars(&mut t, &dotted_of(ip));
    append_str(&mut t, " 7 hello from ring 3 netcat");
    string_of(&t)
}

/// The commands of the self-test, in order, for the address `ip`.
pub open spec fn script(ip: Seq<u8>) -> Seq<SectionView> {
    seq![
        SectionView { title: FILES_TITLE@, commands: files_script() },
        SectionView { title: DISK_TITLE@, commands: disk_script() },
        SectionView { title: SUBDIR_TITLE@, commands: subdir_script() },
        SectionView { title: SUBDIR_WRITE_TITLE@, commands: subdir_write_script() },
        SectionView { title: RMDIR_TITLE@, commands: rmdir_script() },
        SectionView { title: NETWORK_TITLE@, commands: network_script() },
        SectionView { title: NETCAT_TITLE@, commands: seq![netcat_command(ip)] },
    ]
}

/// The commands of the self-test, in order. Show each behind the prompt and run it; then feed
/// [`keys`] to the line.
pub fn selftest(ip: [u8; 4]) -> (v: Vec<Section>)
    ensures
        sections(v@) == script(ip@),
{
    let mut netcat: Vec<String> = Vec::new();
    netcat.push(netcat_line(ip));
    assert(strings(netcat@) =~= seq![netcat_command(ip@)]);
    let v: Vec<Section> = vec![
        Section { title: FILES_TITLE, commands: files_script_lines() },
        Section { title: DISK_TITLE, commands: disk_script_lines() },
        Section { title: SUBDIR_TITLE, commands: subdir_script_lines() },
        Section { title: SUBDIR_WRITE_TITLE, commands: subdir_write_script_lines() },
        Section { title: RMDIR_TITLE, commands: rmdir_script_lines() },
        Section { title: NETWORK_TITLE, commands: network_script_lines() },
        Section { title: NETCAT_TITLE, commands: netcat },
    ];
    assert(sections(v@) =~= script(ip@));
    v
}

/// The keys of the self-test: a command with a slip that is erased.
pub open spec fn key_script() -> Seq<char> {
    seq!['e', 'c', 'h', 'X', '\u{8}', 'o', ' ', 'h', 'i', '\n']
}

/// The keys of the self-test.
pub fn keys() -> (v: Vec<char>)
    ensures
        v@ == key_script(),
{
    let v: Vec<char> = vec!['e', 'c', 'h', 'X', '\u{8}', 'o', ' ', 'h', 'i', '\n'];
    assert(v@ =~= key_script());
    v
}

/// The keys complete the line `echo hi`: the slip leaves no trace.
pub proof fn keys_spell_the_command()
    ensures
        shell::pressed(
            shell::typed(Seq::empty(), key_script(), 9),
            Some(KeyView::Unicode(key_script()[9])),
        ) == (Seq::<char>::empty(), shell::PressView::Submit("echo hi"@)),
{
    reveal_strlit("echo hi");
    reveal_with_fuel(shell::typed, 10);
    let e = Seq::<char>::empty();
    let k = key_script();
    assert(shell::typed(e, k, 4) =~= seq!['e', 'c', 'h', 'X']);
    assert(shell::typed(e, k, 5) =~= seq!['e', 'c', 'h']);
    assert(shell::typed(e, k, 9) =~= "echo hi"@);
}

/// The script leaves the working directory as it was: it goes back to the root after it has left
/// it.
pub proof fn script_returns_to_the_root(cwd: Seq<char>)
    ensures
        crate::shell::path::resolved(cwd, "/"@) == "/"@,
{
    reveal_strlit("/");
    reveal_with_fuel(crate::text::split, 3);
    reveal_with_fuel(crate::shell::path::walk, 4);
    let s = "/"@;
    assert(s =~= seq!['/']);
    assert(s.drop_last() =~= Seq::<char>::empty());
    let parts = crate::text::split(s, '/');
    assert(parts =~= seq![Seq::<char>::empty(), Seq::<char>::empty()]);
    assert(crate::shell::path::stays(parts[0]) && crate::shell::path::stays(parts[1]));
}

} // verus!
