//! The shell: command lines and what they do.
//!
//! Commands on files run at once. If they need a sector of the mounted volume that has not been
//! fetched, the reply says which; fetch it, restore the volume and run the command again.
//! Commands that wait for the network say what to wait for.

use vstd::prelude::*;

use crate::fs::{FileSystem, Vfs};
use crate::net::address;
use crate::net::address::parse_ipv4;
use crate::net::stack::{Stack, StackModel};
use crate::shell::command::{parse, Command, CommandView};
use crate::shell::report::number_of;
use crate::task::keyboard;
use crate::task::keyboard::{Decoder, Key, KeyView};
use crate::text;
use crate::text::{append_chars, append_str, chars_of, parse_number, split_first, string_of};

pub mod command;
pub mod files;
pub mod laws;
pub mod path;
pub mod report;
pub mod script;

verus! {

/// The longest message that `nc` sends: its length is one byte of the program that sends it.
pub const NETCAT_MAX_MSG: usize = 255;

/// The message that `nc` sends if none is given.
pub const NETCAT_DEFAULT: &'static str = "hello from ring 3";

/// What a command leads to.
pub enum Reply {
    /// Print this.
    Text(String),
    /// Clear the screen.
    Clear,
    /// Fetch this sector and run the command again.
    Load(u32),
    /// Print this, ping the address, and print [`report::ping_report`].
    Ping([u8; 4], String),
    /// Look up this name, and print [`report::lookup_report`].
    Lookup(String),
    /// Print this, run a program that sends the message to the address and port, and print
    /// [`report::netcat_report`].
    Netcat([u8; 4], u16, String, String),
}

/// What a command leads to, over sequences.
pub enum ReplyView {
    Text(Seq<char>),
    Clear,
    Load(u32),
    Ping(Seq<u8>, Seq<char>),
    Lookup(Seq<char>),
    Netcat(Seq<u8>, u16, Seq<char>, Seq<char>),
}

impl View for Reply {
    type V = ReplyView;

    open spec fn view(&self) -> ReplyView {
        match *self {
            Reply::Text(t) => ReplyView::Text(t@),
            Reply::Clear => ReplyView::Clear,
            Reply::Load(lba) => ReplyView::Load(lba),
            Reply::Ping(ip, t) => ReplyView::Ping(ip@, t@),
            Reply::Lookup(host) => ReplyView::Lookup(host@),
            Reply::Netcat(ip, port, msg, t) => ReplyView::Netcat(ip@, port, msg@, t@),
        }
    }
}

/// A reply that prints characters.
fn say(t: Vec<char>) -> (r: Reply)
    ensures
        r@ == ReplyView::Text(t@),
{
    Reply::Text(string_of(&t))
}

/// The bytes of an address that was spelled.
pub open spec fn as_bytes(ip: Seq<nat>) -> Seq<u8> {
    Seq::new(ip.len(), |i: int| ip[i] as u8)
}

/// The reply to `ping`.
pub open spec fn ping_reply(args: Seq<char>) -> ReplyView {
    match address::spelled(args) {
        Some(ip) => ReplyView::Ping(as_bytes(ip), report::ping_begun_text(as_bytes(ip))),
        None => ReplyView::Text("usage: ping <a.b.c.d>\n"@),
    }
}

/// Pings an address.
fn cmd_ping(args: &Vec<char>) -> (r: Reply)
    ensures
        r@ == ping_reply(args@),
{
    match parse_ipv4(string_of(args).as_str()) {
        Some(ip) => {
            assert(as_bytes(address::spelled(args@).unwrap()) =~= ip@);
            Reply::Ping(ip, string_of(&report::ping_begun(ip)))
        },
        None => say(chars_of("usage: ping <a.b.c.d>\n")),
    }
}

/// The reply to `nslookup`.
pub open spec fn nslookup_reply(args: Seq<char>) -> ReplyView {
    if text::trimmed(args).len() == 0 {
        ReplyView::Text("usage: nslookup <hostname>\n"@)
    } else {
        ReplyView::Lookup(text::trimmed(args))
    }
}

/// Looks up a name.
fn cmd_nslookup(args: &Vec<char>) -> (r: Reply)
    ensures
        r@ == nslookup_reply(args@),
{
    let host: Vec<char> = text::trim(args);
    if host.len() == 0 {
        say(chars_of("usage: nslookup <hostname>\n"))
    } else {
        Reply::Lookup(string_of(&host))
    }
}

/// The message that `nc` sends: one line.
pub open spec fn netcat_message(given: Option<Seq<char>>) -> Seq<char> {
    match given {
        Some(t) => t + "\n"@,
        None => NETCAT_DEFAULT@ + "\n"@,
    }
}

/// What the second and third part of the arguments of `nc` are.
pub open spec fn netcat_rest(rest: Option<Seq<char>>) -> (Option<nat>, Option<Seq<char>>) {
    match rest {
        Some(r) => (text::parsed(text::first_word(r).0, 65535), text::first_word(r).1),
        None => (None, None),
    }
}

/// The reply to `nc`: an address, a port, and a message of some length, which may be left out.
pub open spec fn nc_reply(args: Seq<char>) -> ReplyView {
    let (first, rest) = text::first_word(args);
    let (port, given) = netcat_rest(rest);
    match (address::spelled(first), port) {
        (Some(ip), Some(port)) => {
            let msg = netcat_message(given);
            if vstd::utf8::encode_utf8(msg).len() > NETCAT_MAX_MSG {
                ReplyView::Text(
                    "nc: text too long (max "@ + report::number((NETCAT_MAX_MSG - 1) as nat)
                        + " bytes)\n"@,
                )
            } else {
                ReplyView::Netcat(
                    as_bytes(ip),
                    port as u16,
                    msg,
                    report::netcat_begun_text(as_bytes(ip), port as u16),
                )
            }
        },
        _ => ReplyView::Text("usage: nc <a.b.c.d> <port> [text]\n"@),
    }
}

/// Sends a message and prints the reply, from ring 3.
fn cmd_nc(args: &Vec<char>) -> (r: Reply)
    ensures
        r@ == nc_reply(args@),
{
    let (first, rest): (Vec<char>, Option<Vec<char>>) = split_first(args);
    let ip: Option<[u8; 4]> = parse_ipv4(string_of(&first).as_str());
    let (port, given): (Option<u32>, Option<Vec<char>>) = match rest {
        Some(r) => {
            let (second, third): (Vec<char>, Option<Vec<char>>) = split_first(&r);
            (parse_number(&second, 65535), third)
        },
        None => (None, None),
    };
    let (ip, port): ([u8; 4], u16) = match (ip, port) {
        (Some(ip), Some(port)) => (ip, port as u16),
        _ => {
            return say(chars_of("usage: nc <a.b.c.d> <port> [text]\n"));
        },
    };
    let mut msg: Vec<char> = match given {
        Some(t) => t,
        None => chars_of(NETCAT_DEFAULT),
    };
    append_str(&mut msg, "\n");
    let msg: String = string_of(&msg);
    assert(as_bytes(address::spelled(first@).unwrap()) =~= ip@);
    if msg.as_str().as_bytes().len() > NETCAT_MAX_MSG {
        let mut t: Vec<char> = chars_of("nc: text too long (max ");
        append_chars(&mut t, &number_of(NETCAT_MAX_MSG as u64 - 1));
        append_str(&mut t, " bytes)\n");
        return say(t);
    }
    let begun: String = string_of(&report::netcat_begun(ip, port));
    Reply::Netcat(ip, port, msg, begun)
}

/// What a command does.
pub open spec fn dispatched<F: FileSystem>(
    c: CommandView,
    cwd: Seq<char>,
    before: &Vfs<F>,
    net: StackModel,
    ticks: u64,
    cwd_after: Seq<char>,
    after: &Vfs<F>,
    reply: ReplyView,
) -> bool {
    let still = cwd_after == cwd && *after == *before;
    match c {
        CommandView::Nothing => still && reply == ReplyView::Text(Seq::empty()),
        CommandView::Help => still && reply == ReplyView::Text(report::HELP@),
        CommandView::Echo(args) => still && reply == ReplyView::Text(args + "\n"@),
        CommandView::Clear => still && reply == ReplyView::Clear,
        CommandView::Ticks => still && reply == ReplyView::Text(report::ticks_text(ticks)),
        CommandView::Uptime => still && reply == ReplyView::Text(report::uptime_text(ticks)),
        CommandView::Mem => still && reply == ReplyView::Text(report::mem_text()),
        CommandView::Pwd => still && reply == ReplyView::Text(cwd + "\n"@),
        CommandView::Ls(args) => still && files::lists(before, files::ls_path(cwd, args), reply),
        CommandView::Cat(args) => {
            let p = path::resolved(cwd, args);
            still && reply == files::cat_reply(p, files::reading(before, p))
        },
        CommandView::Write(args) => cwd_after == cwd && files::writes(
            cwd,
            before,
            args,
            after,
            reply,
        ),
        CommandView::Mkdir(args) => cwd_after == cwd && files::makes(
            path::resolved(cwd, args),
            before,
            after,
            reply,
        ),
        CommandView::Rm(args) => cwd_after == cwd && files::removes(
            path::resolved(cwd, args),
            before,
            after,
            reply,
        ),
        CommandView::Cd(args) => *after == *before && (cwd_after, reply) == files::goes(
            cwd,
            before,
            args,
        ),
        CommandView::Ifconfig => still && reply == ReplyView::Text(report::ifconfig_text(net)),
        CommandView::Arp => still && match reply {
            ReplyView::Text(t) => report::shows_cache(net.arp, t),
            _ => false,
        },
        CommandView::Ping(args) => still && reply == ping_reply(args),
        CommandView::Nslookup(args) => still && reply == nslookup_reply(args),
        CommandView::Nc(args) => still && reply == nc_reply(args),
        CommandView::Unknown(name) => still && reply == ReplyView::Text(
            report::unknown_text(name),
        ),
    }
}

/// Runs a command line in the working directory `cwd`. `ticks` are those of the timer.
pub fn dispatch<F: FileSystem>(
    cwd: &mut String,
    vfs: &mut Vfs<F>,
    net: &Stack,
    ticks: u64,
    line: &str,
) -> (reply: Reply)
    requires
        old(vfs).ok(),
        old(vfs).mounted matches Some(f) ==> f.writable(),
    ensures
        final(vfs).ok(),
        dispatched(
            command::command_of(line@),
            old(cwd)@,
            old(vfs),
            net@,
            ticks,
            final(cwd)@,
            final(vfs),
            reply@,
        ),
{
    match parse(line) {
        Command::Nothing => {
            let t: Vec<char> = Vec::new();
            assert(t@ =~= Seq::empty());
            say(t)
        },
        Command::Help => say(chars_of(report::HELP)),
        Command::Echo(args) => {
            let mut t: Vec<char> = args;
            append_str(&mut t, "\n");
            say(t)
        },
        Command::Clear => Reply::Clear,
        Command::Ticks => say(report::ticks_report(ticks)),
        Command::Uptime => say(report::uptime_report(ticks)),
        Command::Mem => say(report::mem_report()),
        Command::Pwd => {
            let mut t: Vec<char> = chars_of(cwd.as_str());
            append_str(&mut t, "\n");
            say(t)
        },
        Command::Ls(args) => files::cmd_ls(cwd.as_str(), vfs, &args),
        Command::Cat(args) => files::cmd_cat(cwd.as_str(), vfs, &args),
        Command::Write(args) => files::cmd_write(cwd.as_str(), vfs, &args),
        Command::Mkdir(args) => files::cmd_mkdir(cwd.as_str(), vfs, &args),
        Command::Rm(args) => files::cmd_rm(cwd.as_str(), vfs, &args),
        Command::Cd(args) => files::cmd_cd(cwd, vfs, &args),
        Command::Ifconfig => say(report::cmd_ifconfig(net)),
        Command::Arp => say(report::cmd_arp(net.arp())),
        Command::Ping(args) => cmd_ping(&args),
        Command::Nslookup(args) => cmd_nslookup(&args),
        Command::Nc(args) => cmd_nc(&args),
        Command::Unknown(name) => say(report::unknown_report(&name)),
    }
}

/// The prompt.
pub open spec fn prompt_text(cwd: Seq<char>) -> Seq<char> {
    "aether:"@ + cwd + "> "@
}

/// The prompt, which shows the working directory.
pub fn prompt(cwd: &str) -> (t: String)
    ensures
        t@ == prompt_text(cwd@),
{
    let mut t: Vec<char> = chars_of("aether:");
    append_str(&mut t, cwd);
    append_str(&mut t, "> ");
    string_of(&t)
}

/// What a key leads to.
pub enum Press {
    /// The line is complete: run it, and show a new prompt.
    Submit(String),
    /// Erase the last character.
    Erase,
    /// Show this character.
    Echo(char),
    /// Nothing.
    Nothing,
}

/// What a key leads to, over sequences.
pub enum PressView {
    Submit(Seq<char>),
    Erase,
    Echo(char),
    Nothing,
}

impl View for Press {
    type V = PressView;

    open spec fn view(&self) -> PressView {
        match *self {
            Press::Submit(line) => PressView::Submit(line@),
            Press::Erase => PressView::Erase,
            Press::Echo(c) => PressView::Echo(c),
            Press::Nothing => PressView::Nothing,
        }
    }
}

/// What a key does to the line: Enter completes it, Backspace and Delete take its last character,
/// and any other character is added.
pub open spec fn pressed(line: Seq<char>, key: Option<KeyView>) -> (Seq<char>, PressView) {
    match key {
        Some(KeyView::Unicode(c)) => if c == '\n' {
            (Seq::empty(), PressView::Submit(line))
        } else if c == '\u{8}' || c == '\u{7f}' {
            if line.len() > 0 {
                (line.drop_last(), PressView::Erase)
            } else {
                (line, PressView::Nothing)
            }
        } else {
            (line.push(c), PressView::Echo(c))
        },
        _ => (line, PressView::Nothing),
    }
}

/// Takes a key that was pressed.
pub fn handle_key(line: &mut Vec<char>, key: Option<Key>) -> (press: Press)
    ensures
        (final(line)@, press@) == pressed(old(line)@, keyboard::key_view(key)),
{
    match key {
        Some(Key::Unicode(c)) => {
            if c == '\n' {
                let whole: String = string_of(line);
                line.clear();
                assert(line@ =~= Seq::empty());
                Press::Submit(whole)
            } else if c == '\u{8}' || c == '\u{7f}' {
                if line.len() > 0 {
                    let _last: Option<char> = line.pop();
                    Press::Erase
                } else {
                    Press::Nothing
                }
            } else {
                line.push(c);
                Press::Echo(c)
            }
        },
        _ => Press::Nothing,
    }
}

/// What is printed when the shell starts.
pub const GREETING: &'static str = "
Interactive shell ready - type a command (try 'help'):
";

/// Takes a scancode: what the key leads to that it completes.
pub fn run(d: &mut Decoder, line: &mut Vec<char>, scancode: u8) -> (press: Press)
    ensures
        final(d)@ == keyboard::decoded(old(d)@, scancode).0,
        (final(line)@, press@) == pressed(
            old(line)@,
            keyboard::decoded(old(d)@, scancode).1,
        ),
{
    let key: Option<Key> = d.add_byte(scancode);
    handle_key(line, key)
}

/// The line after the first `n` of these characters have been typed, while it is not complete.
pub open spec fn typed(line: Seq<char>, keys: Seq<char>, n: int) -> Seq<char>
    decreases n,
{
    if n <= 0 {
        line
    } else {
        pressed(typed(line, keys, n - 1), Some(KeyView::Unicode(keys[n - 1]))).0
    }
}

/// A character that is typed and erased leaves no trace.
pub proof fn erasing_undoes_typing(line: Seq<char>, c: char, erase: char)
    requires
        c != '\n' && c != '\u{8}' && c != '\u{7f}',
        erase == '\u{8}' || erase == '\u{7f}',
    ensures
        pressed(
            pressed(line, Some(KeyView::Unicode(c))).0,
            Some(KeyView::Unicode(erase)),
        ) == (line, PressView::Erase),
{
    assert(line.push(c).drop_last() =~= line);
}

/// The prompt is never erased: on an empty line there is nothing to erase.
pub proof fn prompt_is_kept(erase: char)
    requires
        erase == '\u{8}' || erase == '\u{7f}',
    ensures
        pressed(Seq::empty(), Some(KeyView::Unicode(erase))) == (
            Seq::<char>::empty(),
            PressView::Nothing,
        ),
{
}

/// Characters that are typed one by one, none of them an editing key, make up the line that
/// Enter completes.
pub proof fn typed_line_is_submitted(keys: Seq<char>)
    requires
        forall|i: int|
            0 <= i < keys.len() ==> (#[trigger] keys[i]) != '\n' && keys[i] != '\u{8}' && keys[i]
                != '\u{7f}',
    ensures
        typed(Seq::empty(), keys, keys.len() as int) == keys,
        pressed(
            typed(Seq::empty(), keys, keys.len() as int),
            Some(KeyView::Unicode('\n')),
        ) == (Seq::<char>::empty(), PressView::Submit(keys)),
{
    lemma_typed(keys, keys.len() as int);
    assert(keys.take(keys.len() as int) =~= keys);
}

/// The first `n` characters make up the line.
proof fn lemma_typed(keys: Seq<char>, n: int)
    requires
        0 <= n <= keys.len(),
        forall|i: int|
            0 <= i < keys.len() ==> (#[trigger] keys[i]) != '\n' && keys[i] != '\u{8}' && keys[i]
                != '\u{7f}',
    ensures
        typed(Seq::empty(), keys, n) == keys.take(n),
    decreases n,
{
    if n > 0 {
        lemma_typed(keys, n - 1);
        assert(keys.take(n - 1).push(keys[n - 1]) =~= keys.take(n));
    } else {
        assert(keys.take(0) =~= Seq::empty());
    }
}

/// Only `cd` changes the working directory, and only to a directory that exists.
pub proof fn only_cd_moves<F: FileSystem>(
    c: CommandView,
    cwd: Seq<char>,
    before: &Vfs<F>,
    net: StackModel,
    ticks: u64,
    cwd_after: Seq<char>,
    after: &Vfs<F>,
    reply: ReplyView,
)
    requires
        dispatched(c, cwd, before, net, ticks, cwd_after, after, reply),
        cwd_after != cwd,
    ensures
        c is Cd,
        files::names_dir(before, cwd_after) matches Ok(yes) && yes,
{
}

} // verus!
