//! Command lines.

use vstd::prelude::*;

use crate::text;
use crate::text::{chars_of, same_chars, split_first, trim};

verus! {

/// A command, with its arguments.
pub enum Command {
    /// A blank line.
    Nothing,
    Help,
    Echo(Vec<char>),
    Clear,
    Ticks,
    Uptime,
    Mem,
    Pwd,
    Ls(Vec<char>),
    Cat(Vec<char>),
    Write(Vec<char>),
    Mkdir(Vec<char>),
    Rm(Vec<char>),
    Cd(Vec<char>),
    Ifconfig,
    Arp,
    Ping(Vec<char>),
    Nslookup(Vec<char>),
    Nc(Vec<char>),
    /// No command has this name.
    Unknown(Vec<char>),
}

/// A command, over sequences.
pub enum CommandView {
    Nothing,
    Help,
    Echo(Seq<char>),
    Clear,
    Ticks,
    Uptime,
    Mem,
    Pwd,
    Ls(Seq<char>),
    Cat(Seq<char>),
    Write(Seq<char>),
    Mkdir(Seq<char>),
    Rm(Seq<char>),
    Cd(Seq<char>),
    Ifconfig,
    Arp,
    Ping(Seq<char>),
    Nslookup(Seq<char>),
    Nc(Seq<char>),
    Unknown(Seq<char>),
}

impl View for Command {
    type V = CommandView;

    open spec fn view(&self) -> CommandView {
        match *self {
            Command::Nothing => CommandView::Nothing,
            Command::Help => CommandView::Help,
            Command::Echo(a) => CommandView::Echo(a@),
            Command::Clear => CommandView::Clear,
            Command::Ticks => CommandView::Ticks,
            Command::Uptime => CommandView::Uptime,
            Command::Mem => CommandView::Mem,
            Command::Pwd => CommandView::Pwd,
            Command::Ls(a) => CommandView::Ls(a@),
            Command::Cat(a) => CommandView::Cat(a@),
            Command::Write(a) => CommandView::Write(a@),
            Command::Mkdir(a) => CommandView::Mkdir(a@),
            Command::Rm(a) => CommandView::Rm(a@),
            Command::Cd(a) => CommandView::Cd(a@),
            Command::Ifconfig => CommandView::Ifconfig,
            Command::Arp => CommandView::Arp,
            Command::Ping(a) => CommandView::Ping(a@),
            Command::Nslookup(a) => CommandView::Nslookup(a@),
            Command::Nc(a) => CommandView::Nc(a@),
            Command::Unknown(a) => CommandView::Unknown(a@),
        }
    }
}

/// The command with this name.
pub open spec fn named(name: Seq<char>, args: Seq<char>) -> CommandView {
    if name == "help"@ {
        CommandView::Help
    } else if name == "echo"@ {
        CommandView::Echo(args)
    } else if name == "clear"@ {
        CommandView::Clear
    } else if name == "ticks"@ {
        CommandView::Ticks
    } else if name == "uptime"@ {
        CommandView::Uptime
    } else if name == "mem"@ {
        CommandView::Mem
    } else if name == "pwd"@ {
        CommandView::Pwd
    } else if name == "ls"@ {
        CommandView::Ls(args)
    } else if name == "cat"@ {
        CommandView::Cat(args)
    } else if name == "write"@ {
        CommandView::Write(args)
    } else if name == "mkdir"@ {
        CommandView::Mkdir(args)
    } else if name == "rm"@ {
        CommandView::Rm(args)
    } else if name == "cd"@ {
        CommandView::Cd(args)
    } else if name == "ifconfig"@ {
        CommandView::Ifconfig
    } else if name == "arp"@ {
        CommandView::Arp
    } else if name == "ping"@ {
        CommandView::Ping(args)
    } else if name == "nslookup"@ {
        CommandView::Nslookup(args)
    } else if name == "nc"@ {
        CommandView::Nc(args)
    } else {
        CommandView::Unknown(name)
    }
}

/// What follows the first word, or nothing.
pub open spec fn rest_of(rest: Option<Seq<char>>) -> Seq<char> {
    match rest {
        Some(r) => r,
        None => Seq::empty(),
    }
}

/// The command that a line holds: its first word names it, and what follows, without white space
/// around it, are its arguments.
pub open spec fn command_of(line: Seq<char>) -> CommandView {
    let t = text::trimmed(line);
    if t.len() == 0 {
        CommandView::Nothing
    } else {
        let (name, rest) = text::first_word(t);
        named(name, text::trimmed(rest_of(rest)))
    }
}

/// Whether a word is this one.
fn is(word: &Vec<char>, name: &str) -> (yes: bool)
    ensures
        yes == (word@ == name@),
{
    same_chars(word, &chars_of(name))
}

/// What follows the first word, or nothing.
pub fn rest_or_nothing(rest: Option<Vec<char>>) -> (r: Vec<char>)
    ensures
        r@ == rest_of(text::opt_view(rest)),
{
    match rest {
        Some(r) => r,
        None => {
            let r: Vec<char> = Vec::new();
            assert(r@ =~= Seq::empty());
            r
        },
    }
}

/// Reads a command line.
pub fn parse(line: &str) -> (c: Command)
    ensures
        c@ == command_of(line@),
{
    let t: Vec<char> = trim(&chars_of(line));
    if t.len() == 0 {
        return Command::Nothing;
    }
    let (name, rest): (Vec<char>, Option<Vec<char>>) = split_first(&t);
    let args: Vec<char> = trim(&rest_or_nothing(rest));
    if is(&name, "help") {
        Command::Help
    } else if is(&name, "echo") {
        Command::Echo(args)
    } else if is(&name, "clear") {
        Command::Clear
    } else if is(&name, "ticks") {
        Command::Ticks
    } else if is(&name, "uptime") {
        Command::Uptime
    } else if is(&name, "mem") {
        Command::Mem
    } else if is(&name, "pwd") {
        Command::Pwd
    } else if is(&name, "ls") {
        Command::Ls(args)
    } else if is(&name, "cat") {
        Command::Cat(args)
    } else if is(&name, "write") {
        Command::Write(args)
    } else if is(&name, "mkdir") {
        Command::Mkdir(args)
    } else if is(&name, "rm") {
        Command::Rm(args)
    } else if is(&name, "cd") {
        Command::Cd(args)
    } else if is(&name, "ifconfig") {
        Command::Ifconfig
    } else if is(&name, "arp") {
        Command::Arp
    } else if is(&name, "ping") {
        Command::Ping(args)
    } else if is(&name, "nslookup") {
        Command::Nslookup(args)
    } else if is(&name, "nc") {
        Command::Nc(args)
    } else {
        Command::Unknown(name)
    }
}

/// Whether all of `s` is white space.
pub open spec fn is_blank(s: Seq<char>) -> bool {
    forall|i: int| 0 <= i < s.len() ==> text::is_white(#[trigger] s[i])
}

/// A line is taken apart at its first white space: the name before it, and the arguments behind
/// it without the white space around them. Around the whole line white space does not matter.
pub proof fn line_is_name_and_arguments(
    before: Seq<char>,
    name: Seq<char>,
    gap: Seq<char>,
    args: Seq<char>,
    after: Seq<char>,
)
    requires
        is_blank(before),
        is_blank(gap),
        is_blank(after),
        name.len() > 0,
        forall|i: int| 0 <= i < name.len() ==> !text::is_white(#[trigger] name[i]),
        args.len() > 0 ==> gap.len() > 0 && !text::is_white(args[0]) && !text::is_white(
            args.last(),
        ),
    ensures
        command_of(before + name + gap + args + after) == named(name, args),
        command_of(before) is Nothing,
{
    let line = before + name + gap + args + after;
    assert(name[name.len() - 1] == name.last());
    assert(!text::is_white(name[0]) && !text::is_white(name.last()));
    let none = Seq::<char>::empty();
    assert(before + none + none =~= before);
    text::white_space_around_is_ignored(before, none, none);
    text::white_space_around_is_ignored(none, none, none);
    assert(none + none + none =~= none);
    if args.len() == 0 {
        let tail = gap + after;
        assert forall|i: int| 0 <= i < tail.len() implies text::is_white(#[trigger] tail[i]) by {
            if i < gap.len() {
                assert(tail[i] == gap[i]);
            } else {
                assert(tail[i] == after[i - gap.len()]);
            }
        }
        assert(line =~= before + name + tail);
        text::white_space_around_is_ignored(before, name, tail);
        text::first_word_ends_at_white_space(name, ' ', none);
        assert(args =~= none);
    } else {
        let t = name + gap + args;
        assert(line =~= before + t + after);
        assert(t[0] == name[0] && t.last() == args.last());
        text::white_space_around_is_ignored(before, t, after);
        let rest = gap.skip(1) + args;
        assert(t =~= name + seq![gap[0]] + rest);
        text::first_word_ends_at_white_space(name, gap[0], rest);
        assert forall|i: int| 0 <= i < gap.skip(1).len() implies text::is_white(
            #[trigger] gap.skip(1)[i],
        ) by {
            assert(gap.skip(1)[i] == gap[i + 1]);
        }
        assert(rest =~= gap.skip(1) + args + none);
        text::white_space_around_is_ignored(gap.skip(1), args, none);
    }
}

/// Every command is known by its name.
#[verifier::spinoff_prover]
#[verifier::rlimit(40)]
pub proof fn commands_are_known_by_their_names(name: Seq<char>, args: Seq<char>)
    ensures
        named(seq!['h', 'e', 'l', 'p'], args) is Help,
        named(seq!['e', 'c', 'h', 'o'], args) == CommandView::Echo(args),
        named(seq!['c', 'l', 'e', 'a', 'r'], args) is Clear,
        named(seq!['t', 'i', 'c', 'k', 's'], args) is Ticks,
        named(seq!['u', 'p', 't', 'i', 'm', 'e'], args) is Uptime,
        named(seq!['m', 'e', 'm'], args) is Mem,
        named(seq!['p', 'w', 'd'], args) is Pwd,
        named(seq!['l', 's'], args) == CommandView::Ls(args),
        named(seq!['c', 'a', 't'], args) == CommandView::Cat(args),
        named(seq!['w', 'r', 'i', 't', 'e'], args) == CommandView::Write(args),
        named(seq!['m', 'k', 'd', 'i', 'r'], args) == CommandView::Mkdir(args),
        named(seq!['r', 'm'], args) == CommandView::Rm(args),
        named(seq!['c', 'd'], args) == CommandView::Cd(args),
        named(seq!['i', 'f', 'c', 'o', 'n', 'f', 'i', 'g'], args) is Ifconfig,
        named(seq!['a', 'r', 'p'], args) is Arp,
        named(seq!['p', 'i', 'n', 'g'], args) == CommandView::Ping(args),
        named(seq!['n', 's', 'l', 'o', 'o', 'k', 'u', 'p'], args) == CommandView::Nslookup(args),
        named(seq!['n', 'c'], args) == CommandView::Nc(args),
        name.len() != 2 && name.len() != 3 && name.len() != 4 && name.len() != 5 && name.len() != 6
            && name.len() != 8 ==> named(name, args) == CommandView::Unknown(name),
{
    reveal_strlit("help");
    reveal_strlit("echo");
    reveal_strlit("clear");
    reveal_strlit("ticks");
    reveal_strlit("uptime");
    reveal_strlit("mem");
    reveal_strlit("pwd");
    reveal_strlit("ls");
    reveal_strlit("cat");
    reveal_strlit("write");
    reveal_strlit("mkdir");
    reveal_strlit("rm");
    reveal_strlit("cd");
    reveal_strlit("ifconfig");
    reveal_strlit("arp");
    reveal_strlit("ping");
    reveal_strlit("nslookup");
    reveal_strlit("nc");
    assert("help"@ =~= seq!['h', 'e', 'l', 'p']);
    assert("echo"@ =~= seq!['e', 'c', 'h', 'o']);
    assert("clear"@ =~= seq!['c', 'l', 'e', 'a', 'r']);
    assert("ticks"@ =~= seq!['t', 'i', 'c', 'k', 's']);
    assert("uptime"@ =~= seq!['u', 'p', 't', 'i', 'm', 'e']);
    assert("mem"@ =~= seq!['m', 'e', 'm']);
    assert("pwd"@ =~= seq!['p', 'w', 'd']);
    assert("ls"@ =~= seq!['l', 's']);
    assert("cat"@ =~= seq!['c', 'a', 't']);
    assert("write"@ =~= seq!['w', 'r', 'i', 't', 'e']);
    assert("mkdir"@ =~= seq!['m', 'k', 'd', 'i', 'r']);
    assert("rm"@ =~= seq!['r', 'm']);
    assert("cd"@ =~= seq!['c', 'd']);
    assert("ifconfig"@ =~= seq!['i', 'f', 'c', 'o', 'n', 'f', 'i', 'g']);
    assert("arp"@ =~= seq!['a', 'r', 'p']);
    assert("ping"@ =~= seq!['p', 'i', 'n', 'g']);
    assert("nslookup"@ =~= seq!['n', 's', 'l', 'o', 'o', 'k', 'u', 'p']);
    assert("nc"@ =~= seq!['n', 'c']);
}

} // verus!
