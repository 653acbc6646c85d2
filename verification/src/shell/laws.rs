//! What commands lead to, one after the other.

use vstd::prelude::*;

use crate::fs;
use crate::fs::laws::has_place;
use crate::fs::ram;
use crate::fs::ram::NodeModel;
use crate::fs::{FileSystem, FsError, Vfs};
use crate::net::address;
use crate::net::stack::StackModel;
use crate::shell;
use crate::shell::command::CommandView;
use crate::shell::files;
use crate::shell::path;
use crate::shell::{dispatched, ReplyView};
use crate::text;

verus! {

/// Text that is written to a file in memory is what `cat` shows of it afterwards, with the end of
/// a line behind it. The first word is the file's name; all that follows the white space behind
/// it is written.
pub proof fn written_text_is_shown<F: FileSystem>(
    cwd: Seq<char>,
    name: Seq<char>,
    c: char,
    body: Seq<char>,
    before: &Vfs<F>,
    after: &Vfs<F>,
    net: StackModel,
    ticks: u64,
    cwd1: Seq<char>,
    reply1: ReplyView,
    last: &Vfs<F>,
    cwd2: Seq<char>,
    reply2: ReplyView,
)
    requires
        name.len() > 0,
        forall|i: int| 0 <= i < name.len() ==> !text::is_white(#[trigger] name[i]),
        text::is_white(c),
        dispatched(
            CommandView::Write(name + seq![c] + body),
            cwd,
            before,
            net,
            ticks,
            cwd1,
            after,
            reply1,
        ),
        dispatched(CommandView::Cat(name), cwd1, after, net, ticks, cwd2, last, reply2),
        fs::served(before, path::resolved(cwd, name)) is None,
        ({
            let p = fs::path_components(path::resolved(cwd, name));
            let m = before.root.model();
            has_place(m, p) && !(m.contains_key(p) && m[p] is Dir)
        }),
    ensures
        cwd1 == cwd && cwd2 == cwd,
        reply2 == ReplyView::Text(body + seq!['\n']),
        after.mounted == before.mounted,
        *last == *after,
{
    let p = path::resolved(cwd, name);
    text::first_word_ends_at_white_space(name, c, body);
    let data = vstd::utf8::encode_utf8(body);
    fs::laws::files_are_written_into_directories(before.root.model(), p, data);
    fs::laws::files_are_read_as_stored(after.root.model(), p);
    vstd::utf8::encode_utf8_decode_utf8(body);
    vstd::utf8::encode_utf8_valid_utf8(body);
    reveal_strlit("\n");
    assert("\n"@ =~= seq!['\n']);
    let q = fs::path_components(p);
    assert(after.root.model().contains_key(q));
    assert(after.root.model()[q] == NodeModel::File(data));
}

/// A directory that is made in memory can be entered afterwards, and is then where the shell is.
pub proof fn made_directory_is_entered<F: FileSystem>(
    cwd: Seq<char>,
    name: Seq<char>,
    before: &Vfs<F>,
    after: &Vfs<F>,
    net: StackModel,
    ticks: u64,
    cwd1: Seq<char>,
    reply1: ReplyView,
    last: &Vfs<F>,
    cwd2: Seq<char>,
    reply2: ReplyView,
)
    requires
        name.len() > 0,
        dispatched(CommandView::Mkdir(name), cwd, before, net, ticks, cwd1, after, reply1),
        dispatched(CommandView::Cd(name), cwd1, after, net, ticks, cwd2, last, reply2),
        fs::served(before, path::resolved(cwd, name)) is None,
        ({
            let p = fs::path_components(path::resolved(cwd, name));
            let m = before.root.model();
            has_place(m, p) && !m.contains_key(p)
        }),
    ensures
        cwd1 == cwd,
        reply1 == ReplyView::Text(Seq::empty()),
        cwd2 == path::resolved(cwd, name),
        reply2 == ReplyView::Text(Seq::empty()),
{
    let p = path::resolved(cwd, name);
    fs::laws::directories_are_made_into_directories(before.root.model(), p);
    fs::laws::files_are_read_as_stored(after.root.model(), p);
    let q = fs::path_components(p);
    assert(after.root.model().contains_key(q));
}

/// What is removed in memory is not found afterwards.
pub proof fn removed_file_is_not_found<F: FileSystem>(
    cwd: Seq<char>,
    name: Seq<char>,
    before: &Vfs<F>,
    after: &Vfs<F>,
    net: StackModel,
    ticks: u64,
    cwd1: Seq<char>,
    reply1: ReplyView,
    last: &Vfs<F>,
    cwd2: Seq<char>,
    reply2: ReplyView,
)
    requires
        ram::tree(before.root.model()),
        dispatched(CommandView::Rm(name), cwd, before, net, ticks, cwd1, after, reply1),
        dispatched(CommandView::Cat(name), cwd1, after, net, ticks, cwd2, last, reply2),
        fs::served(before, path::resolved(cwd, name)) is None,
        before.root.model().contains_key(fs::path_components(path::resolved(cwd, name))),
    ensures
        reply1 == ReplyView::Text(Seq::empty()),
        reply2 == ReplyView::Text(
            "cat: "@ + path::resolved(cwd, name) + ": no such file or directory\n"@,
        ),
{
    let p = path::resolved(cwd, name);
    let q = fs::path_components(p);
    fs::laws::whatever_exists_can_be_removed(before.root.model(), p, q);
    fs::laws::files_are_read_as_stored(after.root.model(), p);
    assert(q.len() > 0);
    reveal_strlit("cat");
    reveal_strlit(": ");
    reveal_strlit("cat: ");
    reveal_strlit("no such file or directory");
    reveal_strlit("\n");
    reveal_strlit(": no such file or directory\n");
    assert("cat"@ + ": "@ =~= "cat: "@);
    assert(": "@ + "no such file or directory"@ + "\n"@ =~= ": no such file or directory\n"@);
    assert("cat"@ + ": "@ + p + ": "@ + "no such file or directory"@ + "\n"@ =~= "cat: "@ + p
        + ": no such file or directory\n"@);
}

/// `cd` alone goes to the root of what is in memory, `cd` to what is no directory goes nowhere,
/// and `pwd` shows where the shell is.
pub proof fn shell_knows_where_it_is<F: FileSystem>(
    cwd: Seq<char>,
    args: Seq<char>,
    vfs: &Vfs<F>,
    net: StackModel,
    ticks: u64,
    cwd_after: Seq<char>,
    after: &Vfs<F>,
    reply: ReplyView,
)
    ensures
        dispatched(
            CommandView::Cd(Seq::empty()),
            cwd,
            vfs,
            net,
            ticks,
            cwd_after,
            after,
            reply,
        ) ==> cwd_after == seq!['/'] && reply == ReplyView::Text(Seq::empty()) && *after == *vfs,
        dispatched(CommandView::Cd(args), cwd, vfs, net, ticks, cwd_after, after, reply)
            && args.len() > 0 && files::names_dir(vfs, path::resolved(cwd, args)) == Ok::<
            bool,
            FsError,
        >(false) ==> cwd_after == cwd && *after == *vfs && reply == ReplyView::Text(
            "cd: "@ + path::resolved(cwd, args) + ": not a directory\n"@,
        ),
        dispatched(CommandView::Pwd, cwd, vfs, net, ticks, cwd_after, after, reply) ==> reply
            == ReplyView::Text(cwd + seq!['\n']) && cwd_after == cwd && *after == *vfs,
        dispatched(CommandView::Echo(args), cwd, vfs, net, ticks, cwd_after, after, reply)
            ==> reply == ReplyView::Text(args + seq!['\n']) && cwd_after == cwd && *after == *vfs,
{
    reveal_strlit("/");
    reveal_strlit("\n");
    assert("/"@ =~= seq!['/']);
    assert("\n"@ =~= seq!['\n']);
    fs::laws::mounted_below_mnt(seq!['/']);
    assert(fs::subpath(seq!['/']) is None);
    let x = seq!['x'];
    assert(!x.contains('/'));
    fs::laws::names_lead_down(seq!['/'], x);
    fs::laws::files_are_read_as_stored(vfs.root.model(), seq!['/']);
}

/// An address has four parts between three dots, each a number up to 255; anything else is none.
pub proof fn address_has_four_parts(
    a: Seq<char>,
    b: Seq<char>,
    c: Seq<char>,
    d: Seq<char>,
)
    requires
        !a.contains('.'),
        !b.contains('.'),
        !c.contains('.'),
        !d.contains('.'),
        a.len() > 0 && d.len() > 0,
        !text::is_white(a[0]) && !text::is_white(d.last()),
    ensures
        ({
            let s = a + seq!['.'] + b + seq!['.'] + c + seq!['.'] + d;
            let good = is_octet(a) && is_octet(b) && is_octet(c) && is_octet(d);
            &&& good ==> address::spelled(s) == Some(
                seq![text::decimal(a), text::decimal(b), text::decimal(c), text::decimal(d)],
            )
            &&& !good ==> address::spelled(s) is None
            &&& address::spelled(s + seq!['.'] + d) is None
        }),
{
    let ab = a + seq!['.'] + b;
    let abc = ab + seq!['.'] + c;
    let s = abc + seq!['.'] + d;
    let none = Seq::<char>::empty();
    text::separator_divides(a, b, '.');
    text::separator_divides(ab, c, '.');
    text::separator_divides(abc, d, '.');
    text::separator_divides(s, d, '.');
    text::plain_text_is_one_part(a, '.');
    text::plain_text_is_one_part(b, '.');
    text::plain_text_is_one_part(c, '.');
    text::plain_text_is_one_part(d, '.');
    assert(text::split(s, '.') =~= seq![a, b, c, d]);
    assert(s[0] == a[0] && s.last() == d.last());
    assert(none + s + none =~= s);
    text::white_space_around_is_ignored(none, s, none);
    let t = s + seq!['.'] + d;
    assert(t[0] == a[0] && t.last() == d.last());
    assert(none + t + none =~= t);
    text::white_space_around_is_ignored(none, t, none);
    assert(text::split(t, '.').len() == 5);
}

/// Whether a part is a number from 0 to 255: digits only, and at least one.
pub open spec fn is_octet(s: Seq<char>) -> bool {
    &&& s.len() > 0
    &&& forall|i: int| 0 <= i < s.len() ==> text::is_digit(#[trigger] s[i])
    &&& text::decimal(s) <= 255
}

/// `nc` takes an address, a port and the text that follows, which is sent as one line. Without a
/// text it sends its own, and without a port it explains itself.
pub proof fn netcat_sends_a_line(
    ip: Seq<char>,
    port: Seq<char>,
    c1: char,
    c2: char,
    body: Seq<char>,
    octets: Seq<nat>,
)
    requires
        address::spelled(ip) == Some(octets),
        forall|i: int| 0 <= i < ip.len() ==> !text::is_white(#[trigger] ip[i]),
        port.len() > 0,
        forall|i: int| 0 <= i < port.len() ==> text::is_digit(#[trigger] port[i]),
        text::decimal(port) <= 65535,
        text::is_white(c1),
        text::is_white(c2),
    ensures
        ({
            let r = shell::nc_reply(ip + seq![c1] + port + seq![c2] + body);
            let n = vstd::utf8::encode_utf8(body + seq!['\n']).len();
            &&& n <= 255 ==> (r matches ReplyView::Netcat(a, p, msg, _) && a == shell::as_bytes(
                octets,
            ) && p == text::decimal(port) && msg == body + seq!['\n'])
            &&& n > 255 ==> r is Text
        }),
        shell::nc_reply(ip + seq![c1] + port) matches ReplyView::Netcat(a, p, msg, _) && a
            == shell::as_bytes(octets) && p == text::decimal(port) && msg
            == "hello from ring 3"@ + seq!['\n'],
        shell::nc_reply(ip) == ReplyView::Text("usage: nc <a.b.c.d> <port> [text]\n"@),
{
    assert forall|i: int| 0 <= i < port.len() implies !text::is_white(#[trigger] port[i]) by {
        assert(text::is_digit(port[i]));
    }
    let rest = port + seq![c2] + body;
    assert(ip + seq![c1] + port + seq![c2] + body =~= ip + seq![c1] + rest);
    text::first_word_ends_at_white_space(ip, c1, rest);
    text::first_word_ends_at_white_space(ip, c1, port);
    text::first_word_ends_at_white_space(port, c2, body);
    assert(text::is_digit(port[0]));
    assert(port[0] != '+');
    reveal_strlit("\n");
    assert("\n"@ =~= seq!['\n']);
    let own = "hello from ring 3"@ + seq!['\n'];
    reveal_strlit("hello from ring 3");
    assert(own.len() == 18);
    vstd::utf8::is_ascii_chars_encode_utf8(own);
}

} // verus!
