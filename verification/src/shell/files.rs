//! The commands on files.

use vstd::prelude::*;

use crate::fs;
use crate::fs::ram::RamFs;
use crate::fs::{FileSystem, FsError, Vfs};
use crate::shell::command;
use crate::shell::command::rest_or_nothing;
use crate::shell::path;
use crate::shell::path::resolve_path;
use crate::shell::report;
use crate::shell::report::number_of;
use crate::shell::{Reply, ReplyView};
use crate::text;
use crate::text::{append_chars, append_str, chars_of, from_utf8, split_first, string_of};

verus! {

/// What is printed of an error: the command, the path and what went wrong.
pub open spec fn complaint(name: Seq<char>, path: Seq<char>, e: FsError) -> Seq<char> {
    name + ": "@ + path + ": "@ + fs::message(e) + "\n"@
}

/// The reply to a command that failed: a sector to fetch, or a complaint.
pub open spec fn failure(name: Seq<char>, path: Seq<char>, e: FsError) -> ReplyView {
    match e {
        FsError::NotLoaded(lba) => ReplyView::Load(lba),
        _ => ReplyView::Text(complaint(name, path, e)),
    }
}

/// The reply to a command that failed.
fn fail(name: &str, path: &str, e: FsError) -> (r: Reply)
    ensures
        r@ == failure(name@, path@, e),
{
    match e {
        FsError::NotLoaded(lba) => Reply::Load(lba),
        _ => {
            let mut t: Vec<char> = chars_of(name);
            append_str(&mut t, ": ");
            append_str(&mut t, path);
            append_str(&mut t, ": ");
            append_str(&mut t, e.as_str());
            append_str(&mut t, "\n");
            Reply::Text(string_of(&t))
        },
    }
}

/// The reply to a command that prints nothing if it succeeds.
pub open spec fn silent_reply(name: Seq<char>, path: Seq<char>, r: Result<(), FsError>) -> ReplyView {
    match r {
        Ok(_) => ReplyView::Text(Seq::empty()),
        Err(e) => failure(name, path, e),
    }
}

/// The reply to a command that prints nothing if it succeeds.
fn silent(name: &str, path: &str, r: Result<(), FsError>) -> (reply: Reply)
    ensures
        reply@ == silent_reply(name@, path@, r),
{
    match r {
        Ok(_) => {
            let t: String = String::new();
            assert(t@ =~= Seq::empty());
            Reply::Text(t)
        },
        Err(e) => fail(name, path, e),
    }
}

/// The mark behind the name of a directory.
pub open spec fn mark(is_dir: bool) -> Seq<char> {
    if is_dir {
        "/"@
    } else {
        ""@
    }
}

/// The lines of the first `n` entries.
pub open spec fn entry_lines(entries: Seq<(Seq<char>, bool)>, n: int) -> Seq<char>
    decreases n,
{
    if n <= 0 {
        Seq::empty()
    } else {
        entry_lines(entries, n - 1) + "  "@ + entries[n - 1].0 + mark(entries[n - 1].1) + "\n"@
    }
}

/// The path that `ls` lists: the working directory if none is given.
pub open spec fn ls_path(cwd: Seq<char>, args: Seq<char>) -> Seq<char> {
    if args.len() == 0 {
        cwd
    } else {
        path::resolved(cwd, args)
    }
}

/// The reply to `ls`.
pub open spec fn ls_reply(path: Seq<char>, r: Result<Seq<(Seq<char>, bool)>, FsError>) -> ReplyView {
    match r {
        Ok(entries) => ReplyView::Text(
            if entries.len() == 0 {
                "(empty)\n"@
            } else {
                entry_lines(entries, entries.len() as int)
            },
        ),
        Err(e) => failure("ls"@, path, e),
    }
}

/// Whether `r` is what listing `path` gives.
pub open spec fn listing<F: FileSystem>(
    vfs: &Vfs<F>,
    path: Seq<char>,
    r: Result<Seq<(Seq<char>, bool)>, FsError>,
) -> bool {
    match fs::served(vfs, path) {
        Some(sub) => F::lists(vfs.mounted.unwrap().model(), sub, r),
        None => RamFs::lists(vfs.root.model(), path, r),
    }
}

/// Whether a reply is one to `ls`.
pub open spec fn lists<F: FileSystem>(vfs: &Vfs<F>, path: Seq<char>, reply: ReplyView) -> bool {
    exists|r: Result<Seq<(Seq<char>, bool)>, FsError>| #[trigger]
        listing(vfs, path, r) && reply == ls_reply(path, r)
}

/// Lists a directory.
pub fn cmd_ls<F: FileSystem>(cwd: &str, vfs: &Vfs<F>, args: &Vec<char>) -> (reply: Reply)
    requires
        vfs.ok(),
    ensures
        lists(vfs, ls_path(cwd@, args@), reply@),
{
    let path: String = if args.len() == 0 {
        string_of(&chars_of(cwd))
    } else {
        resolve_path(cwd, string_of(args).as_str())
    };
    let r: Result<Vec<(String, bool)>, FsError> = fs::list(vfs, path.as_str());
    assert(listing(vfs, path@, fs::list_view(r)));
    match r {
        Ok(entries) => {
            let ghost views = fs::listing_view(entries@);
            assert(views.len() == entries@.len());
            if entries.len() == 0 {
                return Reply::Text(string_of(&chars_of("(empty)\n")));
            }
            let mut t: Vec<char> = Vec::new();
            let mut i: usize = 0;
            while i < entries.len()
                invariant
                    i <= entries@.len(),
                    views == fs::listing_view(entries@),
                    t@ == entry_lines(views, i as int),
                decreases entries@.len() - i,
            {
                assert(views[i as int] == (entries@[i as int].0@, entries@[i as int].1));
                append_str(&mut t, "  ");
                append_str(&mut t, entries[i].0.as_str());
                if entries[i].1 {
                    append_str(&mut t, "/");
                } else {
                    append_str(&mut t, "");
                }
                append_str(&mut t, "\n");
                i = i + 1;
            }
            Reply::Text(string_of(&t))
        },
        Err(e) => fail("ls", path.as_str(), e),
    }
}

/// What reading `path` gives.
pub open spec fn reading<F: FileSystem>(vfs: &Vfs<F>, path: Seq<char>) -> Result<Seq<u8>, FsError> {
    match fs::served(vfs, path) {
        Some(sub) => F::reading(vfs.mounted.unwrap().model(), sub),
        None => RamFs::reading(vfs.root.model(), path),
    }
}

/// What `cat` prints of a file: its text, or its size if it is none.
pub open spec fn contents_text(data: Seq<u8>) -> Seq<char> {
    if vstd::utf8::valid_utf8(data) {
        vstd::utf8::decode_utf8(data) + "\n"@
    } else {
        "<"@ + report::number(data.len()) + " bytes of binary data>\n"@
    }
}

/// The reply to `cat`.
pub open spec fn cat_reply(path: Seq<char>, r: Result<Seq<u8>, FsError>) -> ReplyView {
    match r {
        Ok(data) => ReplyView::Text(contents_text(data)),
        Err(e) => failure("cat"@, path, e),
    }
}

/// Prints a file.
pub fn cmd_cat<F: FileSystem>(cwd: &str, vfs: &Vfs<F>, args: &Vec<char>) -> (reply: Reply)
    requires
        vfs.ok(),
    ensures
        ({
            let path = path::resolved(cwd@, args@);
            reply@ == cat_reply(path, reading(vfs, path))
        }),
{
    let path: String = resolve_path(cwd, string_of(args).as_str());
    match fs::read(vfs, path.as_str()) {
        Ok(data) => {
            match from_utf8(&data) {
                Some(contents) => {
                    let mut t: Vec<char> = chars_of(contents.as_str());
                    append_str(&mut t, "\n");
                    Reply::Text(string_of(&t))
                },
                None => {
                    let mut t: Vec<char> = chars_of("<");
                    append_chars(&mut t, &number_of(data.len() as u64));
                    append_str(&mut t, " bytes of binary data>\n");
                    Reply::Text(string_of(&t))
                },
            }
        },
        Err(e) => fail("cat", path.as_str(), e),
    }
}

/// The reply to `write`.
pub open spec fn write_reply(path: Seq<char>, len: nat, r: Result<(), FsError>) -> ReplyView {
    match r {
        Ok(_) => ReplyView::Text("wrote "@ + report::number(len) + " bytes to "@ + path + "\n"@),
        Err(e) => failure("write"@, path, e),
    }
}

/// What `write` does: the first word is the path, and what follows is written.
pub open spec fn writes<F: FileSystem>(
    cwd: Seq<char>,
    before: &Vfs<F>,
    args: Seq<char>,
    after: &Vfs<F>,
    reply: ReplyView,
) -> bool {
    let (name, rest) = text::first_word(args);
    let data = vstd::utf8::encode_utf8(command::rest_of(rest));
    let path = path::resolved(cwd, name);
    if name.len() == 0 {
        *after == *before && reply == ReplyView::Text("usage: write <path> <text>\n"@)
    } else {
        match fs::served(before, path) {
            Some(sub) => {
                let (m, r) = F::writing(before.mounted.unwrap().model(), sub, data);
                &&& after.root == before.root
                &&& after.mounted is Some && after.mounted.unwrap().model() == m
                &&& reply == write_reply(path, data.len(), r)
            },
            None => {
                let (m, r) = RamFs::writing(before.root.model(), path, data);
                &&& after.mounted == before.mounted
                &&& after.root.model() == m
                &&& reply == write_reply(path, data.len(), r)
            },
        }
    }
}

/// Writes text to a file.
pub fn cmd_write<F: FileSystem>(cwd: &str, vfs: &mut Vfs<F>, args: &Vec<char>) -> (reply: Reply)
    requires
        old(vfs).ok(),
        old(vfs).mounted matches Some(f) ==> f.writable(),
    ensures
        final(vfs).ok(),
        writes(cwd@, old(vfs), args@, final(vfs), reply@),
{
    let (name, rest): (Vec<char>, Option<Vec<char>>) = split_first(args);
    let body: String = string_of(&rest_or_nothing(rest));
    if name.len() == 0 {
        return Reply::Text(string_of(&chars_of("usage: write <path> <text>\n")));
    }
    let path: String = resolve_path(cwd, string_of(&name).as_str());
    let data: &[u8] = body.as_str().as_bytes();
    let n: usize = data.len();
    match fs::write(vfs, path.as_str(), data) {
        Ok(_) => {
            let mut t: Vec<char> = chars_of("wrote ");
            append_chars(&mut t, &number_of(n as u64));
            append_str(&mut t, " bytes to ");
            append_str(&mut t, path.as_str());
            append_str(&mut t, "\n");
            Reply::Text(string_of(&t))
        },
        Err(e) => fail("write", path.as_str(), e),
    }
}

/// What `mkdir` does.
pub open spec fn makes<F: FileSystem>(
    path: Seq<char>,
    before: &Vfs<F>,
    after: &Vfs<F>,
    reply: ReplyView,
) -> bool {
    match fs::served(before, path) {
        Some(sub) => {
            let (m, r) = F::making(before.mounted.unwrap().model(), sub);
            &&& after.root == before.root
            &&& after.mounted is Some && after.mounted.unwrap().model() == m
            &&& reply == silent_reply("mkdir"@, path, r)
        },
        None => {
            let (m, r) = RamFs::making(before.root.model(), path);
            &&& after.mounted == before.mounted
            &&& after.root.model() == m
            &&& reply == silent_reply("mkdir"@, path, r)
        },
    }
}

/// Creates a directory.
pub fn cmd_mkdir<F: FileSystem>(cwd: &str, vfs: &mut Vfs<F>, args: &Vec<char>) -> (reply: Reply)
    requires
        old(vfs).ok(),
    ensures
        final(vfs).ok(),
        makes(path::resolved(cwd@, args@), old(vfs), final(vfs), reply@),
{
    let path: String = resolve_path(cwd, string_of(args).as_str());
    let r: Result<(), FsError> = fs::mkdir(vfs, path.as_str());
    silent("mkdir", path.as_str(), r)
}

/// What `rm` does.
pub open spec fn removes<F: FileSystem>(
    path: Seq<char>,
    before: &Vfs<F>,
    after: &Vfs<F>,
    reply: ReplyView,
) -> bool {
    match fs::served(before, path) {
        Some(sub) => {
            let (m, r) = F::removing(before.mounted.unwrap().model(), sub);
            &&& after.root == before.root
            &&& after.mounted is Some && after.mounted.unwrap().model() == m
            &&& reply == silent_reply("rm"@, path, r)
        },
        None => {
            let (m, r) = RamFs::removing(before.root.model(), path);
            &&& after.mounted == before.mounted
            &&& after.root.model() == m
            &&& reply == silent_reply("rm"@, path, r)
        },
    }
}

/// Removes a file or directory.
pub fn cmd_rm<F: FileSystem>(cwd: &str, vfs: &mut Vfs<F>, args: &Vec<char>) -> (reply: Reply)
    requires
        old(vfs).ok(),
    ensures
        final(vfs).ok(),
        removes(path::resolved(cwd@, args@), old(vfs), final(vfs), reply@),
{
    let path: String = resolve_path(cwd, string_of(args).as_str());
    let r: Result<(), FsError> = fs::remove(vfs, path.as_str());
    silent("rm", path.as_str(), r)
}

/// The path that `cd` goes to: the root if none is given.
pub open spec fn cd_path(cwd: Seq<char>, args: Seq<char>) -> Seq<char> {
    if args.len() == 0 {
        "/"@
    } else {
        path::resolved(cwd, args)
    }
}

/// Whether `path` names a directory, or what keeps that from being known.
pub open spec fn names_dir<F: FileSystem>(vfs: &Vfs<F>, path: Seq<char>) -> Result<bool, FsError> {
    match fs::served(vfs, path) {
        Some(sub) => F::names_dir(vfs.mounted.unwrap().model(), sub),
        None => RamFs::names_dir(vfs.root.model(), path),
    }
}

/// What `cd` does: the working directory changes to a directory that exists. A sector that is
/// needed to tell is fetched first.
pub open spec fn goes<F: FileSystem>(cwd: Seq<char>, vfs: &Vfs<F>, args: Seq<char>) -> (
    Seq<char>,
    ReplyView,
) {
    let path = cd_path(cwd, args);
    match names_dir(vfs, path) {
        Ok(true) => (path, ReplyView::Text(Seq::empty())),
        Err(FsError::NotLoaded(lba)) => (cwd, ReplyView::Load(lba)),
        _ => (cwd, ReplyView::Text("cd: "@ + path + ": not a directory\n"@)),
    }
}

/// Changes the working directory.
pub fn cmd_cd<F: FileSystem>(cwd: &mut String, vfs: &Vfs<F>, args: &Vec<char>) -> (reply: Reply)
    requires
        vfs.ok(),
    ensures
        (final(cwd)@, reply@) == goes(old(cwd)@, vfs, args@),
{
    let path: String = if args.len() == 0 {
        string_of(&chars_of("/"))
    } else {
        resolve_path(cwd.as_str(), string_of(args).as_str())
    };
    match fs::is_dir(vfs, path.as_str()) {
        Ok(true) => {
            *cwd = path;
            let t: String = String::new();
            assert(t@ =~= Seq::empty());
            Reply::Text(t)
        },
        Err(FsError::NotLoaded(lba)) => Reply::Load(lba),
        _ => {
            let mut t: Vec<char> = chars_of("cd: ");
            append_str(&mut t, path.as_str());
            append_str(&mut t, ": not a directory\n");
            Reply::Text(string_of(&t))
        },
    }
}

} // verus!
