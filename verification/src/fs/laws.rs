//! What the in-memory filesystem promises of paths, files and directories.

use vstd::prelude::*;

use crate::fs;
use crate::fs::ram;
use crate::fs::ram::{NodeModel, RamFs};
use crate::fs::{FileSystem, FsError};
use crate::text;

verus! {

/// What stands at each path.
pub type Tree = Map<Seq<Seq<char>>, NodeModel>;

/// A path leads one component down for every name, however many slashes stand between them, and
/// slashes alone lead nowhere.
pub proof fn names_lead_down(dir: Seq<char>, name: Seq<char>)
    requires
        name.len() > 0,
        !name.contains('/'),
    ensures
        fs::path_components(dir + seq!['/'] + name) == fs::path_components(dir).push(name),
        fs::path_components(name) == seq![name],
        fs::path_components(dir + seq!['/']) == fs::path_components(dir),
        fs::path_components(seq!['/'] + dir) == fs::path_components(dir),
        fs::path_components(seq!['/']) == Seq::<Seq<char>>::empty(),
{
    let none = Seq::<char>::empty();
    text::separator_divides(dir, name, '/');
    text::plain_text_is_one_part(name, '/');
    text::separator_divides(dir, none, '/');
    text::separator_divides(none, dir, '/');
    text::separator_divides(none, none, '/');
    text::plain_text_is_one_part(none, '/');
    let p = fs::path_components(dir);
    assert(p + seq![name] =~= p.push(name));
    assert(p + Seq::<Seq<char>>::empty() =~= p);
    assert(Seq::<Seq<char>>::empty() + p =~= p);
    assert(dir + seq!['/'] + none =~= dir + seq!['/']);
    assert(none + seq!['/'] + dir =~= seq!['/'] + dir);
    assert(none + seq!['/'] + none =~= seq!['/']);
    assert(Seq::<Seq<char>>::empty() + Seq::<Seq<char>>::empty() =~= Seq::<Seq<char>>::empty());
}

/// Whether `p` can hold something: it is not the root, and what it lies in is the root or a
/// directory.
pub open spec fn has_place(m: Tree, p: Seq<Seq<char>>) -> bool {
    &&& p.len() > 0
    &&& p.len() == 1 || (m.contains_key(p.subrange(0, p.len() - 1)) && m[p.subrange(
        0,
        p.len() - 1,
    )] is Dir)
}

proof fn lemma_place(m: Tree, p: Seq<Seq<char>>)
    ensures
        has_place(m, p) == ram::has_parent(m, p),
{
    if p.len() > 0 {
        assert(p.drop_last() =~= p.subrange(0, p.len() - 1));
    }
}

/// A file can be written wherever there is a directory for it, unless it would replace a
/// directory: the path then leads to the data, and nothing else changes. Otherwise nothing
/// changes at all.
pub proof fn files_are_written_into_directories(m: Tree, path: Seq<char>, data: Seq<u8>)
    ensures
        ({
            let p = fs::path_components(path);
            let (after, r) = RamFs::writing(m, path, data);
            &&& !has_place(m, p) ==> r == Err::<(), FsError>(FsError::NotFound) && after == m
            &&& has_place(m, p) && m.contains_key(p) && m[p] is Dir ==> r == Err::<(), FsError>(
                FsError::IsDir,
            ) && after == m
            &&& has_place(m, p) && !(m.contains_key(p) && m[p] is Dir) ==> {
                &&& r == Ok::<(), FsError>(())
                &&& after.dom() == m.dom().insert(p)
                &&& after[p] == NodeModel::File(data)
                &&& forall|q: Seq<Seq<char>>| q != p && m.contains_key(q) ==> #[trigger] after[q]
                    == m[q]
            }
        }),
{
    lemma_place(m, fs::path_components(path));
}

/// A directory can be made wherever there is a directory for it and the name is free.
pub proof fn directories_are_made_into_directories(m: Tree, path: Seq<char>)
    ensures
        ({
            let p = fs::path_components(path);
            let (after, r) = RamFs::making(m, path);
            &&& !has_place(m, p) ==> r == Err::<(), FsError>(FsError::NotFound) && after == m
            &&& has_place(m, p) && m.contains_key(p) ==> r == Err::<(), FsError>(FsError::Exists)
                && after == m
            &&& has_place(m, p) && !m.contains_key(p) ==> {
                &&& r == Ok::<(), FsError>(())
                &&& after.dom() == m.dom().insert(p)
                &&& after[p] is Dir
                &&& forall|q: Seq<Seq<char>>| q != p && m.contains_key(q) ==> #[trigger] after[q]
                    == m[q]
            }
        }),
{
    lemma_place(m, fs::path_components(path));
}

/// Whatever exists can be removed, a directory with everything in it, and nothing else goes.
pub proof fn whatever_exists_can_be_removed(m: Tree, path: Seq<char>, q: Seq<Seq<char>>)
    requires
        ram::tree(m),
    ensures
        ({
            let p = fs::path_components(path);
            let (after, r) = RamFs::removing(m, path);
            &&& !m.contains_key(p) ==> r == Err::<(), FsError>(FsError::NotFound) && after == m
            &&& m.contains_key(p) ==> r == Ok::<(), FsError>(()) && !after.contains_key(p)
            &&& m.contains_key(p) && m.contains_key(q) && q.len() >= p.len() && q.subrange(
                0,
                p.len() as int,
            ) == p ==> !after.contains_key(q)
            &&& m.contains_key(p) && m.contains_key(q) && !(q.len() >= p.len() && q.subrange(
                0,
                p.len() as int,
            ) == p) ==> after.contains_key(q) && after[q] == m[q]
            &&& !m.contains_key(q) ==> !after.contains_key(q)
        }),
{
    let p = fs::path_components(path);
    assert(p.subrange(0, p.len() as int) =~= p);
}

/// A file is read as it is stored; a directory is not read, and what does not exist is not found.
/// Whether a path names a directory is told alike.
pub proof fn files_are_read_as_stored(m: Tree, path: Seq<char>)
    ensures
        ({
            let p = fs::path_components(path);
            let r = RamFs::reading(m, path);
            &&& p.len() > 0 && m.contains_key(p) ==> (m[p] matches NodeModel::File(data) ==> r == Ok::<
                Seq<u8>,
                FsError,
            >(data))
            &&& p.len() == 0 || (m.contains_key(p) && m[p] is Dir) ==> r == Err::<Seq<u8>, FsError>(
                FsError::IsDir,
            )
            &&& p.len() > 0 && !m.contains_key(p) ==> r == Err::<Seq<u8>, FsError>(
                FsError::NotFound,
            )
            &&& RamFs::names_dir(m, path) == Ok::<bool, FsError>(
                p.len() == 0 || (m.contains_key(p) && m[p] is Dir),
            )
        }),
{
}

/// Whether name `a` stands before name `b` in the alphabet of character codes: where they first
/// differ it has the lower code, or it ends there.
pub open spec fn is_earlier(a: Seq<char>, b: Seq<char>) -> bool {
    exists|k: int|
        #![trigger a.subrange(0, k)]
        {
            &&& 0 <= k <= a.len()
            &&& k < b.len()
            &&& a.subrange(0, k) == b.subrange(0, k)
            &&& k == a.len() || (a[k] as int) < (b[k] as int)
        }
}

proof fn lemma_earlier(a: Seq<char>, b: Seq<char>)
    requires
        ram::name_before(a, b),
    ensures
        is_earlier(a, b),
    decreases a.len(),
{
    if a.len() == 0 || a[0] != b[0] {
        assert(a.subrange(0, 0) =~= b.subrange(0, 0));
        if a.len() > 0 {
            lemma_code(a[0]);
            lemma_code(b[0]);
        }
    } else {
        let ra = a.drop_first();
        let rb = b.drop_first();
        lemma_earlier(ra, rb);
        let k = choose|k: int|
            #![trigger ra.subrange(0, k)]
            {
                &&& 0 <= k <= ra.len()
                &&& k < rb.len()
                &&& ra.subrange(0, k) == rb.subrange(0, k)
                &&& k == ra.len() || (ra[k] as int) < (rb[k] as int)
            };
        assert(a.subrange(0, k + 1) =~= seq![a[0]] + ra.subrange(0, k));
        assert(b.subrange(0, k + 1) =~= seq![b[0]] + rb.subrange(0, k));
        assert(a.subrange(0, k + 1) == b.subrange(0, k + 1));
    }
}

/// The code of a character.
proof fn lemma_code(c: char)
    ensures
        c as int == c as u32 as int,
{
    vstd::utf8::char_u32_cast(c, c as u32);
}

/// A listing names every child of the directory exactly once, in the order of their names, and
/// tells the directories among them; nothing else is listed. Only directories can be listed.
pub proof fn listing_names_every_child(
    m: Tree,
    path: Seq<char>,
    r: Result<Seq<(Seq<char>, bool)>, FsError>,
    name: Seq<char>,
)
    requires
        RamFs::lists(m, path, r),
    ensures
        ({
            let p = fs::path_components(path);
            let q = p + seq![name];
            &&& p.len() == 0 || (m.contains_key(p) && m[p] is Dir) ==> r is Ok
            &&& p.len() > 0 && m.contains_key(p) && m[p] is File ==> r == Err::<
                Seq<(Seq<char>, bool)>,
                FsError,
            >(FsError::NotDir)
            &&& p.len() > 0 && !m.contains_key(p) ==> r == Err::<Seq<(Seq<char>, bool)>, FsError>(
                FsError::NotFound,
            )
            &&& r matches Ok(out) ==> {
                &&& out.contains((name, true)) <==> m.contains_key(q) && m[q] is Dir
                &&& out.contains((name, false)) <==> m.contains_key(q) && m[q] is File
                &&& forall|i: int, j: int|
                    #![trigger out[i], out[j]]
                    0 <= i < j < out.len() ==> is_earlier(out[i].0, out[j].0)
            }
        }),
{
    let p = fs::path_components(path);
    let q = p + seq![name];
    assert(q =~= p.push(name));
    if r is Ok {
        let out = r->Ok_0;
        assert forall|i: int, j: int|
            #![trigger out[i], out[j]]
            0 <= i < j < out.len() implies is_earlier(out[i].0, out[j].0) by {
            lemma_earlier(out[i].0, out[j].0);
        }
        if m.contains_key(q) {
            let i = choose|i: int| 0 <= i < out.len() && (#[trigger] out[i]).0 == name;
            assert(ram::node_at(m, p.push(out[i].0)) is Some);
            assert(out[i] == (name, m[q] is Dir));
        }
        assert forall|b: bool| out.contains((name, b)) implies m.contains_key(q) && b == (
        m[q] is Dir) by {
            let i = choose|i: int| 0 <= i < out.len() && out[i] == (name, b);
            assert(ram::node_at(m, p.push(out[i].0)) is Some);
        }
    }
}

/// What is written below a mount point goes to the mounted volume under the rest of the path.
pub proof fn mounted_below_mnt(rest: Seq<char>)
    ensures
        fs::subpath(seq!['/', 'm', 'n', 't']) == Some(seq!['/']),
        fs::subpath(seq!['/', 'm', 'n', 't', '/'] + rest) == Some(seq!['/'] + rest),
        fs::subpath(rest) is Some ==> rest.len() >= 4 && rest.subrange(0, 4) == seq![
            '/',
            'm',
            'n',
            't',
        ] && (rest.len() == 4 || rest[4] == '/'),
{
    reveal_strlit("/mnt");
    let mnt = seq!['/', 'm', 'n', 't'];
    assert(fs::MOUNT_POINT@ =~= mnt);
    fs::mount_point_is_a_boundary(rest);
    assert(seq!['/', 'm', 'n', 't', '/'] + rest =~= mnt + seq!['/'] + rest);
    if fs::subpath(rest) is Some {
        assert(rest.skip(4).len() > 0 ==> rest.skip(4)[0] == rest[4]);
    }
}

} // verus!
