//! An in-memory filesystem: named, hierarchical files that vanish on reboot.

use vstd::prelude::*;

use crate::bytes::to_vec;
use crate::fs;
use crate::fs::{components, FileSystem, FsError};
use crate::text;
use crate::text::{copy_of, same_chars, string_of};

verus! {

/// What a path leads to.
pub enum Node {
    File(Vec<u8>),
    Dir,
}

/// What a path leads to, over sequences.
pub enum NodeModel {
    File(Seq<u8>),
    Dir,
}

impl View for Node {
    type V = NodeModel;

    open spec fn view(&self) -> NodeModel {
        match *self {
            Node::File(data) => NodeModel::File(data@),
            Node::Dir => NodeModel::Dir,
        }
    }
}

/// One path below the root with what it leads to.
struct Entry {
    path: Vec<Vec<char>>,
    node: Node,
}

/// The in-memory filesystem. Its model maps the paths below the root to what they lead to.
pub struct RamFs {
    entries: Vec<Entry>,
}

/// What path `p` leads to; the root is a directory.
pub open spec fn node_at(m: Map<Seq<Seq<char>>, NodeModel>, p: Seq<Seq<char>>) -> Option<NodeModel> {
    if p.len() == 0 {
        Some(NodeModel::Dir)
    } else if m.dom().contains(p) {
        Some(m[p])
    } else {
        None
    }
}

/// Whether `p` is a directory.
pub open spec fn dir_at(m: Map<Seq<Seq<char>>, NodeModel>, p: Seq<Seq<char>>) -> bool {
    node_at(m, p) == Some(NodeModel::Dir)
}

/// Every path lies in a directory.
pub open spec fn tree(m: Map<Seq<Seq<char>>, NodeModel>) -> bool {
    forall|p: Seq<Seq<char>>| #[trigger]
        m.dom().contains(p) ==> p.len() > 0 && dir_at(m, p.drop_last())
}

/// Whether something can be created or removed at `p`: it is not the root and lies in a
/// directory.
pub open spec fn has_parent(m: Map<Seq<Seq<char>>, NodeModel>, p: Seq<Seq<char>>) -> bool {
    p.len() > 0 && dir_at(m, p.drop_last())
}

/// What making a directory at `p` does.
pub open spec fn made(m: Map<Seq<Seq<char>>, NodeModel>, p: Seq<Seq<char>>) -> (
    Map<Seq<Seq<char>>, NodeModel>,
    Result<(), FsError>,
) {
    if !has_parent(m, p) {
        (m, Err(FsError::NotFound))
    } else if m.dom().contains(p) {
        (m, Err(FsError::Exists))
    } else {
        (m.insert(p, NodeModel::Dir), Ok(()))
    }
}

/// What writing a file at `p` does.
pub open spec fn written(m: Map<Seq<Seq<char>>, NodeModel>, p: Seq<Seq<char>>, data: Seq<u8>) -> (
    Map<Seq<Seq<char>>, NodeModel>,
    Result<(), FsError>,
) {
    if !has_parent(m, p) {
        (m, Err(FsError::NotFound))
    } else if dir_at(m, p) {
        (m, Err(FsError::IsDir))
    } else {
        (m.insert(p, NodeModel::File(data)), Ok(()))
    }
}

/// What reading the file at `p` gives.
pub open spec fn content(m: Map<Seq<Seq<char>>, NodeModel>, p: Seq<Seq<char>>) -> Result<
    Seq<u8>,
    FsError,
> {
    match node_at(m, p) {
        Some(NodeModel::File(data)) => Ok(data),
        Some(NodeModel::Dir) => Err(FsError::IsDir),
        None => Err(FsError::NotFound),
    }
}

/// What is left without `p` and everything below it.
pub open spec fn without(m: Map<Seq<Seq<char>>, NodeModel>, p: Seq<Seq<char>>) -> Map<
    Seq<Seq<char>>,
    NodeModel,
> {
    Map::new(
        |q: Seq<Seq<char>>| m.dom().contains(q) && !p.is_prefix_of(q),
        |q: Seq<Seq<char>>| m[q],
    )
}

/// What removing `p` does: a directory takes everything below it along.
pub open spec fn removed(m: Map<Seq<Seq<char>>, NodeModel>, p: Seq<Seq<char>>) -> (
    Map<Seq<Seq<char>>, NodeModel>,
    Result<(), FsError>,
) {
    if !has_parent(m, p) || !m.dom().contains(p) {
        (m, Err(FsError::NotFound))
    } else {
        (without(m, p), Ok(()))
    }
}

/// Whether `a` comes before `b` in the order of names: by their first differing character, a
/// name before its extensions.
pub open spec fn name_before(a: Seq<char>, b: Seq<char>) -> bool
    decreases a.len(),
{
    if b.len() == 0 {
        false
    } else if a.len() == 0 {
        true
    } else if a[0] != b[0] {
        (a[0] as u32) < (b[0] as u32)
    } else {
        name_before(a.drop_first(), b.drop_first())
    }
}

/// Whether `out` lists the directory `p`: each name directly below it once, in the order of
/// names, with whether it is a directory.
pub open spec fn lists_dir(
    m: Map<Seq<Seq<char>>, NodeModel>,
    p: Seq<Seq<char>>,
    out: Seq<(Seq<char>, bool)>,
) -> bool {
    &&& forall|i: int, j: int|
        #![trigger out[i], out[j]]
        0 <= i < j < out.len() ==> name_before(out[i].0, out[j].0)
    &&& forall|i: int|
        0 <= i < out.len() ==> #[trigger] node_at(m, p.push(out[i].0)) is Some && out[i].1
            == dir_at(m, p.push(out[i].0))
    &&& forall|name: Seq<char>| #[trigger]
        m.dom().contains(p.push(name)) ==> exists|i: int|
            0 <= i < out.len() && (#[trigger] out[i]).0 == name
}

/// The components of an entry's path.
spec fn path_of(e: Entry) -> Seq<Seq<char>> {
    text::words_view(e.path@)
}

/// Entry `i` is that of path `p`.
spec fn holds(entries: Seq<Entry>, p: Seq<Seq<char>>, i: int) -> bool {
    0 <= i < entries.len() && path_of(entries[i]) == p
}

/// No path occurs twice.
spec fn distinct(entries: Seq<Entry>) -> bool {
    forall|i: int, j: int|
        #![trigger entries[i], entries[j]]
        0 <= i < j < entries.len() ==> path_of(entries[i]) != path_of(entries[j])
}

/// The map that entries stand for.
spec fn map_of(entries: Seq<Entry>) -> Map<Seq<Seq<char>>, NodeModel> {
    Map::new(
        |p: Seq<Seq<char>>| exists|i: int| holds(entries, p, i),
        |p: Seq<Seq<char>>| entries[choose|i: int| holds(entries, p, i)].node@,
    )
}

proof fn lemma_entry(entries: Seq<Entry>, i: int)
    requires
        distinct(entries),
        0 <= i < entries.len(),
    ensures
        map_of(entries).dom().contains(path_of(entries[i])),
        map_of(entries)[path_of(entries[i])] == entries[i].node@,
{
    let p = path_of(entries[i]);
    assert(holds(entries, p, i));
    let k = choose|k: int| holds(entries, p, k);
    assert(holds(entries, p, k));
    if k < i {
        assert(path_of(entries[k]) != path_of(entries[i]));
    } else if i < k {
        assert(path_of(entries[i]) != path_of(entries[k]));
    }
}

/// Whether the first `n` components of `path` are those of `e`.
fn same_path(e: &Entry, path: &Vec<Vec<char>>, n: usize) -> (same: bool)
    requires
        n <= path@.len(),
    ensures
        same == (path_of(*e) == text::words_view(path@).take(n as int)),
{
    let ghost a = path_of(*e);
    let ghost b = text::words_view(path@).take(n as int);
    if e.path.len() != n {
        assert(a.len() == e.path@.len());
        return false;
    }
    let mut i: usize = 0;
    while i < n
        invariant
            i <= n,
            n == e.path@.len(),
            n <= path@.len(),
            a == path_of(*e),
            b == text::words_view(path@).take(n as int),
            forall|j: int| 0 <= j < i ==> a[j] == b[j],
        decreases n - i,
    {
        assert(a[i as int] == e.path@[i as int]@);
        assert(b[i as int] == path@[i as int]@);
        if !same_chars(&e.path[i], &path[i]) {
            return false;
        }
        i = i + 1;
    }
    assert(a =~= b);
    true
}

/// The position of the entry whose path is the first `n` components of `path`.
fn find(entries: &Vec<Entry>, path: &Vec<Vec<char>>, n: usize) -> (found: Option<usize>)
    requires
        n <= path@.len(),
        distinct(entries@),
    ensures
        ({
            let p = text::words_view(path@).take(n as int);
            match found {
                Some(i) => holds(entries@, p, i as int) && map_of(entries@).dom().contains(p)
                    && map_of(entries@)[p] == entries@[i as int].node@,
                None => !map_of(entries@).dom().contains(p),
            }
        }),
{
    let ghost p = text::words_view(path@).take(n as int);
    let mut i: usize = 0;
    while i < entries.len()
        invariant
            n <= path@.len(),
            distinct(entries@),
            p == text::words_view(path@).take(n as int),
            i <= entries@.len(),
            forall|j: int| 0 <= j < i ==> !holds(entries@, p, j),
        decreases entries@.len() - i,
    {
        if same_path(&entries[i], path, n) {
            proof {
                lemma_entry(entries@, i as int);
            }
            return Some(i);
        }
        i = i + 1;
    }
    None
}

/// A copy of the first `n` components.
fn copy_path(path: &Vec<Vec<char>>) -> (out: Vec<Vec<char>>)
    ensures
        text::words_view(out@) == text::words_view(path@),
{
    let mut out: Vec<Vec<char>> = Vec::new();
    let mut i: usize = 0;
    while i < path.len()
        invariant
            i <= path@.len(),
            out@.len() == i,
            forall|j: int| 0 <= j < i ==> (#[trigger] out@[j])@ == path@[j]@,
        decreases path@.len() - i,
    {
        out.push(copy_of(&path[i]));
        i = i + 1;
    }
    assert(text::words_view(out@) =~= text::words_view(path@));
    out
}

proof fn lemma_pushed(entries: Seq<Entry>, e: Entry)
    requires
        distinct(entries),
        !map_of(entries).dom().contains(path_of(e)),
    ensures
        distinct(entries.push(e)),
        map_of(entries.push(e)) == map_of(entries).insert(path_of(e), e.node@),
{
    let after = entries.push(e);
    assert forall|i: int, j: int|
        #![trigger after[i], after[j]]
        0 <= i < j < after.len() implies path_of(after[i]) != path_of(after[j]) by {
        if j == entries.len() {
            lemma_entry(entries, i);
        } else {
            assert(path_of(entries[i]) != path_of(entries[j]));
        }
    }
    let want = map_of(entries).insert(path_of(e), e.node@);
    assert forall|p: Seq<Seq<char>>| map_of(after).dom().contains(p) == want.dom().contains(p) by {
        if map_of(after).dom().contains(p) {
            let i = choose|i: int| holds(after, p, i);
            if i < entries.len() {
                lemma_entry(entries, i);
            }
        }
        if want.dom().contains(p) {
            if p == path_of(e) {
                assert(holds(after, p, entries.len() as int));
            } else {
                let i = choose|i: int| holds(entries, p, i);
                assert(holds(after, p, i));
            }
        }
    }
    assert forall|p: Seq<Seq<char>>| map_of(after).dom().contains(p) implies map_of(after)[p]
        == want[p] by {
        let i = choose|i: int| holds(after, p, i);
        lemma_entry(after, i);
        if i < entries.len() {
            lemma_entry(entries, i);
        }
    }
    assert(map_of(after) =~= want);
}

proof fn lemma_replaced(entries: Seq<Entry>, i: int, e: Entry)
    requires
        distinct(entries),
        0 <= i < entries.len(),
        path_of(e) == path_of(entries[i]),
    ensures
        distinct(entries.update(i, e)),
        map_of(entries.update(i, e)) == map_of(entries).insert(path_of(e), e.node@),
{
    let after = entries.update(i, e);
    assert forall|a: int, b: int|
        #![trigger after[a], after[b]]
        0 <= a < b < after.len() implies path_of(after[a]) != path_of(after[b]) by {
        assert(path_of(entries[a]) != path_of(entries[b]));
    }
    let want = map_of(entries).insert(path_of(e), e.node@);
    lemma_entry(entries, i);
    assert forall|p: Seq<Seq<char>>| map_of(after).dom().contains(p) == want.dom().contains(p) by {
        if map_of(after).dom().contains(p) {
            let k = choose|k: int| holds(after, p, k);
            lemma_entry(entries, k);
        }
        if want.dom().contains(p) {
            if p == path_of(e) {
                assert(holds(after, p, i));
            } else {
                let k = choose|k: int| holds(entries, p, k);
                assert(holds(after, p, k));
            }
        }
    }
    assert forall|p: Seq<Seq<char>>| map_of(after).dom().contains(p) implies map_of(after)[p]
        == want[p] by {
        let k = choose|k: int| holds(after, p, k);
        lemma_entry(after, k);
        lemma_entry(entries, k);
    }
    assert(map_of(after) =~= want);
}

/// Whether `path` leads through the whole of `prefix`.
fn is_below(e: &Entry, prefix: &Vec<Vec<char>>) -> (below: bool)
    ensures
        below == text::words_view(prefix@).is_prefix_of(path_of(*e)),
{
    let ghost p = text::words_view(prefix@);
    let ghost q = path_of(*e);
    assert(p.len() == prefix@.len() && q.len() == e.path@.len());
    if e.path.len() < prefix.len() {
        return false;
    }
    let mut i: usize = 0;
    while i < prefix.len()
        invariant
            i <= prefix@.len() <= e.path@.len(),
            p == text::words_view(prefix@),
            q == path_of(*e),
            forall|j: int| 0 <= j < i ==> p[j] == q[j],
        decreases prefix@.len() - i,
    {
        assert(p[i as int] == prefix@[i as int]@ && q[i as int] == e.path@[i as int]@);
        if !same_chars(&prefix[i], &e.path[i]) {
            assert(q.subrange(0, p.len() as int)[i as int] == q[i as int]);
            return false;
        }
        i = i + 1;
    }
    assert(p =~= q.subrange(0, p.len() as int));
    true
}

impl RamFs {
    /// The empty filesystem, which is only the root directory.
    pub fn new() -> (fs: RamFs)
        ensures
            fs.ok(),
            fs.model() == Map::<Seq<Seq<char>>, NodeModel>::empty(),
    {
        let fs = RamFs { entries: Vec::new() };
        assert(fs.model() =~= Map::empty());
        fs
    }

    /// What the first `n` components of `path` lead to.
    fn kind_at(&self, path: &Vec<Vec<char>>, n: usize) -> (is_dir: Option<bool>)
        requires
            n <= path@.len(),
            self.ok(),
        ensures
            ({
                let node = node_at(self.model(), text::words_view(path@).take(n as int));
                match is_dir {
                    Some(d) => node is Some && d == (node == Some(NodeModel::Dir)),
                    None => node is None,
                }
            }),
    {
        if n == 0 {
            return Some(true);
        }
        match find(&self.entries, path, n) {
            Some(i) => match self.entries[i].node {
                Node::File(_) => Some(false),
                Node::Dir => Some(true),
            },
            None => None,
        }
    }

    /// Whether something can be created or removed at `path`.
    fn parent_exists(&self, path: &Vec<Vec<char>>) -> (yes: bool)
        requires
            self.ok(),
        ensures
            yes == has_parent(self.model(), text::words_view(path@)),
    {
        if path.len() == 0 {
            return false;
        }
        let n: usize = path.len() - 1;
        assert(text::words_view(path@).drop_last() =~= text::words_view(path@).take(n as int));
        match self.kind_at(path, n) {
            Some(d) => d,
            None => false,
        }
    }
}

impl FileSystem for RamFs {
    type Model = Map<Seq<Seq<char>>, NodeModel>;

    closed spec fn model(&self) -> Map<Seq<Seq<char>>, NodeModel> {
        map_of(self.entries@)
    }

    closed spec fn ok(&self) -> bool {
        distinct(self.entries@) && tree(self.model())
    }

    open spec fn writable(&self) -> bool {
        true
    }

    open spec fn making(m: Map<Seq<Seq<char>>, NodeModel>, path: Seq<char>) -> (
        Map<Seq<Seq<char>>, NodeModel>,
        Result<(), FsError>,
    ) {
        made(m, fs::path_components(path))
    }

    open spec fn writing(m: Map<Seq<Seq<char>>, NodeModel>, path: Seq<char>, data: Seq<u8>) -> (
        Map<Seq<Seq<char>>, NodeModel>,
        Result<(), FsError>,
    ) {
        written(m, fs::path_components(path), data)
    }

    open spec fn reading(m: Map<Seq<Seq<char>>, NodeModel>, path: Seq<char>) -> Result<
        Seq<u8>,
        FsError,
    > {
        content(m, fs::path_components(path))
    }

    open spec fn lists(
        m: Map<Seq<Seq<char>>, NodeModel>,
        path: Seq<char>,
        r: Result<Seq<(Seq<char>, bool)>, FsError>,
    ) -> bool {
        let p = fs::path_components(path);
        match node_at(m, p) {
            Some(NodeModel::Dir) => r matches Ok(out) && lists_dir(m, p, out),
            Some(NodeModel::File(_)) => r == Err::<Seq<(Seq<char>, bool)>, FsError>(
                FsError::NotDir,
            ),
            None => r == Err::<Seq<(Seq<char>, bool)>, FsError>(FsError::NotFound),
        }
    }

    open spec fn removing(m: Map<Seq<Seq<char>>, NodeModel>, path: Seq<char>) -> (
        Map<Seq<Seq<char>>, NodeModel>,
        Result<(), FsError>,
    ) {
        removed(m, fs::path_components(path))
    }

    open spec fn names_dir(m: Map<Seq<Seq<char>>, NodeModel>, path: Seq<char>) -> Result<
        bool,
        FsError,
    > {
        Ok(dir_at(m, fs::path_components(path)))
    }

    fn mkdir(&mut self, path: &str) -> Result<(), FsError> {
        let comps: Vec<Vec<char>> = components(path);
        let ghost p = text::words_view(comps@);
        let ghost before = self.entries@;
        assert(p.take(comps@.len() as int) =~= p);
        if !self.parent_exists(&comps) {
            return Err(FsError::NotFound);
        }
        if let Some(_) = find(&self.entries, &comps, comps.len()) {
            return Err(FsError::Exists);
        }
        let entry = Entry { path: copy_path(&comps), node: Node::Dir };
        proof {
            lemma_pushed(before, entry);
            lemma_tree_insert(map_of(before), p, NodeModel::Dir);
        }
        self.entries.push(entry);
        Ok(())
    }

    fn write(&mut self, path: &str, data: &[u8]) -> Result<(), FsError> {
        let comps: Vec<Vec<char>> = components(path);
        let ghost p = text::words_view(comps@);
        let ghost before = self.entries@;
        assert(p.take(comps@.len() as int) =~= p);
        if !self.parent_exists(&comps) {
            return Err(FsError::NotFound);
        }
        let entry = Entry { path: copy_path(&comps), node: Node::File(to_vec(data)) };
        match find(&self.entries, &comps, comps.len()) {
            Some(i) => {
                if let Node::Dir = self.entries[i].node {
                    return Err(FsError::IsDir);
                }
                proof {
                    lemma_replaced(before, i as int, entry);
                    lemma_tree_insert(map_of(before), p, NodeModel::File(data@));
                }
                self.entries.set(i, entry);
            },
            None => {
                proof {
                    lemma_pushed(before, entry);
                    lemma_tree_insert(map_of(before), p, NodeModel::File(data@));
                }
                self.entries.push(entry);
            },
        }
        Ok(())
    }

    fn read(&self, path: &str) -> Result<Vec<u8>, FsError> {
        let comps: Vec<Vec<char>> = components(path);
        assert(text::words_view(comps@).take(comps@.len() as int) =~= text::words_view(comps@));
        if comps.len() == 0 {
            return Err(FsError::IsDir);
        }
        match find(&self.entries, &comps, comps.len()) {
            Some(i) => match &self.entries[i].node {
                Node::File(data) => Ok(to_vec(data)),
                Node::Dir => Err(FsError::IsDir),
            },
            None => Err(FsError::NotFound),
        }
    }

    fn list(&self, path: &str) -> Result<Vec<(String, bool)>, FsError> {
        let comps: Vec<Vec<char>> = components(path);
        let ghost p = text::words_view(comps@);
        assert(p.take(comps@.len() as int) =~= p);
        match self.kind_at(&comps, comps.len()) {
            Some(true) => Ok(list_children(&self.entries, &comps)),
            Some(false) => Err(FsError::NotDir),
            None => Err(FsError::NotFound),
        }
    }

    fn remove(&mut self, path: &str) -> Result<(), FsError> {
        let comps: Vec<Vec<char>> = components(path);
        let ghost p = text::words_view(comps@);
        assert(p.take(comps@.len() as int) =~= p);
        if !self.parent_exists(&comps) {
            return Err(FsError::NotFound);
        }
        if find(&self.entries, &comps, comps.len()).is_none() {
            return Err(FsError::NotFound);
        }
        proof {
            lemma_tree_without(map_of(self.entries@), p);
        }
        drop_below(&mut self.entries, &comps);
        Ok(())
    }

    fn is_dir(&self, path: &str) -> Result<bool, FsError> {
        let comps: Vec<Vec<char>> = components(path);
        assert(text::words_view(comps@).take(comps@.len() as int) =~= text::words_view(comps@));
        match self.kind_at(&comps, comps.len()) {
            Some(d) => Ok(d),
            None => Ok(false),
        }
    }
}

/// Something created in a directory keeps the tree whole.
proof fn lemma_tree_insert(m: Map<Seq<Seq<char>>, NodeModel>, p: Seq<Seq<char>>, node: NodeModel)
    requires
        tree(m),
        has_parent(m, p),
        m.dom().contains(p) ==> !dir_at(m, p),
    ensures
        tree(m.insert(p, node)),
{
    let after = m.insert(p, node);
    assert forall|q: Seq<Seq<char>>| #[trigger] after.dom().contains(q) implies q.len() > 0
        && dir_at(after, q.drop_last()) by {
        if q != p {
            assert(m.dom().contains(q));
            if q.drop_last() == p && p.len() > 0 {
                assert(dir_at(m, p));
            }
        } else {
            assert(p.drop_last().len() < p.len());
        }
    }
}

/// Taking a whole subtree away keeps the tree whole.
proof fn lemma_tree_without(m: Map<Seq<Seq<char>>, NodeModel>, p: Seq<Seq<char>>)
    requires
        tree(m),
        p.len() > 0,
    ensures
        tree(without(m, p)),
{
    let after = without(m, p);
    assert forall|q: Seq<Seq<char>>| #[trigger] after.dom().contains(q) implies q.len() > 0
        && dir_at(after, q.drop_last()) by {
        assert(m.dom().contains(q));
        let up = q.drop_last();
        if up.len() > 0 {
            assert(m.dom().contains(up));
            if p.is_prefix_of(up) {
                assert(p =~= q.subrange(0, p.len() as int));
            }
        }
    }
}

/// `e` occurs at or after position `from`.
spec fn occurs(entries: Seq<Entry>, e: Entry, from: int) -> bool {
    exists|j: int| from <= j < entries.len() && #[trigger] entries[j] == e
}

/// `kept` holds the entries from position `from` on that do not lie at or below `p`.
spec fn spared(before: Seq<Entry>, kept: Seq<Entry>, p: Seq<Seq<char>>, from: int) -> bool {
    &&& distinct(kept)
    &&& forall|i: int|
        0 <= i < kept.len() ==> !p.is_prefix_of(path_of(#[trigger] kept[i])) && occurs(
            before,
            kept[i],
            from,
        )
    &&& forall|j: int|
        from <= j < before.len() && !p.is_prefix_of(path_of(#[trigger] before[j])) ==> occurs(
            kept,
            before[j],
            0,
        )
}

proof fn lemma_spare(before: Seq<Entry>, kept: Seq<Entry>, p: Seq<Seq<char>>, from: int)
    requires
        distinct(before),
        0 < from <= before.len(),
        spared(before, kept, p, from),
    ensures
        p.is_prefix_of(path_of(before[from - 1])) ==> spared(before, kept, p, from - 1),
        !p.is_prefix_of(path_of(before[from - 1])) ==> spared(
            before,
            kept.push(before[from - 1]),
            p,
            from - 1,
        ),
{
    let e = before[from - 1];
    let after = if p.is_prefix_of(path_of(e)) {
        kept
    } else {
        kept.push(e)
    };
    assert forall|a: int, b: int|
        #![trigger after[a], after[b]]
        0 <= a < b < after.len() implies path_of(after[a]) != path_of(after[b]) by {
        if b == kept.len() {
            assert(occurs(before, kept[a], from));
            let j = choose|j: int| from <= j < before.len() && #[trigger] before[j] == kept[a];
            assert(path_of(before[from - 1]) != path_of(before[j]));
        } else {
            assert(path_of(kept[a]) != path_of(kept[b]));
        }
    }
    assert forall|i: int| 0 <= i < after.len() implies !p.is_prefix_of(
        path_of(#[trigger] after[i]),
    ) && occurs(before, after[i], from - 1) by {
        if i < kept.len() {
            assert(after[i] == kept[i]);
            assert(occurs(before, kept[i], from));
        } else {
            assert(before[from - 1] == after[i]);
        }
    }
    assert forall|j: int|
        from - 1 <= j < before.len() && !p.is_prefix_of(path_of(#[trigger] before[j])) implies occurs(
        after,
        before[j],
        0,
    ) by {
        if j == from - 1 {
            assert(after[kept.len() as int] == before[j]);
        } else {
            assert(occurs(kept, before[j], 0));
            let i = choose|i: int| 0 <= i < kept.len() && #[trigger] kept[i] == before[j];
            assert(after[i] == before[j]);
        }
    }
}

proof fn lemma_spared(before: Seq<Entry>, kept: Seq<Entry>, p: Seq<Seq<char>>)
    requires
        distinct(before),
        spared(before, kept, p, 0),
    ensures
        map_of(kept) == without(map_of(before), p),
{
    let want = without(map_of(before), p);
    let got = map_of(kept);
    assert forall|q: Seq<Seq<char>>| got.dom().contains(q) == want.dom().contains(q) by {
        if got.dom().contains(q) {
            let i = choose|i: int| holds(kept, q, i);
            assert(occurs(before, kept[i], 0));
            let j = choose|j: int| 0 <= j < before.len() && #[trigger] before[j] == kept[i];
            lemma_entry(before, j);
        }
        if want.dom().contains(q) {
            let j = choose|j: int| holds(before, q, j);
            assert(occurs(kept, before[j], 0));
            let i = choose|i: int| 0 <= i < kept.len() && #[trigger] kept[i] == before[j];
            assert(holds(kept, q, i));
        }
    }
    assert forall|q: Seq<Seq<char>>| got.dom().contains(q) implies got[q] == want[q] by {
        let i = choose|i: int| holds(kept, q, i);
        assert(occurs(before, kept[i], 0));
        let j = choose|j: int| 0 <= j < before.len() && #[trigger] before[j] == kept[i];
        lemma_entry(before, j);
        lemma_entry(kept, i);
    }
    assert(got =~= want);
}

/// Drops the entries at and below `path`.
fn drop_below(entries: &mut Vec<Entry>, path: &Vec<Vec<char>>)
    requires
        distinct(old(entries)@),
    ensures
        distinct(final(entries)@),
        map_of(final(entries)@) == without(map_of(old(entries)@), text::words_view(path@)),
{
    let ghost before = entries@;
    let ghost p = text::words_view(path@);
    let mut kept: Vec<Entry> = Vec::new();
    while entries.len() > 0
        invariant
            distinct(before),
            p == text::words_view(path@),
            entries@.len() <= before.len(),
            entries@ =~= before.take(entries@.len() as int),
            spared(before, kept@, p, entries@.len() as int),
        decreases entries@.len(),
    {
        proof {
            lemma_spare(before, kept@, p, entries@.len() as int);
        }
        if let Some(e) = entries.pop() {
            if !is_below(&e, path) {
                kept.push(e);
            }
        }
    }
    proof {
        lemma_spared(before, kept@, p);
    }
    std::mem::swap(entries, &mut kept);
}

/// Of two different names one comes before the other.
proof fn lemma_before_total(a: Seq<char>, b: Seq<char>)
    requires
        a != b,
    ensures
        name_before(a, b) || name_before(b, a),
    decreases a.len(),
{
    if a.len() > 0 && b.len() > 0 && a[0] == b[0] {
        if a.drop_first() == b.drop_first() {
            assert(a =~= seq![a[0]] + a.drop_first());
            assert(b =~= seq![b[0]] + b.drop_first());
        }
        lemma_before_total(a.drop_first(), b.drop_first());
    } else if a.len() == 0 && b.len() == 0 {
        assert(a =~= b);
    } else if a.len() > 0 && b.len() > 0 {
        vstd::utf8::char_u32_cast(a[0], a[0] as u32);
        vstd::utf8::char_u32_cast(b[0], b[0] as u32);
    }
}

proof fn lemma_before_transitive(a: Seq<char>, b: Seq<char>, c: Seq<char>)
    requires
        name_before(a, b),
        name_before(b, c),
    ensures
        name_before(a, c),
    decreases a.len(),
{
    if a.len() > 0 && b.len() > 0 && c.len() > 0 && a[0] == b[0] && b[0] == c[0] {
        lemma_before_transitive(a.drop_first(), b.drop_first(), c.drop_first());
    }
}

/// Whether `a` comes before `b`.
fn comes_before(a: &Vec<char>, b: &Vec<char>) -> (yes: bool)
    ensures
        yes == name_before(a@, b@),
{
    let mut i: usize = 0;
    assert(a@.skip(0) =~= a@ && b@.skip(0) =~= b@);
    while i < a.len() && i < b.len()
        invariant
            i <= a@.len(),
            i <= b@.len(),
            name_before(a@, b@) == name_before(a@.skip(i as int), b@.skip(i as int)),
        decreases a@.len() - i,
    {
        assert(a@.skip(i as int)[0] == a@[i as int] && b@.skip(i as int)[0] == b@[i as int]);
        if a[i] != b[i] {
            return (a[i] as u32) < (b[i] as u32);
        }
        assert(a@.skip(i as int).drop_first() =~= a@.skip(i + 1));
        assert(b@.skip(i as int).drop_first() =~= b@.skip(i + 1));
        i = i + 1;
    }
    i < b.len()
}

/// Names with whether they are directories, over sequences.
spec fn names_view(names: Seq<(Vec<char>, bool)>) -> Seq<(Seq<char>, bool)> {
    Seq::new(names.len(), |i: int| (names[i].0@, names[i].1))
}

/// The names come in order.
spec fn ordered(names: Seq<(Seq<char>, bool)>) -> bool {
    forall|i: int, j: int|
        #![trigger names[i], names[j]]
        0 <= i < j < names.len() ==> name_before(names[i].0, names[j].0)
}

/// Puts a new name in its place.
fn insert_name(names: &mut Vec<(Vec<char>, bool)>, name: Vec<char>, is_dir: bool)
    requires
        ordered(names_view(old(names)@)),
        forall|i: int| 0 <= i < old(names)@.len() ==> (#[trigger] old(names)@[i]).0@ != name@,
    ensures
        ordered(names_view(final(names)@)),
        exists|at: int|
            0 <= at <= old(names)@.len() && names_view(final(names)@) == #[trigger] names_view(
                old(names)@,
            ).insert(at, (name@, is_dir)),
{
    let ghost before = names_view(names@);
    let ghost item = (name@, is_dir);
    let mut at: usize = 0;
    while at < names.len() && comes_before(&names[at].0, &name)
        invariant
            at <= names@.len(),
            before == names_view(names@),
            item == (name@, is_dir),
            forall|j: int| 0 <= j < at ==> name_before((#[trigger] before[j]).0, item.0),
        decreases names@.len() - at,
    {
        assert(before[at as int].0 == names@[at as int].0@);
        at = at + 1;
    }
    proof {
        let after = before.insert(at as int, item);
        if at < names@.len() {
            assert(before[at as int].0 == names@[at as int].0@);
            lemma_before_total(before[at as int].0, item.0);
        }
        assert forall|i: int, j: int|
            #![trigger after[i], after[j]]
            0 <= i < j < after.len() implies name_before(after[i].0, after[j].0) by {
            if i < at && j == at {
                assert(after[i] == before[i]);
            } else if i == at && j > at {
                assert(after[j] == before[j - 1]);
                if j - 1 > at {
                    assert(name_before(before[at as int].0, before[j - 1].0));
                    lemma_before_transitive(item.0, before[at as int].0, before[j - 1].0);
                }
            } else {
                let i0 = if i < at {
                    i
                } else {
                    i - 1
                };
                let j0 = if j < at {
                    j
                } else {
                    j - 1
                };
                assert(after[i] == before[i0] && after[j] == before[j0]);
            }
        }
    }
    names.insert(at, (name, is_dir));
    assert(names_view(names@) =~= before.insert(at as int, item));
}

/// Whether entry `e` lies directly in the directory `p`.
spec fn child_of(e: Entry, p: Seq<Seq<char>>) -> bool {
    path_of(e).len() == p.len() + 1 && p.is_prefix_of(path_of(e))
}

proof fn lemma_child(e: Entry, p: Seq<Seq<char>>)
    ensures
        child_of(e, p) <==> path_of(e).len() > 0 && path_of(e) == p.push(path_of(e).last()),
{
    let q = path_of(e);
    if child_of(e, p) {
        assert(q =~= p.push(q.last()));
    }
    if q.len() > 0 && q == p.push(q.last()) {
        assert(p =~= q.subrange(0, p.len() as int));
    }
}

/// Entry `e` is that of the name `item` in the directory `p`.
spec fn entry_of(e: Entry, p: Seq<Seq<char>>, item: (Seq<char>, bool)) -> bool {
    path_of(e) == p.push(item.0) && item.1 == (e.node@ is Dir)
}

/// One of the first `n` entries is that of the name `item`.
spec fn has_entry(entries: Seq<Entry>, p: Seq<Seq<char>>, item: (Seq<char>, bool), n: int) -> bool {
    exists|j: int| 0 <= j < n && entry_of(#[trigger] entries[j], p, item)
}

/// `name` is among the names.
spec fn has_name(names: Seq<(Seq<char>, bool)>, name: Seq<char>) -> bool {
    exists|k: int| 0 <= k < names.len() && (#[trigger] names[k]).0 == name
}

/// The names found among the first `n` entries are those of the children of `p` there.
spec fn collected(
    entries: Seq<Entry>,
    p: Seq<Seq<char>>,
    names: Seq<(Seq<char>, bool)>,
    n: int,
) -> bool {
    &&& ordered(names)
    &&& forall|k: int| 0 <= k < names.len() ==> has_entry(entries, p, #[trigger] names[k], n)
    &&& forall|j: int|
        0 <= j < n && child_of(#[trigger] entries[j], p) ==> has_name(
            names,
            path_of(entries[j]).last(),
        )
}

proof fn lemma_collect(
    entries: Seq<Entry>,
    p: Seq<Seq<char>>,
    before: Seq<(Seq<char>, bool)>,
    at: int,
    item: (Seq<char>, bool),
    n: int,
)
    requires
        0 <= n < entries.len(),
        collected(entries, p, before, n),
        entry_of(entries[n], p, item),
        0 <= at <= before.len(),
        ordered(before.insert(at, item)),
    ensures
        collected(entries, p, before.insert(at, item), n + 1),
{
    let after = before.insert(at, item);
    assert(after[at] == item);
    assert(path_of(entries[n]).last() == item.0);
    assert forall|k: int| 0 <= k < after.len() implies has_entry(
        entries,
        p,
        #[trigger] after[k],
        n + 1,
    ) by {
        if k != at {
            let k0 = if k < at {
                k
            } else {
                k - 1
            };
            assert(after[k] == before[k0]);
            assert(has_entry(entries, p, before[k0], n));
        }
    }
    assert forall|j: int| 0 <= j < n + 1 && child_of(#[trigger] entries[j], p) implies has_name(
        after,
        path_of(entries[j]).last(),
    ) by {
        if j < n {
            let name = path_of(entries[j]).last();
            assert(has_name(before, name));
            let k = choose|k: int| 0 <= k < before.len() && (#[trigger] before[k]).0 == name;
            if k < at {
                assert(after[k] == before[k]);
            } else {
                assert(after[k + 1] == before[k]);
            }
        }
    }
}

/// Lists the directory `path`.
fn list_children(entries: &Vec<Entry>, path: &Vec<Vec<char>>) -> (out: Vec<(String, bool)>)
    requires
        distinct(entries@),
    ensures
        lists_dir(map_of(entries@), text::words_view(path@), fs::listing_view(out@)),
{
    let ghost p = text::words_view(path@);
    let mut names: Vec<(Vec<char>, bool)> = Vec::new();
    let mut i: usize = 0;
    while i < entries.len()
        invariant
            i <= entries@.len(),
            distinct(entries@),
            p == text::words_view(path@),
            collected(entries@, p, names_view(names@), i as int),
        decreases entries@.len() - i,
    {
        let e: &Entry = &entries[i];
        let ghost before = names_view(names@);
        assert(p.len() == path@.len() && path_of(*e).len() == e.path@.len());
        if e.path.len() > 0 && e.path.len() - 1 == path.len() && is_below(e, path) {
            let name: Vec<char> = copy_of(&e.path[e.path.len() - 1]);
            let is_dir: bool = match e.node {
                Node::File(_) => false,
                Node::Dir => true,
            };
            assert(name@ == path_of(*e).last());
            assert forall|k: int| 0 <= k < names@.len() implies (#[trigger] names@[k]).0@
                != name@ by {
                assert(before[k].0 == names@[k].0@);
                assert(has_entry(entries@, p, before[k], i as int));
                let j = choose|j: int| 0 <= j < i && entry_of(#[trigger] entries@[j], p, before[k]);
                lemma_child(*e, p);
                assert(path_of(entries@[j]) != path_of(entries@[i as int]));
            }
            insert_name(&mut names, name, is_dir);
            proof {
                let item = (path_of(*e).last(), e.node@ is Dir);
                let at = choose|at: int|
                    0 <= at <= before.len() && names_view(names@) == #[trigger] before.insert(
                        at,
                        item,
                    );
                lemma_child(*e, p);
                lemma_collect(entries@, p, before, at, item, i as int);
            }
        }
        i = i + 1;
    }
    let ghost view = names_view(names@);
    let mut out: Vec<(String, bool)> = Vec::new();
    let mut k: usize = 0;
    while k < names.len()
        invariant
            k <= names@.len(),
            out@.len() == k,
            view == names_view(names@),
            fs::listing_view(out@) =~= view.take(k as int),
        decreases names@.len() - k,
    {
        let ghost before = fs::listing_view(out@);
        let name: String = string_of(&names[k].0);
        let ghost item = (name@, names@[k as int].1);
        out.push((name, names[k].1));
        assert(fs::listing_view(out@) =~= before.push(item));
        k = k + 1;
    }
    proof {
        let m = map_of(entries@);
        assert(view.take(k as int) =~= view);
        assert forall|i: int| 0 <= i < view.len() implies #[trigger] node_at(m, p.push(view[i].0)) is Some
            && view[i].1 == dir_at(m, p.push(view[i].0)) by {
            assert(has_entry(entries@, p, view[i], entries@.len() as int));
            let j = choose|j: int|
                0 <= j < entries@.len() && entry_of(#[trigger] entries@[j], p, view[i]);
            lemma_entry(entries@, j);
        }
        assert forall|name: Seq<char>| #[trigger] m.dom().contains(p.push(name)) implies exists|
            i: int,
        |
            0 <= i < view.len() && (#[trigger] view[i]).0 == name by {
            let j = choose|j: int| holds(entries@, p.push(name), j);
            assert(path_of(entries@[j]).last() == name);
            lemma_child(entries@[j], p);
            assert(has_name(view, name));
        }
    }
    out
}

/// A file reads back as it was written, whatever was there before, and every other path leads to
/// what it led to.
pub proof fn written_file_reads_back(
    m: Map<Seq<Seq<char>>, NodeModel>,
    p: Seq<Seq<char>>,
    data: Seq<u8>,
    other: Seq<Seq<char>>,
)
    requires
        written(m, p, data).1 is Ok,
        other != p,
    ensures
        content(written(m, p, data).0, p) == Ok::<Seq<u8>, FsError>(data),
        node_at(written(m, p, data).0, other) == node_at(m, other),
{
}

/// A directory exists once it has been made, is empty if the tree was whole, cannot be made
/// again, and every other path leads to what it led to.
pub proof fn made_directory_exists(
    m: Map<Seq<Seq<char>>, NodeModel>,
    p: Seq<Seq<char>>,
    name: Seq<char>,
    other: Seq<Seq<char>>,
)
    requires
        tree(m),
        made(m, p).1 is Ok,
        other != p,
    ensures
        dir_at(made(m, p).0, p),
        node_at(made(m, p).0, p.push(name)) is None,
        made(made(m, p).0, p).1 == Err::<(), FsError>(FsError::Exists),
        node_at(made(m, p).0, other) == node_at(m, other),
{
    let q = p.push(name);
    assert(q.drop_last() =~= p);
    assert(q.len() != p.len());
    if m.dom().contains(q) {
        assert(dir_at(m, q.drop_last()));
    }
    assert(p.drop_last().len() < p.len());
}

/// What has been removed is gone with everything below it, and every path elsewhere leads to
/// what it led to.
pub proof fn removed_subtree_is_gone(
    m: Map<Seq<Seq<char>>, NodeModel>,
    p: Seq<Seq<char>>,
    q: Seq<Seq<char>>,
)
    requires
        removed(m, p).1 is Ok,
    ensures
        p.is_prefix_of(q) ==> node_at(removed(m, p).0, q) is None,
        !p.is_prefix_of(q) ==> node_at(removed(m, p).0, q) == node_at(m, q),
{
}

/// The root is always there: it cannot be made, written, read as a file or removed.
pub proof fn root_is_fixed(m: Map<Seq<Seq<char>>, NodeModel>, data: Seq<u8>)
    ensures
        ({
            let root = Seq::<Seq<char>>::empty();
            &&& dir_at(m, root)
            &&& made(m, root) == (m, Err::<(), FsError>(FsError::NotFound))
            &&& written(m, root, data) == (m, Err::<(), FsError>(FsError::NotFound))
            &&& content(m, root) == Err::<Seq<u8>, FsError>(FsError::IsDir)
            &&& removed(m, root) == (m, Err::<(), FsError>(FsError::NotFound))
        }),
{
}

} // verus!
