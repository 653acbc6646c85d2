//! Files and directories: the interface that every filesystem offers, and the tree of paths that
//! joins the in-memory filesystem with a mounted volume.

use vstd::prelude::*;

use crate::fs::ram::RamFs;
use crate::text;
use crate::text::{chars_of, slice_of, split_words, string_of};

pub mod laws;
pub mod ram;

verus! {

/// What can go wrong with a filesystem operation.
#[derive(Clone, Copy, Debug, PartialEq, Eq, Structural)]
pub enum FsError {
    /// A path component, or the target, does not exist.
    NotFound,
    /// The name is already taken.
    Exists,
    /// A file was expected and a directory found.
    IsDir,
    /// A directory was expected and a file found.
    NotDir,
    /// The filesystem does not support the operation.
    Unsupported,
    /// The device failed, or what is stored on it makes no sense.
    Io,
    /// The sector with this number has not been fetched from the device yet. Once it has been,
    /// the operation can be tried again.
    NotLoaded(u32),
}

/// The message for an error.
pub open spec fn message(e: FsError) -> Seq<char> {
    match e {
        FsError::NotFound => "no such file or directory"@,
        FsError::Exists => "already exists"@,
        FsError::IsDir => "is a directory"@,
        FsError::NotDir => "not a directory"@,
        FsError::Unsupported => "operation not supported"@,
        FsError::Io => "input/output error"@,
        FsError::NotLoaded(_) => "sector not loaded"@,
    }
}

impl FsError {
    /// A short message that names the error.
    pub fn as_str(self) -> (s: &'static str)
        ensures
            s@ == message(self),
    {
        match self {
            FsError::NotFound => "no such file or directory",
            FsError::Exists => "already exists",
            FsError::IsDir => "is a directory",
            FsError::NotDir => "not a directory",
            FsError::Unsupported => "operation not supported",
            FsError::Io => "input/output error",
            FsError::NotLoaded(_) => "sector not loaded",
        }
    }
}

/// The components of a path: its non-empty parts between slashes.
pub open spec fn path_components(path: Seq<char>) -> Seq<Seq<char>> {
    text::words(path, '/')
}

/// The components of a path, so that `/`, `/a`, `/a/` and `//a` all behave sensibly.
pub fn components(path: &str) -> (out: Vec<Vec<char>>)
    ensures
        text::words_view(out@) == path_components(path@),
{
    split_words(&chars_of(path), '/')
}

/// The entries of a directory listing: names, each with whether it is a directory.
pub open spec fn listing_view(entries: Seq<(String, bool)>) -> Seq<(Seq<char>, bool)> {
    Seq::new(entries.len(), |i: int| (entries[i].0@, entries[i].1))
}

/// The outcome of a listing, over sequences.
pub open spec fn list_view(r: Result<Vec<(String, bool)>, FsError>) -> Result<
    Seq<(Seq<char>, bool)>,
    FsError,
> {
    match r {
        Ok(entries) => Ok(listing_view(entries@)),
        Err(e) => Err(e),
    }
}

/// The outcome of reading a file, over sequences.
pub open spec fn read_view(r: Result<Vec<u8>, FsError>) -> Result<Seq<u8>, FsError> {
    match r {
        Ok(data) => Ok(data@),
        Err(e) => Err(e),
    }
}

/// What every filesystem offers, wherever its bytes live. Paths are separated by `/` and start
/// at the filesystem's own root.
pub trait FileSystem: Sized {
    /// The state of the filesystem.
    type Model;

    /// The state of this filesystem.
    spec fn model(&self) -> Self::Model;

    /// What holds of the filesystem between any two operations.
    spec fn ok(&self) -> bool;

    /// Whether files can be written at all.
    spec fn writable(&self) -> bool;

    /// What making a directory does.
    spec fn making(m: Self::Model, path: Seq<char>) -> (Self::Model, Result<(), FsError>);

    /// What writing a file does.
    spec fn writing(m: Self::Model, path: Seq<char>, data: Seq<u8>) -> (
        Self::Model,
        Result<(), FsError>,
    );

    /// What reading a file gives.
    spec fn reading(m: Self::Model, path: Seq<char>) -> Result<Seq<u8>, FsError>;

    /// Whether `r` is what listing a directory gives.
    spec fn lists(m: Self::Model, path: Seq<char>, r: Result<Seq<(Seq<char>, bool)>, FsError>) -> bool;

    /// What removing a file or directory does.
    spec fn removing(m: Self::Model, path: Seq<char>) -> (Self::Model, Result<(), FsError>);

    /// Whether a path names a directory, or what keeps that from being known.
    spec fn names_dir(m: Self::Model, path: Seq<char>) -> Result<bool, FsError>;

    /// Creates an empty directory at `path`.
    fn mkdir(&mut self, path: &str) -> (r: Result<(), FsError>)
        requires
            old(self).ok(),
        ensures
            final(self).ok(),
            final(self).writable() == old(self).writable(),
            (final(self).model(), r) == Self::making(old(self).model(), path@),
    ;

    /// Creates or overwrites the file at `path`.
    fn write(&mut self, path: &str, data: &[u8]) -> (r: Result<(), FsError>)
        requires
            old(self).ok(),
            old(self).writable(),
        ensures
            final(self).ok(),
            final(self).writable() == old(self).writable(),
            (final(self).model(), r) == Self::writing(old(self).model(), path@, data@),
    ;

    /// Reads the file at `path`.
    fn read(&self, path: &str) -> (r: Result<Vec<u8>, FsError>)
        requires
            self.ok(),
        ensures
            read_view(r) == Self::reading(self.model(), path@),
    ;

    /// Lists the directory at `path` as names, each with whether it is a directory.
    fn list(&self, path: &str) -> (r: Result<Vec<(String, bool)>, FsError>)
        requires
            self.ok(),
        ensures
            Self::lists(self.model(), path@, list_view(r)),
    ;

    /// Removes the file or directory at `path`.
    fn remove(&mut self, path: &str) -> (r: Result<(), FsError>)
        requires
            old(self).ok(),
        ensures
            final(self).ok(),
            final(self).writable() == old(self).writable(),
            (final(self).model(), r) == Self::removing(old(self).model(), path@),
    ;

    /// Whether `path` names an existing directory.
    fn is_dir(&self, path: &str) -> (r: Result<bool, FsError>)
        requires
            self.ok(),
        ensures
            r == Self::names_dir(self.model(), path@),
    ;
}

/// Where the mounted volume appears among the paths.
pub const MOUNT_POINT: &'static str = "/mnt";

/// The tree of paths: an in-memory filesystem with, perhaps, a volume mounted at
/// [`MOUNT_POINT`].
pub struct Vfs<F: FileSystem> {
    pub root: RamFs,
    pub mounted: Option<F>,
}

impl<F: FileSystem> Vfs<F> {
    /// What holds of the tree between any two operations.
    pub open spec fn ok(&self) -> bool {
        self.root.ok() && (self.mounted matches Some(f) ==> f.ok())
    }

    /// Whether files can be written at `path`.
    pub open spec fn writable(&self, path: Seq<char>) -> bool {
        served(self, path) is Some ==> self.mounted.unwrap().writable()
    }

    /// An empty tree with nothing mounted.
    pub fn new() -> (vfs: Vfs<F>)
        ensures
            vfs.ok(),
            vfs.mounted is None,
            vfs.root.model() == Map::<Seq<Seq<char>>, ram::NodeModel>::empty(),
    {
        Vfs { root: RamFs::new(), mounted: None }
    }
}

/// The path within the mounted volume that `path` stands for: nothing unless it is the mount
/// point or leads below it.
pub open spec fn subpath(path: Seq<char>) -> Option<Seq<char>> {
    if !MOUNT_POINT@.is_prefix_of(path) {
        None
    } else {
        let rest = path.skip(MOUNT_POINT@.len() as int);
        if rest.len() == 0 {
            Some(seq!['/'])
        } else if rest[0] == '/' {
            Some(rest)
        } else {
            None
        }
    }
}

/// The path within the mounted volume that serves `path`; `None` if the in-memory filesystem
/// serves it.
pub open spec fn served<F: FileSystem>(vfs: &Vfs<F>, path: Seq<char>) -> Option<Seq<char>> {
    if vfs.mounted is Some {
        subpath(path)
    } else {
        None
    }
}

/// The path within the mounted volume that `path` stands for.
fn mount_subpath(path: &str) -> (sub: Option<String>)
    ensures
        match sub {
            Some(s) => subpath(path@) == Some(s@),
            None => subpath(path@) is None,
        },
{
    let chars: Vec<char> = chars_of(path);
    let point: Vec<char> = chars_of(MOUNT_POINT);
    let n: usize = point.len();
    if chars.len() < n {
        return None;
    }
    let mut i: usize = 0;
    while i < n
        invariant
            i <= n,
            n == point@.len(),
            n <= chars@.len(),
            forall|j: int| 0 <= j < i ==> point@[j] == chars@[j],
            point@ == MOUNT_POINT@,
            chars@ == path@,
        decreases n - i,
    {
        if chars[i] != point[i] {
            assert(path@.subrange(0, n as int)[i as int] == chars@[i as int]);
            return None;
        }
        i = i + 1;
    }
    assert(MOUNT_POINT@ =~= path@.subrange(0, n as int));
    if chars.len() == n {
        let mut root: String = String::new();
        root.push('/');
        assert(root@ =~= seq!['/']);
        return Some(root);
    }
    if chars[n] != '/' {
        return None;
    }
    let rest: Vec<char> = slice_of(&chars, n, chars.len());
    assert(rest@ =~= path@.skip(n as int));
    Some(string_of(&rest))
}

/// Mounts `filesystem` in place of what was mounted before, and makes sure that the mount point
/// exists.
pub fn mount<F: FileSystem>(vfs: &mut Vfs<F>, filesystem: F)
    requires
        old(vfs).ok(),
        filesystem.ok(),
    ensures
        final(vfs).ok(),
        final(vfs).mounted == Some(filesystem),
        final(vfs).root.model() == RamFs::making(old(vfs).root.model(), MOUNT_POINT@).0,
{
    // The mount point may well exist already.
    let _made: Result<(), FsError> = vfs.root.mkdir(MOUNT_POINT);
    vfs.mounted = Some(filesystem);
}

/// Creates an empty directory at `path`.
pub fn mkdir<F: FileSystem>(vfs: &mut Vfs<F>, path: &str) -> (r: Result<(), FsError>)
    requires
        old(vfs).ok(),
    ensures
        final(vfs).ok(),
        match served(old(vfs), path@) {
            Some(sub) => final(vfs).root == old(vfs).root && final(vfs).mounted is Some && (
                final(vfs).mounted.unwrap().model(),
                r,
            ) == F::making(old(vfs).mounted.unwrap().model(), sub),
            None => final(vfs).mounted == old(vfs).mounted && (final(vfs).root.model(), r)
                == RamFs::making(old(vfs).root.model(), path@),
        },
{
    if let Some(sub) = mount_subpath(path) {
        if let Some(f) = &mut vfs.mounted {
            return f.mkdir(sub.as_str());
        }
    }
    vfs.root.mkdir(path)
}

/// Creates or overwrites the file at `path`.
pub fn write<F: FileSystem>(vfs: &mut Vfs<F>, path: &str, data: &[u8]) -> (r: Result<(), FsError>)
    requires
        old(vfs).ok(),
        old(vfs).writable(path@),
    ensures
        final(vfs).ok(),
        match served(old(vfs), path@) {
            Some(sub) => final(vfs).root == old(vfs).root && final(vfs).mounted is Some && (
                final(vfs).mounted.unwrap().model(),
                r,
            ) == F::writing(old(vfs).mounted.unwrap().model(), sub, data@),
            None => final(vfs).mounted == old(vfs).mounted && (final(vfs).root.model(), r)
                == RamFs::writing(old(vfs).root.model(), path@, data@),
        },
{
    if let Some(sub) = mount_subpath(path) {
        if let Some(f) = &mut vfs.mounted {
            return f.write(sub.as_str(), data);
        }
    }
    vfs.root.write(path, data)
}

/// Reads the file at `path`.
pub fn read<F: FileSystem>(vfs: &Vfs<F>, path: &str) -> (r: Result<Vec<u8>, FsError>)
    requires
        vfs.ok(),
    ensures
        read_view(r) == match served(vfs, path@) {
            Some(sub) => F::reading(vfs.mounted.unwrap().model(), sub),
            None => RamFs::reading(vfs.root.model(), path@),
        },
{
    if let Some(sub) = mount_subpath(path) {
        if let Some(f) = &vfs.mounted {
            return f.read(sub.as_str());
        }
    }
    vfs.root.read(path)
}

/// Lists the directory at `path` as names, each with whether it is a directory.
pub fn list<F: FileSystem>(vfs: &Vfs<F>, path: &str) -> (r: Result<Vec<(String, bool)>, FsError>)
    requires
        vfs.ok(),
    ensures
        match served(vfs, path@) {
            Some(sub) => F::lists(vfs.mounted.unwrap().model(), sub, list_view(r)),
            None => RamFs::lists(vfs.root.model(), path@, list_view(r)),
        },
{
    if let Some(sub) = mount_subpath(path) {
        if let Some(f) = &vfs.mounted {
            return f.list(sub.as_str());
        }
    }
    vfs.root.list(path)
}

/// Removes the file or directory at `path`.
pub fn remove<F: FileSystem>(vfs: &mut Vfs<F>, path: &str) -> (r: Result<(), FsError>)
    requires
        old(vfs).ok(),
    ensures
        final(vfs).ok(),
        match served(old(vfs), path@) {
            Some(sub) => final(vfs).root == old(vfs).root && final(vfs).mounted is Some && (
                final(vfs).mounted.unwrap().model(),
                r,
            ) == F::removing(old(vfs).mounted.unwrap().model(), sub),
            None => final(vfs).mounted == old(vfs).mounted && (final(vfs).root.model(), r)
                == RamFs::removing(old(vfs).root.model(), path@),
        },
{
    if let Some(sub) = mount_subpath(path) {
        if let Some(f) = &mut vfs.mounted {
            return f.remove(sub.as_str());
        }
    }
    vfs.root.remove(path)
}

/// Whether `path` names an existing directory.
pub fn is_dir<F: FileSystem>(vfs: &Vfs<F>, path: &str) -> (r: Result<
    bool,
    FsError,
>)
    requires
        vfs.ok(),
    ensures
        r == match served(vfs, path@) {
            Some(sub) => F::names_dir(vfs.mounted.unwrap().model(), sub),
            None => RamFs::names_dir(vfs.root.model(), path@),
        },
{
    if let Some(sub) = mount_subpath(path) {
        if let Some(f) = &vfs.mounted {
            return f.is_dir(sub.as_str());
        }
    }
    vfs.root.is_dir(path)
}

/// Nothing outside the mount point is served by the mounted volume, and everything below it is:
/// `/mnt` and `/mnt/x` lead there, `/mntx` does not.
pub proof fn mount_point_is_a_boundary(rest: Seq<char>)
    ensures
        subpath(MOUNT_POINT@) == Some(seq!['/']),
        subpath(MOUNT_POINT@ + seq!['/'] + rest) == Some(seq!['/'] + rest),
        rest.len() > 0 && rest[0] != '/' ==> subpath(MOUNT_POINT@ + rest) is None,
{
    let n = MOUNT_POINT@.len() as int;
    let exact = MOUNT_POINT@;
    assert(exact.subrange(0, n) =~= exact);
    let below = MOUNT_POINT@ + seq!['/'] + rest;
    assert(below.subrange(0, n) =~= MOUNT_POINT@);
    assert(below.skip(n) =~= seq!['/'] + rest);
    let beside = MOUNT_POINT@ + rest;
    assert(beside.subrange(0, n) =~= MOUNT_POINT@);
    assert(beside.skip(n) =~= rest);
}

} // verus!
