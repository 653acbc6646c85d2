//! The volume as a filesystem: what paths lead to on it.

use vstd::prelude::*;

use crate::fat::bpb;
use crate::fat::bpb::FatError;
use crate::fat::dir;
use crate::fat::laws::files;
use crate::fat::volume;
use crate::fat::volume::{Fat, FatModel};
use crate::fs;
use crate::fs::{FileSystem, FsError};

verus! {

/// What is written under a name of the volume is what is read under it afterwards. The name must
/// not end in a dot, and the size must fit an entry.
pub proof fn written_file_is_read(m: FatModel, name: Seq<char>, data: Seq<u8>)
    requires
        files::sound(m.disk, m.bpb),
        name.len() > 0,
        !name.contains('/'),
        name.last() != '.',
        data.len() <= u32::MAX,
        Fat::writing(m, seq!['/'] + name, data).1 is Ok,
    ensures
        Fat::reading(Fat::writing(m, seq!['/'] + name, data).0, seq!['/'] + name) == Ok::<
            Seq<u8>,
            FsError,
        >(data),
        Fat::writing(m, seq!['/'] + name, data).0.bpb == m.bpb,
{
    fs::laws::names_lead_down(name, name);
    files::written_file_reads_back(m.disk, m.bpb, name, data);
}

/// A path with one name leads to the file or the subdirectory of that name, that without a name
/// to the root directory. The root can be listed and not read or written; what lies deeper, and
/// making and removing, are not supported. Nothing that fails for such a reason changes anything.
pub proof fn paths_lead_into_the_root(
    m: FatModel,
    path: Seq<char>,
    name: Seq<char>,
    data: Seq<u8>,
    r: Result<Seq<(Seq<char>, bool)>, FsError>,
)
    requires
        Fat::lists(m, path, r),
    ensures
        ({
            let p = fs::path_components(path);
            let (after, written) = Fat::writing(m, path, data);
            &&& p.len() == 0 ==> Fat::reading(m, path) == Err::<Seq<u8>, FsError>(FsError::IsDir)
                && after == m && written == Err::<(), FsError>(FsError::IsDir)
                && Fat::names_dir(m, path) == Ok::<bool, FsError>(true)
            &&& p.len() == 0 ==> (dir::listed(m.disk, m.bpb, 0) matches Ok(out) ==> r == Ok::<
                Seq<(Seq<char>, bool)>,
                FsError,
            >(out))
            &&& p.len() > 0 ==> r == Err::<Seq<(Seq<char>, bool)>, FsError>(FsError::Unsupported)
            &&& p == seq![name] ==> {
                &&& volume::file_read(m.disk, m.bpb, name) matches Ok(d) ==> Fat::reading(m, path)
                    == Ok::<Seq<u8>, FsError>(d)
                &&& volume::file_read(m.disk, m.bpb, name) == Err::<Seq<u8>, FatError>(
                    FatError::NotFound,
                ) ==> Fat::reading(m, path) == Err::<Seq<u8>, FsError>(FsError::NotFound)
                &&& volume::file_read(m.disk, m.bpb, name) == Err::<Seq<u8>, FatError>(
                    FatError::IsDirectory,
                ) ==> Fat::reading(m, path) == Err::<Seq<u8>, FsError>(FsError::IsDir)
                &&& after.disk == volume::file_written(m.disk, m.bpb, name, data).0 && after.bpb
                    == m.bpb
                &&& written is Ok <==> volume::file_written(m.disk, m.bpb, name, data).1 is Ok
            }
            &&& p.len() > 1 ==> Fat::reading(m, path) == Err::<Seq<u8>, FsError>(
                FsError::Unsupported,
            ) && after == m && written == Err::<(), FsError>(FsError::Unsupported)
                && Fat::names_dir(m, path) == Ok::<bool, FsError>(false)
            &&& Fat::making(m, path) == (m, Err::<(), FsError>(FsError::Unsupported))
            &&& Fat::removing(m, path) == (m, Err::<(), FsError>(FsError::Unsupported))
        }),
{
}

/// A sector that has not been fetched is asked for, whatever needs it; other faults of the volume
/// are told apart where a caller can do something about them.
pub proof fn faults_are_told(lba: u32)
    ensures
        bpb::fs_error(FatError::NotLoaded(lba)) == FsError::NotLoaded(lba),
        bpb::fs_error(FatError::NotFound) == FsError::NotFound,
        bpb::fs_error(FatError::IsDirectory) == FsError::IsDir,
        bpb::fs_error(FatError::NoSpace) == FsError::Io,
        bpb::fs_error(FatError::BadChain) == FsError::Io,
        bpb::fs_error(FatError::InvalidName) == FsError::Io,
{
}

} // verus!
