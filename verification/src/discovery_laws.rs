//! What is discovered below the upload root.
use vstd::prelude::*;

use crate::error::AppError;
use crate::error::IoError;
use crate::error::IoErrorKind;
use crate::local::LocalPath;
use crate::local::LocalPathView;
use crate::text;
use crate::upload_discovery;
use crate::upload_discovery::EntryKind;
use crate::upload_discovery::FoundDirectory;
use crate::upload_discovery::ObservedDirectory;
use crate::upload_discovery::ObservedFile;
use crate::upload_discovery::UploadDiscovery;
use crate::upload_discovery::UploadObservation;

verus! {

/// The entry of a bucket directory could be read.
pub open spec fn file_read(file: Result<ObservedFile, IoError>) -> bool {
    file matches Ok(file) && file.kind is Ok
}

/// The entry is a regular file, and the first byte of its name is not a dot.
pub open spec fn is_visible(file: Result<ObservedFile, IoError>) -> bool {
    &&& file matches Ok(file)
    &&& file.kind == Ok::<EntryKind, IoError>(EntryKind::File)
    &&& file.name@.len() > 0
    &&& file.name@[0] != 0x2e
}

/// The paths of the visible files among the entries, in the order of the entries.
pub open spec fn visible_paths(files: Seq<Result<ObservedFile, IoError>>) -> Seq<LocalPathView> {
    files.filter(|file: Result<ObservedFile, IoError>| is_visible(file)).map_values(
        |file: Result<ObservedFile, IoError>| file->Ok_0.path@,
    )
}

/// The entry of the upload root is a real directory.
pub open spec fn is_bucket(directory: Result<ObservedDirectory, IoError>) -> bool {
    &&& directory matches Ok(directory)
    &&& directory.kind == Ok::<EntryKind, IoError>(EntryKind::Directory)
}

/// The entry of the upload root could be read, and all its entries too where it is a
/// directory.
pub open spec fn directory_read(directory: Result<ObservedDirectory, IoError>) -> bool {
    &&& directory matches Ok(directory)
    &&& directory.kind is Ok
    &&& directory.kind->Ok_0 == EntryKind::Directory ==> {
        &&& directory.files is Ok
        &&& forall|i: int|
            0 <= i < directory.files->Ok_0@.len() ==> file_read(
                #[trigger] directory.files->Ok_0@[i],
            )
    }
}

/// The upload root is a directory, and everything in it could be read.
pub open spec fn all_read(observation: UploadObservation) -> bool {
    &&& observation.before matches Ok(before) && before.kind == EntryKind::Directory
    &&& observation.directories is Ok
    &&& forall|d: int|
        0 <= d < observation.directories->Ok_0@.len() ==> directory_read(
            #[trigger] observation.directories->Ok_0@[d],
        )
    &&& observation.after is Ok
}

/// The real directories in the upload root, in the order in which they were read.
pub open spec fn buckets_of(directories: Seq<Result<ObservedDirectory, IoError>>) -> Seq<
    Result<ObservedDirectory, IoError>,
> {
    directories.filter(|directory: Result<ObservedDirectory, IoError>| is_bucket(directory))
}

/// The directory is the last one that was read under its path.
pub open spec fn is_last_of_its_path(
    buckets: Seq<Result<ObservedDirectory, IoError>>,
    d: int,
) -> bool {
    &&& 0 <= d < buckets.len()
    &&& forall|e: int|
        d < e < buckets.len() ==> (#[trigger] buckets[e])->Ok_0.path@.bytes
            != buckets[d]->Ok_0.path@.bytes
}

/// The listed directory is the observed one, with all its visible files, each as often
/// as it was observed, and with no others, in the order of the bytes of their paths.
pub open spec fn lists_visible_files(
    directory: Result<ObservedDirectory, IoError>,
    listed: (LocalPath, Vec<LocalPath>),
) -> bool {
    let paths = listed.1@.map_values(|path: LocalPath| path@);
    &&& listed.0@ == directory->Ok_0.path@
    &&& paths.to_multiset() == visible_paths(directory->Ok_0.files->Ok_0@).to_multiset()
    &&& forall|i: int, j: int|
        0 <= i < j < paths.len() ==> !text::bytes_before(
            (#[trigger] paths[j]).bytes,
            (#[trigger] paths[i]).bytes,
        )
}

/// Where everything can be read and the root stays the same, what is discovered are
/// the real directories in the root with their visible files: a regular file is among
/// them if and only if the first byte of its name is not a dot.
pub proof fn every_visible_file_is_discovered(
    observation: UploadObservation,
    discovery: Result<UploadDiscovery, AppError>,
)
    requires
        upload_discovery::discovers(observation, discovery),
        all_read(observation),
        observation.after == observation.before,
    ensures
        discovery is Ok,
        discovery->Ok_0.root_identity == Some(observation.before->Ok_0.identity),
        lists_all(
            buckets_of(observation.directories->Ok_0@),
            discovery->Ok_0.files_by_directory@,
        ),
{
    let directories = observation.directories->Ok_0@;
    read_directories(directories);
    the_last_are_listed(
        buckets_of(directories),
        upload_discovery::bucket_directories(directories)->Ok_0,
        discovery->Ok_0.files_by_directory@,
    );
}

/// The directory is listed with its visible files.
pub open spec fn is_listed(
    directory: Result<ObservedDirectory, IoError>,
    listed: Seq<(LocalPath, Vec<LocalPath>)>,
) -> bool {
    exists|k: int|
        0 <= k < listed.len() && lists_visible_files(directory, #[trigger] listed[k])
}

/// The listed directory is the last one that was read under its path.
pub open spec fn was_read(
    buckets: Seq<Result<ObservedDirectory, IoError>>,
    listed: (LocalPath, Vec<LocalPath>),
) -> bool {
    exists|d: int| #[trigger]
        is_last_of_its_path(buckets, d) && lists_visible_files(buckets[d], listed)
}

/// What is listed are the directories with their visible files, each path once, with
/// what was read last under it, in the order of the bytes of the paths.
pub open spec fn lists_all(
    buckets: Seq<Result<ObservedDirectory, IoError>>,
    listed: Seq<(LocalPath, Vec<LocalPath>)>,
) -> bool {
    &&& forall|d: int| #[trigger]
        is_last_of_its_path(buckets, d) ==> is_listed(buckets[d], listed)
    &&& forall|k: int| 0 <= k < listed.len() ==> was_read(buckets, #[trigger] listed[k])
    &&& forall|k: int, l: int|
        0 <= k < l < listed.len() ==> text::bytes_before(
            (#[trigger] listed[k]).0@.bytes,
            (#[trigger] listed[l]).0@.bytes,
        )
}

/// What was found is the observed directory with its visible files.
spec fn found_from(directory: Result<ObservedDirectory, IoError>, found: FoundDirectory) -> bool {
    &&& is_bucket(directory)
    &&& found.path == directory->Ok_0.path@
    &&& found.files == visible_paths(directory->Ok_0.files->Ok_0@)
}

/// What was found are the observed directories, in order.
spec fn all_found(
    buckets: Seq<Result<ObservedDirectory, IoError>>,
    found: Seq<FoundDirectory>,
) -> bool {
    &&& found.len() == buckets.len()
    &&& forall|d: int| 0 <= d < found.len() ==> found_from(buckets[d], #[trigger] found[d])
}

proof fn the_last_are_listed(
    buckets: Seq<Result<ObservedDirectory, IoError>>,
    found: Seq<FoundDirectory>,
    listed: Seq<(LocalPath, Vec<LocalPath>)>,
)
    requires
        all_found(buckets, found),
        upload_discovery::by_path(found, listed),
    ensures
        lists_all(buckets, listed),
{
    assert forall|k: int| 0 <= k < listed.len() implies was_read(buckets, #[trigger] listed[k]) by {
        let d = listed_from(buckets, found, listed[k]);
        assert(is_last_of_its_path(buckets, d));
    }
    assert forall|d: int| #[trigger] is_last_of_its_path(buckets, d) implies is_listed(
        buckets[d],
        listed,
    ) by {
        assert(found_from(buckets[d], found[d]));
        assert(upload_discovery::lists_path(listed, found[d].path.bytes));
        let k = choose|k: int|
            0 <= k < listed.len() && (#[trigger] listed[k]).0@.bytes == found[d].path.bytes;
        let e = listed_from(buckets, found, listed[k]);
        assert(buckets[e]->Ok_0.path@.bytes == buckets[d]->Ok_0.path@.bytes);
        assert(e == d);
        assert(lists_visible_files(buckets[d], listed[k]));
    }
}

proof fn read_files(files: Seq<Result<ObservedFile, IoError>>)
    requires
        forall|i: int| 0 <= i < files.len() ==> file_read(#[trigger] files[i]),
    ensures
        upload_discovery::uploadable(files) == Ok::<Seq<LocalPathView>, IoError>(
            visible_paths(files),
        ),
    decreases files.len(),
{
    reveal(Seq::filter);
    if files.len() == 0 {
        assert(visible_paths(files) =~= Seq::empty());
    } else {
        let shorter = files.drop_last();
        assert forall|i: int| 0 <= i < shorter.len() implies file_read(#[trigger] shorter[i]) by {
            assert(shorter[i] == files[i]);
        }
        read_files(shorter);
        assert(file_read(files[files.len() - 1]));
        let keep = |file: Result<ObservedFile, IoError>| is_visible(file);
        let file = files.last();
        if is_visible(file) {
            assert(files.filter(keep) == shorter.filter(keep).push(file));
            assert(visible_paths(files) =~= visible_paths(shorter).push(file->Ok_0.path@));
        } else {
            assert(files.filter(keep) == shorter.filter(keep));
        }
    }
}

proof fn read_directories(directories: Seq<Result<ObservedDirectory, IoError>>)
    requires
        forall|d: int| 0 <= d < directories.len() ==> directory_read(#[trigger] directories[d]),
    ensures
        upload_discovery::bucket_directories(directories) matches Ok(found) && all_found(
            buckets_of(directories),
            found,
        ),
    decreases directories.len(),
{
    reveal(Seq::filter);
    if directories.len() > 0 {
        let shorter = directories.drop_last();
        let n = directories.len() - 1;
        assert forall|d: int| 0 <= d < shorter.len() implies directory_read(
            #[trigger] shorter[d],
        ) by {
            assert(shorter[d] == directories[d]);
        }
        read_directories(shorter);
        assert(directory_read(directories[n]));
        let last = directories[n];
        let earlier = upload_discovery::bucket_directories(shorter)->Ok_0;
        if is_bucket(last) {
            read_files(last->Ok_0.files->Ok_0@);
            let found = upload_discovery::bucket_directories(directories)->Ok_0;
            assert(found_from(last, found.last()));
            assert(found.drop_last() =~= earlier);
            assert(buckets_of(directories) == buckets_of(shorter).push(last));
            assert forall|d: int| 0 <= d < found.len() implies found_from(
                buckets_of(directories)[d],
                #[trigger] found[d],
            ) by {
                if d < earlier.len() {
                    assert(found[d] == earlier[d]);
                    assert(found_from(buckets_of(shorter)[d], earlier[d]));
                }
            }
        } else {
            assert(buckets_of(directories) == buckets_of(shorter));
        }
    }
}

proof fn listed_from(
    buckets: Seq<Result<ObservedDirectory, IoError>>,
    found: Seq<FoundDirectory>,
    listed: (LocalPath, Vec<LocalPath>),
) -> (d: int)
    requires
        all_found(buckets, found),
        upload_discovery::is_last_found(found, listed),
    ensures
        is_last_of_its_path(buckets, d),
        lists_visible_files(buckets[d], listed),
{
    let d = choose|i: int|
        {
            &&& 0 <= i < found.len()
            &&& (#[trigger] found[i]).path == listed.0@
            &&& upload_discovery::arranged(found[i].files, upload_discovery::path_views(listed.1@))
            &&& forall|j: int| i < j < found.len() ==> (#[trigger] found[j]).path.bytes
                != listed.0@.bytes
        };
    assert(found_from(buckets[d], found[d]));
    assert forall|e: int| d < e < buckets.len() implies (
    #[trigger] buckets[e])->Ok_0.path@.bytes != buckets[d]->Ok_0.path@.bytes by {
        assert(found_from(buckets[e], found[e]));
    }
    let paths = listed.1@.map_values(|path: LocalPath| path@);
    assert(paths =~= upload_discovery::path_views(listed.1@));
    d
}

/// The first entry of a bucket directory that could not be read failed with the error.
pub open spec fn file_fails(files: Seq<Result<ObservedFile, IoError>>, error: IoError) -> bool {
    exists|i: int|
        {
            &&& 0 <= i < files.len()
            &&& forall|j: int| 0 <= j < i ==> file_read(#[trigger] files[j])
            &&& match #[trigger] files[i] {
                Err(met) => met == error,
                Ok(file) => file.kind == Err::<EntryKind, IoError>(error),
            }
        }
}

/// The entry of the upload root could not be read, with the error.
pub open spec fn directory_fails(
    directory: Result<ObservedDirectory, IoError>,
    error: IoError,
) -> bool {
    match directory {
        Err(met) => met == error,
        Ok(directory) => match directory.kind {
            Err(met) => met == error,
            Ok(kind) => kind == EntryKind::Directory && match directory.files {
                Err(met) => met == error,
                Ok(files) => file_fails(files@, error),
            },
        },
    }
}

/// Whatever cannot be read ends the discovery of a directory with that failure, the
/// first one in the order of reading. A root that is another one afterwards, or is no
/// directory any more, is a failure too.
pub proof fn a_failed_reading_fails_the_discovery(
    observation: UploadObservation,
    discovery: Result<UploadDiscovery, AppError>,
)
    requires
        upload_discovery::discovers(observation, discovery),
        observation.before matches Ok(before) && before.kind == EntryKind::Directory,
    ensures
        discovery is Ok <==> all_read(observation) && observation.after == observation.before,
        match observation.directories {
            Err(error) => discovery == Err::<UploadDiscovery, AppError>(AppError::Io(error)),
            Ok(directories) => if forall|d: int|
                0 <= d < directories@.len() ==> directory_read(#[trigger] directories@[d]) {
                match observation.after {
                    Err(error) => discovery == Err::<UploadDiscovery, AppError>(
                        AppError::Io(error),
                    ),
                    Ok(after) => after != observation.before->Ok_0 ==> {
                        &&& discovery matches Err(AppError::Message(message))
                        &&& message@ == "Upload root changed during discovery: "@
                            + observation.root@.shown
                    },
                }
            } else {
                exists|d: int, error: IoError|
                    {
                        &&& 0 <= d < directories@.len()
                        &&& forall|e: int|
                            0 <= e < d ==> directory_read(#[trigger] directories@[e])
                        &&& #[trigger] directory_fails(directories@[d], error)
                        &&& discovery == Err::<UploadDiscovery, AppError>(AppError::Io(error))
                    }
            },
        },
{
    if let Ok(directories) = observation.directories {
        if forall|d: int|
            0 <= d < directories@.len() ==> directory_read(#[trigger] directories@[d]) {
            read_directories(directories@);
        } else {
            let d = the_first_failure(directories@);
            let error = upload_discovery::bucket_directories(directories@)->Err_0;
            assert(directory_fails(directories@[d], error));
        }
    }
}

proof fn failing_files(files: Seq<Result<ObservedFile, IoError>>)
    requires
        exists|i: int| 0 <= i < files.len() && !file_read(#[trigger] files[i]),
    ensures
        upload_discovery::uploadable(files) matches Err(error) && file_fails(files, error),
    decreases files.len(),
{
    let shorter = files.drop_last();
    if exists|i: int| 0 <= i < shorter.len() && !file_read(#[trigger] shorter[i]) {
        failing_files(shorter);
        let error = upload_discovery::uploadable(shorter)->Err_0;
        let i = choose|i: int|
            {
                &&& 0 <= i < shorter.len()
                &&& forall|j: int| 0 <= j < i ==> file_read(#[trigger] shorter[j])
                &&& match #[trigger] shorter[i] {
                    Err(met) => met == error,
                    Ok(file) => file.kind == Err::<EntryKind, IoError>(error),
                }
            };
        assert(files[i] == shorter[i]);
        assert forall|j: int| 0 <= j < i implies file_read(#[trigger] files[j]) by {
            assert(files[j] == shorter[j]);
        }
    } else {
        read_files(shorter);
        let n = files.len() - 1;
        let i = choose|i: int| 0 <= i < files.len() && !file_read(#[trigger] files[i]);
        assert(i == n) by {
            if i < n {
                assert(shorter[i] == files[i]);
            }
        }
        assert forall|j: int| 0 <= j < n implies file_read(#[trigger] files[j]) by {
            assert(files[j] == shorter[j]);
        }
    }
}

proof fn the_first_failure(directories: Seq<Result<ObservedDirectory, IoError>>) -> (d: int)
    requires
        exists|d: int| 0 <= d < directories.len() && !directory_read(#[trigger] directories[d]),
    ensures
        0 <= d < directories.len(),
        forall|e: int| 0 <= e < d ==> directory_read(#[trigger] directories[e]),
        upload_discovery::bucket_directories(directories) matches Err(error) && directory_fails(
            directories[d],
            error,
        ),
    decreases directories.len(),
{
    let shorter = directories.drop_last();
    let n = directories.len() - 1;
    if exists|d: int| 0 <= d < shorter.len() && !directory_read(#[trigger] shorter[d]) {
        let d = the_first_failure(shorter);
        assert(directories[d] == shorter[d]);
        assert forall|e: int| 0 <= e < d implies directory_read(#[trigger] directories[e]) by {
            assert(directories[e] == shorter[e]);
        }
        d
    } else {
        assert forall|e: int| 0 <= e < n implies directory_read(#[trigger] directories[e]) by {
            assert(directories[e] == shorter[e]);
        }
        read_directories(shorter);
        let d = choose|d: int|
            0 <= d < directories.len() && !directory_read(#[trigger] directories[d]);
        assert(d == n);
        let last = directories[n];
        if is_bucket(last) && last->Ok_0.files is Ok {
            failing_files(last->Ok_0.files->Ok_0@);
        }
        n
    }
}

/// A root that is missing or is a link has nothing to upload, and a root that is
/// neither that nor a directory is a failure.
pub proof fn only_a_real_root_is_read(
    observation: UploadObservation,
    discovery: Result<UploadDiscovery, AppError>,
)
    requires
        upload_discovery::discovers(observation, discovery),
    ensures
        match observation.before {
            Err(error) => if error.kind == IoErrorKind::NotFound {
                &&& discovery is Ok
                &&& discovery->Ok_0.files_by_directory@.len() == 0
                &&& discovery->Ok_0.root_identity is None
            } else {
                discovery == Err::<UploadDiscovery, AppError>(AppError::Io(error))
            },
            Ok(before) => match before.kind {
                EntryKind::Symlink => {
                    &&& discovery is Ok
                    &&& discovery->Ok_0.files_by_directory@.len() == 0
                    &&& discovery->Ok_0.root_identity is None
                },
                EntryKind::File | EntryKind::Other => {
                    &&& discovery matches Err(AppError::Io(error))
                    &&& error.kind == IoErrorKind::NotADirectory
                    &&& error.message@ == "Upload root is not a directory: "@
                        + observation.root@.shown
                },
                EntryKind::Directory => true,
            },
        },
{
}

} // verus!
