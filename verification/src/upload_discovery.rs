//! Which files are uploaded, and to which buckets.
use vstd::prelude::*;

use crate::atomic_rename::DirectoryIdentity;
use crate::error::AppError;
use crate::error::IoError;
use crate::error::IoErrorKind;
use crate::local::LocalPath;
use crate::local::LocalPathView;
use crate::text;

verus! {

/// What a directory entry is, links not followed.
#[derive(Clone, Copy, Debug, PartialEq, Eq, Structural)]
pub enum EntryKind {
    Directory,
    File,
    Symlink,
    Other,
}

/// The upload root as it was found.
#[derive(Clone, Copy, Debug, PartialEq, Eq, Structural)]
pub struct RootEntry {
    pub kind: EntryKind,
    pub identity: DirectoryIdentity,
}

/// An entry of a bucket directory as it was found.
#[derive(Debug)]
pub struct ObservedFile {
    pub path: LocalPath,
    pub name: Vec<u8>,
    pub kind: Result<EntryKind, IoError>,
}

/// An entry of the upload root as it was found, with its own entries where it is
/// a directory.
#[derive(Debug)]
pub struct ObservedDirectory {
    pub path: LocalPath,
    pub kind: Result<EntryKind, IoError>,
    pub files: Result<Vec<Result<ObservedFile, IoError>>, IoError>,
}

/// Everything that was found below the upload root, in the order in which it was
/// read, and the root itself before and after.
#[derive(Debug)]
pub struct UploadObservation {
    pub root: LocalPath,
    pub before: Result<RootEntry, IoError>,
    pub directories: Result<Vec<Result<ObservedDirectory, IoError>>, IoError>,
    pub after: Result<RootEntry, IoError>,
}

/// The files to upload, by the directory of their bucket.
#[derive(Debug)]
pub struct UploadDiscovery {
    pub files_by_directory: Vec<(LocalPath, Vec<LocalPath>)>,
    /// Keeps later filesystem accesses tied to the directory that was read.
    pub root_identity: Option<DirectoryIdentity>,
}

/// The contents of paths.
pub open spec fn path_views(paths: Seq<LocalPath>) -> Seq<LocalPathView> {
    paths.map_values(|path: LocalPath| path@)
}

/// A hidden name begins with a dot.
pub open spec fn hidden(name: Seq<u8>) -> bool {
    name.len() > 0 && name[0] == 0x2e
}

/// The files of a bucket directory that are uploaded, in the order in which they
/// were read, or the first failure: regular files whose names are not hidden.
pub open spec fn uploadable(files: Seq<Result<ObservedFile, IoError>>) -> Result<
    Seq<LocalPathView>,
    IoError,
>
    decreases files.len(),
{
    if files.len() == 0 {
        Ok(Seq::empty())
    } else {
        match uploadable(files.drop_last()) {
            Err(error) => Err(error),
            Ok(paths) => match files.last() {
                Err(error) => Err(error),
                Ok(file) => match file.kind {
                    Err(error) => Err(error),
                    Ok(kind) => if kind == EntryKind::File && file.name@.len() > 0 && !hidden(
                        file.name@,
                    ) {
                        Ok(paths.push(file.path@))
                    } else {
                        Ok(paths)
                    },
                },
            },
        }
    }
}

/// The paths are in the order of their bytes.
pub open spec fn in_order(paths: Seq<LocalPathView>) -> bool {
    forall|i: int, j: int|
        0 <= i < j < paths.len() ==> !text::bytes_before(
            (#[trigger] paths[j]).bytes,
            (#[trigger] paths[i]).bytes,
        )
}

/// The same paths in the order of their bytes.
pub open spec fn arranged(paths: Seq<LocalPathView>, in_turn: Seq<LocalPathView>) -> bool {
    &&& in_order(in_turn)
    &&& in_turn.to_multiset() == paths.to_multiset()
}

/// Puts a path into its place among paths that are in order.
fn put_in_order(paths: &mut Vec<LocalPath>, path: LocalPath)
    requires
        in_order(path_views(old(paths)@)),
    ensures
        in_order(path_views(final(paths)@)),
        path_views(final(paths)@).to_multiset() == path_views(old(paths)@).to_multiset().insert(
            path@,
        ),
{
    let ghost before = path_views(paths@);
    let mut place: usize = paths.len();
    while place > 0 && text::bytes_precede(path.bytes.as_slice(), paths[place - 1].bytes.as_slice())
        invariant
            place <= paths@.len(),
            before == path_views(paths@),
            forall|k: int|
                place <= k < paths@.len() ==> text::bytes_before(
                    path@.bytes,
                    (#[trigger] before[k]).bytes,
                ),
        decreases place,
    {
        assert(before[place - 1] == paths@[place - 1]@);
        place -= 1;
    }
    let ghost added = path@;
    proof {
        if place > 0 {
            assert(before[place - 1] == paths@[place - 1]@);
        }
        assert forall|k: int| 0 <= k < place implies !text::bytes_before(
            added.bytes,
            (#[trigger] before[k]).bytes,
        ) by {
            if k < place - 1 {
                let nearer = before[place - 1].bytes;
                assert(!text::bytes_before(nearer, before[k].bytes));
                text::bytes_order_is_total(added.bytes, before[k].bytes, nearer);
                text::bytes_order_is_total(before[k].bytes, nearer, nearer);
            }
        }
    }
    paths.insert(place, path);
    let ghost after = path_views(paths@);
    assert(after =~= before.insert(place as int, added));
    proof {
        assert forall|i: int, j: int| 0 <= i < j < after.len() implies !text::bytes_before(
            (#[trigger] after[j]).bytes,
            (#[trigger] after[i]).bytes,
        ) by {
            if i == place {
                let later = before[j - 1].bytes;
                text::bytes_order_is_total(added.bytes, later, later);
            } else if j == place {
                assert(after[i] == before[i]);
            } else {
                let left = if i < place {
                    i
                } else {
                    i - 1
                };
                let right = if j < place {
                    j
                } else {
                    j - 1
                };
                assert(after[i] == before[left] && after[j] == before[right]);
                assert(!text::bytes_before(before[right].bytes, before[left].bytes));
            }
        }
        before.insert_ensures(place as int, added);
        before.to_multiset_ensures();
        assert(before.insert(place as int, added).to_multiset() =~= before.to_multiset().insert(
            added,
        )) by {
            let front = before.take(place as int);
            let back = before.skip(place as int);
            assert(before =~= front + back);
            assert(before.insert(place as int, added) =~= front.push(added) + back);
            vstd::seq_lib::lemma_multiset_commutative(front, back);
            vstd::seq_lib::lemma_multiset_commutative(front.push(added), back);
            front.to_multiset_ensures();
        }
    }
}

fn is_hidden(name: &Vec<u8>) -> (is: bool)
    ensures
        is == hidden(name@),
{
    name.len() > 0 && name[0] == 0x2e
}

/// The files that are uploaded from one directory.
fn discover_files(files: &Vec<Result<ObservedFile, IoError>>) -> (found: Result<
    Vec<LocalPath>,
    IoError,
>)
    ensures
        match uploadable(files@) {
            Err(error) => found == Err::<Vec<LocalPath>, IoError>(error),
            Ok(paths) => found matches Ok(in_turn) && arranged(paths, path_views(in_turn@)),
        },
{
    let mut paths: Vec<LocalPath> = Vec::new();
    let mut i: usize = 0;
    proof {
        assert(files@.take(0) =~= Seq::empty());
        assert(path_views(paths@) =~= Seq::empty());
    }
    while i < files.len()
        invariant
            i <= files@.len(),
            uploadable(files@.take(i as int)) matches Ok(found) && arranged(
                found,
                path_views(paths@),
            ),
        decreases files@.len() - i,
    {
        let ghost found = uploadable(files@.take(i as int))->Ok_0;
        assert(files@.take(i + 1).drop_last() =~= files@.take(i as int));
        assert(files@.take(i + 1).last() == files@[i as int]);
        match &files[i] {
            Err(error) => {
                proof {
                    failing_prefix(files@, i + 1);
                }
                return Err(error.clone());
            },
            Ok(file) => match &file.kind {
                Err(error) => {
                    proof {
                        failing_prefix(files@, i + 1);
                    }
                    return Err(error.clone());
                },
                Ok(kind) => {
                    if *kind == EntryKind::File && file.name.len() > 0 && !is_hidden(&file.name) {
                        put_in_order(&mut paths, file.path.clone());
                        proof {
                            found.to_multiset_ensures();
                            assert(found.push(file.path@).to_multiset()
                                =~= found.to_multiset().insert(file.path@));
                        }
                    }
                },
            },
        }
        i += 1;
    }
    assert(files@.take(files@.len() as int) =~= files@);
    Ok(paths)
}

/// A failure in a prefix is the failure of the whole.
proof fn failing_prefix(files: Seq<Result<ObservedFile, IoError>>, count: int)
    requires
        0 <= count <= files.len(),
        uploadable(files.take(count)) is Err,
    ensures
        uploadable(files) == uploadable(files.take(count)),
    decreases files.len() - count,
{
    if count == files.len() {
        assert(files.take(count) =~= files);
    } else {
        assert(files.take(count + 1).drop_last() =~= files.take(count));
        failing_prefix(files, count + 1);
    }
}

/// A bucket directory and its uploadable files, in the order in which they were
/// read.
#[verifier::ext_equal]
pub struct FoundDirectory {
    pub path: LocalPathView,
    pub files: Seq<LocalPathView>,
}

/// The bucket directories, in the order in which they were read, or the first
/// failure: only real directories count.
pub open spec fn bucket_directories(directories: Seq<Result<ObservedDirectory, IoError>>) -> Result<
    Seq<FoundDirectory>,
    IoError,
>
    decreases directories.len(),
{
    if directories.len() == 0 {
        Ok(Seq::empty())
    } else {
        match bucket_directories(directories.drop_last()) {
            Err(error) => Err(error),
            Ok(found) => match directories.last() {
                Err(error) => Err(error),
                Ok(directory) => match directory.kind {
                    Err(error) => Err(error),
                    Ok(kind) => if kind != EntryKind::Directory {
                        Ok(found)
                    } else {
                        match directory.files {
                            Err(error) => Err(error),
                            Ok(files) => match uploadable(files@) {
                                Err(error) => Err(error),
                                Ok(paths) => Ok(
                                    found.push(
                                        FoundDirectory { path: directory.path@, files: paths },
                                    ),
                                ),
                            },
                        }
                    },
                },
            },
        }
    }
}

/// The directories by their paths: each path once, with the files that were
/// found last under it, in the order of the bytes.
pub open spec fn by_path(found: Seq<FoundDirectory>, listed: Seq<(LocalPath, Vec<LocalPath>)>) -> bool {
    &&& forall|i: int, j: int|
        0 <= i < j < listed.len() ==> text::bytes_before(
            (#[trigger] listed[i]).0@.bytes,
            (#[trigger] listed[j]).0@.bytes,
        )
    &&& forall|i: int| 0 <= i < listed.len() ==> is_last_found(found, #[trigger] listed[i])
    &&& forall|i: int| 0 <= i < found.len() ==> lists_path(listed, (#[trigger] found[i]).path.bytes)
}

/// The directory is listed.
pub open spec fn lists_path(listed: Seq<(LocalPath, Vec<LocalPath>)>, bytes: Seq<u8>) -> bool {
    exists|i: int| 0 <= i < listed.len() && (#[trigger] listed[i]).0@.bytes == bytes
}

/// The listed directory is the last that was found under its path.
pub open spec fn is_last_found(found: Seq<FoundDirectory>, listed: (LocalPath, Vec<LocalPath>)) -> bool {
    exists|i: int|
        {
            &&& 0 <= i < found.len()
            &&& (#[trigger] found[i]).path == listed.0@
            &&& arranged(found[i].files, path_views(listed.1@))
            &&& forall|j: int| i < j < found.len() ==> (#[trigger] found[j]).path.bytes
                != listed.0@.bytes
        }
}

/// Lists a directory under its path, in place of one that was listed under it
/// before.
fn list_directory(
    listed: &mut Vec<(LocalPath, Vec<LocalPath>)>,
    path: LocalPath,
    files: Vec<LocalPath>,
    Ghost(found): Ghost<Seq<FoundDirectory>>,
    Ghost(added): Ghost<FoundDirectory>,
)
    requires
        by_path(found, old(listed)@),
        added.path == path@,
        arranged(added.files, path_views(files@)),
    ensures
        by_path(found.push(added), final(listed)@),
{
    let ghost before = listed@;
    let ghost grown = found.push(added);
    let mut place: usize = 0;
    while place < listed.len() && text::bytes_precede(
        listed[place].0.bytes.as_slice(),
        path.bytes.as_slice(),
    )
        invariant
            place <= listed@.len(),
            before == listed@,
            forall|k: int|
                0 <= k < place ==> text::bytes_before(
                    (#[trigger] before[k]).0@.bytes,
                    path@.bytes,
                ),
        decreases listed@.len() - place,
    {
        place += 1;
    }
    let known = place < listed.len() && text::same_bytes(
        listed[place].0.bytes.as_slice(),
        path.bytes.as_slice(),
    );
    let ghost entry = (path, files);
    proof {
        assert(grown[found.len() as int] == added);
        assert(is_last_found(grown, entry));
        // Entries under other paths stay the last under theirs.
        assert forall|k: int|
            0 <= k < before.len() && before[k].0@.bytes != path@.bytes implies is_last_found(
            grown,
            #[trigger] before[k],
        ) by {
            let i = choose|i: int|
                {
                    &&& 0 <= i < found.len()
                    &&& (#[trigger] found[i]).path == before[k].0@
                    &&& arranged(found[i].files, path_views(before[k].1@))
                    &&& forall|j: int| i < j < found.len() ==> (#[trigger] found[j]).path.bytes
                        != before[k].0@.bytes
                };
            assert(grown[i] == found[i]);
            assert forall|j: int| i < j < grown.len() implies (#[trigger] grown[j]).path.bytes
                != before[k].0@.bytes by {
                if j < found.len() {
                    assert(grown[j] == found[j]);
                }
            }
        }
        // Everything from the place on stands after the new path or is it.
        if place < before.len() {
            assert forall|k: int| place < k < before.len() implies text::bytes_before(
                path@.bytes,
                (#[trigger] before[k]).0@.bytes,
            ) by {
                let nearest = before[place as int].0@.bytes;
                assert(text::bytes_before(nearest, before[k].0@.bytes));
                text::bytes_order_is_total(path@.bytes, nearest, before[k].0@.bytes);
                text::bytes_order_is_total(nearest, path@.bytes, path@.bytes);
            }
            text::bytes_order_is_total(path@.bytes, before[place as int].0@.bytes, path@.bytes);
        }
    }
    if known {
        listed.set(place, (path, files));
    } else {
        listed.insert(place, (path, files));
    }
    proof {
        let after = listed@;
        if known {
            assert(after =~= before.update(place as int, entry));
        } else {
            assert(after =~= before.insert(place as int, entry));
        }
        assert forall|i: int, j: int| 0 <= i < j < after.len() implies text::bytes_before(
            (#[trigger] after[i]).0@.bytes,
            (#[trigger] after[j]).0@.bytes,
        ) by {
            let shift: int = if known {
                0
            } else {
                1
            };
            if i < place && j > place {
                assert(text::bytes_before(before[i].0@.bytes, before[j - shift].0@.bytes));
            } else if i > place {
                assert(text::bytes_before(
                    before[i - shift].0@.bytes,
                    before[j - shift].0@.bytes,
                ));
            } else if j < place {
                assert(text::bytes_before(before[i].0@.bytes, before[j].0@.bytes));
            } else if i == place {
                assert(after[j] == before[j - shift]);
            } else {
                assert(after[i] == before[i]);
            }
        }
        assert forall|i: int| 0 <= i < after.len() implies is_last_found(
            grown,
            #[trigger] after[i],
        ) by {
            if i < place {
                assert(after[i] == before[i]);
                text::bytes_order_is_total(path@.bytes, path@.bytes, path@.bytes);
            } else if i > place {
                let k = if known {
                    i
                } else {
                    i - 1
                };
                assert(after[i] == before[k]);
                text::bytes_order_is_total(path@.bytes, path@.bytes, path@.bytes);
                if !known {
                    text::bytes_order_is_total(path@.bytes, before[place as int].0@.bytes, path@.bytes);
                }
            }
        }
        assert forall|i: int| 0 <= i < grown.len() implies lists_path(
            after,
            (#[trigger] grown[i]).path.bytes,
        ) by {
            if i == found.len() {
                assert(after[place as int].0@.bytes == path@.bytes);
            } else {
                assert(grown[i] == found[i]);
                assert(lists_path(before, found[i].path.bytes));
                let k = choose|k: int|
                    0 <= k < before.len() && (#[trigger] before[k]).0@.bytes == found[i].path.bytes;
                if known {
                    assert(after[k].0@.bytes == before[k].0@.bytes);
                } else if k < place {
                    assert(after[k] == before[k]);
                } else {
                    assert(after[k + 1] == before[k]);
                }
            }
        }
    }
}

/// The bucket directories and their files.
fn discover_directories(directories: &Vec<Result<ObservedDirectory, IoError>>) -> (found: Result<
    Vec<(LocalPath, Vec<LocalPath>)>,
    IoError,
>)
    ensures
        match bucket_directories(directories@) {
            Err(error) => found == Err::<Vec<(LocalPath, Vec<LocalPath>)>, IoError>(error),
            Ok(all) => found matches Ok(listed) && by_path(all, listed@),
        },
{
    let mut listed: Vec<(LocalPath, Vec<LocalPath>)> = Vec::new();
    let mut i: usize = 0;
    assert(directories@.take(0) =~= Seq::empty());
    while i < directories.len()
        invariant
            i <= directories@.len(),
            bucket_directories(directories@.take(i as int)) matches Ok(found) && by_path(
                found,
                listed@,
            ),
        decreases directories@.len() - i,
    {
        let ghost found = bucket_directories(directories@.take(i as int))->Ok_0;
        assert(directories@.take(i + 1).drop_last() =~= directories@.take(i as int));
        assert(directories@.take(i + 1).last() == directories@[i as int]);
        let directory = match &directories[i] {
            Err(error) => {
                proof {
                    failing_directory(directories@, i + 1);
                }
                return Err(error.clone());
            },
            Ok(directory) => directory,
        };
        let kind = match &directory.kind {
            Err(error) => {
                proof {
                    failing_directory(directories@, i + 1);
                }
                return Err(error.clone());
            },
            Ok(kind) => *kind,
        };
        if kind == EntryKind::Directory {
            let files = match &directory.files {
                Err(error) => {
                    proof {
                        failing_directory(directories@, i + 1);
                    }
                    return Err(error.clone());
                },
                Ok(files) => files,
            };
            match discover_files(files) {
                Err(error) => {
                    proof {
                        failing_directory(directories@, i + 1);
                    }
                    return Err(error);
                },
                Ok(paths) => {
                    list_directory(
                        &mut listed,
                        directory.path.clone(),
                        paths,
                        Ghost(found),
                        Ghost(
                            FoundDirectory {
                                path: directory.path@,
                                files: uploadable(files@)->Ok_0,
                            },
                        ),
                    );
                },
            }
        }
        i += 1;
    }
    assert(directories@.take(directories@.len() as int) =~= directories@);
    Ok(listed)
}

/// A failure in a prefix is the failure of the whole.
proof fn failing_directory(directories: Seq<Result<ObservedDirectory, IoError>>, count: int)
    requires
        0 <= count <= directories.len(),
        bucket_directories(directories.take(count)) is Err,
    ensures
        bucket_directories(directories) == bucket_directories(directories.take(count)),
    decreases directories.len() - count,
{
    if count == directories.len() {
        assert(directories.take(count) =~= directories);
    } else {
        assert(directories.take(count + 1).drop_last() =~= directories.take(count));
        failing_directory(directories, count + 1);
    }
}

/// What an observation means. A missing or linked root has nothing to upload; a
/// root of another kind, anything that cannot be read, and a root that changed
/// while it was read are failures, whichever comes first.
pub open spec fn discovers(
    observation: UploadObservation,
    discovery: Result<UploadDiscovery, AppError>,
) -> bool {
    match observation.before {
        Err(error) => if error.kind == IoErrorKind::NotFound {
            finds_nothing(discovery)
        } else {
            discovery == Err::<UploadDiscovery, AppError>(AppError::Io(error))
        },
        Ok(before) => match before.kind {
            EntryKind::Symlink => finds_nothing(discovery),
            EntryKind::Directory => match observation.directories {
                Err(error) => discovery == Err::<UploadDiscovery, AppError>(AppError::Io(error)),
                Ok(directories) => match bucket_directories(directories@) {
                    Err(error) => discovery == Err::<UploadDiscovery, AppError>(
                        AppError::Io(error),
                    ),
                    Ok(found) => match observation.after {
                        Err(error) => discovery == Err::<UploadDiscovery, AppError>(
                            AppError::Io(error),
                        ),
                        Ok(after) => if after == before {
                            &&& discovery matches Ok(discovered)
                            &&& discovered.root_identity == Some(before.identity)
                            &&& by_path(found, discovered.files_by_directory@)
                        } else {
                            &&& discovery matches Err(AppError::Message(message))
                            &&& message@ == "Upload root changed during discovery: "@
                                + observation.root@.shown
                        },
                    },
                },
            },
            _ => {
                &&& discovery matches Err(AppError::Io(error))
                &&& error.kind == IoErrorKind::NotADirectory
                &&& error.message@ == "Upload root is not a directory: "@
                    + observation.root@.shown
            },
        },
    }
}

/// There is nothing to upload.
pub open spec fn finds_nothing(discovery: Result<UploadDiscovery, AppError>) -> bool {
    &&& discovery matches Ok(discovered)
    &&& discovered.files_by_directory@.len() == 0
    &&& discovered.root_identity is None
}

/// Decides from what was found below the upload root what is to be uploaded.
pub fn discover_uploads(observation: UploadObservation) -> (discovery: Result<
    UploadDiscovery,
    AppError,
>)
    ensures
        discovers(observation, discovery),
{
    let before = match observation.before {
        Err(error) => {
            if error.kind == IoErrorKind::NotFound {
                return Ok(
                    UploadDiscovery { files_by_directory: Vec::new(), root_identity: None },
                );
            }
            return Err(AppError::Io(error));
        },
        Ok(before) => before,
    };
    if before.kind == EntryKind::Symlink {
        return Ok(UploadDiscovery { files_by_directory: Vec::new(), root_identity: None });
    }
    if before.kind != EntryKind::Directory {
        return Err(
            AppError::Io(
                IoError {
                    kind: IoErrorKind::NotADirectory,
                    message: "Upload root is not a directory: ".to_string().concat(
                        observation.root.shown.as_str(),
                    ),
                },
            ),
        );
    }
    let directories = match observation.directories {
        Err(error) => {
            return Err(AppError::Io(error));
        },
        Ok(directories) => directories,
    };
    let files_by_directory = match discover_directories(&directories) {
        Err(error) => {
            return Err(AppError::Io(error));
        },
        Ok(files_by_directory) => files_by_directory,
    };
    let after = match observation.after {
        Err(error) => {
            return Err(AppError::Io(error));
        },
        Ok(after) => after,
    };
    if after.kind != EntryKind::Directory || after.identity != before.identity {
        return Err(
            AppError::Message(
                "Upload root changed during discovery: ".to_string().concat(
                    observation.root.shown.as_str(),
                ),
            ),
        );
    }
    Ok(UploadDiscovery { files_by_directory, root_identity: Some(before.identity) })
}

/// The files to upload, by the directory of their bucket.
pub fn upload_files_by_directory(observation: UploadObservation) -> (files: Result<
    Vec<(LocalPath, Vec<LocalPath>)>,
    AppError,
>)
    ensures
        exists|discovery: Result<UploadDiscovery, AppError>|
            {
                &&& #[trigger] discovers(observation, discovery)
                &&& match discovery {
                    Ok(discovered) => files == Ok::<Vec<(LocalPath, Vec<LocalPath>)>, AppError>(
                        discovered.files_by_directory,
                    ),
                    Err(error) => files == Err::<Vec<(LocalPath, Vec<LocalPath>)>, AppError>(error),
                }
            },
{
    let discovery = discover_uploads(observation);
    assert(discovers(observation, discovery));
    match discovery {
        Ok(discovered) => Ok(discovered.files_by_directory),
        Err(error) => Err(error),
    }
}

} // verus!
