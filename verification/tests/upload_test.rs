use std::cell::RefCell;
use std::sync::atomic::{AtomicBool, Ordering};
use std::sync::Arc;

use task_googlecloud::atomic_rename::{DirectoryIdentity, Platform};
use task_googlecloud::error::{IoError, IoErrorKind};
use task_googlecloud::local::{LocalPath, LocalStep};
use task_googlecloud::object_path::MAX_OBJECT_NAME_BYTES;
use task_googlecloud::upload::{
    bucket_names, plan_run, plan_uploads, staging_path, staging_prefix, upload_planned_files,
    upload_planned_files_unlocked, PlannedUpload,
};
use task_googlecloud::upload_discovery::{
    EntryKind, ObservedDirectory, ObservedFile, RootEntry, UploadObservation,
};
use task_googlecloud::workflow::{UploadStep, UploadWork};
use task_googlecloud::upload_source::UploadSourceIdentity;
use task_googlecloud::{
    path_string, rollback_remote, upload_files_by_directory, AppError, InterruptFlag, ObjectPath,
    RemoteChange, StorageClient,
};

const STAGING_PREFIX: &str = ".task-googlecloud-staging/0123456789abcdef0123456789abcdef";

fn object_name_with_bytes(length: usize) -> String {
    let mut object = "é".repeat(length / 2);
    if object.len() < length {
        object.push('a');
    }
    object
}

fn path(text: &str) -> LocalPath {
    LocalPath { bytes: text.as_bytes().to_vec(), shown: format!("{text:?}") }
}

struct FakeStorage {
    locked: RefCell<Vec<String>>,
    uploads: RefCell<Vec<String>>,
    moves: RefCell<Vec<String>>,
    move_generations: RefCell<Vec<Option<String>>>,
    rollbacks: RefCell<Vec<String>>,
    cleanups: RefCell<Vec<String>>,
    fail_on_move: Option<usize>,
    fail_on_upload: Option<usize>,
    fail_cleanups: bool,
    interrupt_after_upload: Option<Arc<AtomicBool>>,
}

fn fake() -> FakeStorage {
    FakeStorage {
        locked: RefCell::new(Vec::new()),
        uploads: RefCell::new(Vec::new()),
        moves: RefCell::new(Vec::new()),
        move_generations: RefCell::new(Vec::new()),
        rollbacks: RefCell::new(Vec::new()),
        cleanups: RefCell::new(Vec::new()),
        fail_on_move: None,
        fail_on_upload: None,
        fail_cleanups: false,
        interrupt_after_upload: None,
    }
}

impl StorageClient for FakeStorage {
    fn list_objects(&self, _bucket: &str) -> Result<Vec<String>, AppError> {
        Ok(Vec::new())
    }

    fn with_bucket_locks<T, F>(&self, buckets: &[&str], operation: F) -> Result<T, AppError>
    where
        F: FnOnce() -> Result<T, AppError>,
    {
        self.locked.borrow_mut().extend(buckets.iter().map(|bucket| bucket.to_string()));
        operation()
    }

    fn upload_file_with_identity(
        &self,
        source: &str,
        target: &ObjectPath,
        _identity: Option<UploadSourceIdentity>,
    ) -> Result<String, AppError> {
        self.upload_file(source, target)
    }

    fn upload_file(&self, _source: &str, target: &ObjectPath) -> Result<String, AppError> {
        let mut uploads = self.uploads.borrow_mut();
        uploads.push(target.uri());
        if self.fail_on_upload == Some(uploads.len()) {
            return Err(AppError::Message("upload failed".to_string()));
        }
        if let Some(interrupted) = &self.interrupt_after_upload {
            interrupted.store(true, Ordering::Relaxed);
        }
        Ok("101".to_string())
    }

    fn move_object(
        &self,
        _source: &ObjectPath,
        target: &ObjectPath,
        expected_source_generation: Option<&str>,
    ) -> Result<String, AppError> {
        self.move_generations
            .borrow_mut()
            .push(expected_source_generation.map(str::to_string));
        let mut moves = self.moves.borrow_mut();
        moves.push(target.uri());
        if self.fail_on_move == Some(moves.len()) {
            return Err(AppError::Message("finalization failed".to_string()));
        }
        Ok((200 + moves.len()).to_string())
    }

    fn rollback_object(
        &self,
        _source: &ObjectPath,
        target: &ObjectPath,
        _generation: &str,
    ) -> Result<String, AppError> {
        self.rollbacks.borrow_mut().push(target.uri());
        Ok("301".to_string())
    }

    fn cleanup_object(
        &self,
        target: &ObjectPath,
        target_generation: &str,
    ) -> Result<(), AppError> {
        self.cleanups.borrow_mut().push(format!("{} {target_generation}", target.uri()));
        if self.fail_cleanups {
            return Err(AppError::Message(format!("cleanup of {} failed", target.object)));
        }
        Ok(())
    }

    fn confirm_move_after_failure(
        &self,
        _source: &ObjectPath,
        _target: &ObjectPath,
        _operation: &AppError,
    ) -> Result<(), AppError> {
        Ok(())
    }

    fn confirm_write_after_failure(
        &self,
        _target: &ObjectPath,
        _operation: &AppError,
    ) -> Result<(), AppError> {
        Ok(())
    }
}

fn interrupt() -> InterruptFlag {
    InterruptFlag::from_atomic(Arc::new(AtomicBool::new(false)))
}

fn two_uploads() -> Vec<(String, Vec<PlannedUpload>)> {
    ["a", "b"]
        .map(|name| {
            (
                format!("uploads/{name}"),
                vec![PlannedUpload {
                    file: format!("uploads/{name}/file"),
                    staging: ObjectPath::from_parts(name, "staging/file"),
                    target: ObjectPath::from_parts(name, "file"),
                }],
            )
        })
        .into()
}

#[test]
fn finalizes_uploaded_objects_using_their_uploaded_generation() {
    let storage = fake();
    let staging = ObjectPath::parse("gs://bucket/.task-googlecloud-staging/file").unwrap();
    let target = ObjectPath::parse("gs://bucket/file").unwrap();
    let uploads = vec![(
        "uploads/bucket".to_string(),
        vec![PlannedUpload {
            file: "uploads/bucket/file".to_string(),
            staging,
            target,
        }],
    )];

    upload_planned_files(&storage, &interrupt(), &uploads).unwrap();

    assert_eq!(
        *storage.move_generations.borrow(),
        vec![Some("101".to_string())]
    );
}

#[test]
fn rejects_object_names_that_would_overflow_the_staging_prefix() {
    let object_name = object_name_with_bytes(MAX_OBJECT_NAME_BYTES - STAGING_PREFIX.len());

    let error = staging_path("bucket", STAGING_PREFIX, &object_name).unwrap_err();

    assert!(matches!(error, AppError::Message(message) if message.contains("temporary staging")));
}

#[test]
fn accepts_object_names_at_the_staging_limit() {
    let object_name = object_name_with_bytes(MAX_OBJECT_NAME_BYTES - STAGING_PREFIX.len() - 1);

    let staging = staging_path("bucket", STAGING_PREFIX, &object_name).unwrap();

    assert_eq!(staging.object.len(), MAX_OBJECT_NAME_BYTES);
}

#[test]
fn plans_uploads_from_discovery_alone() {
    let source = "uploads/bucket/e\u{301}.txt".to_string();
    let target = "uploads/bucket/\u{e9}.txt".to_string();
    let files_by_directory = vec![(path("uploads/bucket"), vec![path(&source)])];
    let normalized_files = vec![(source, target)];

    let planned = plan_uploads(&files_by_directory, &normalized_files, STAGING_PREFIX).unwrap();

    assert_eq!(planned.len(), 1);
    let uploads = &planned[0].1;
    assert_eq!(uploads.len(), 1);
    assert_eq!(uploads[0].target.uri(), "gs://bucket/\u{e9}.txt");
    assert_eq!(
        uploads[0].staging.uri(),
        format!("gs://bucket/{STAGING_PREFIX}/\u{e9}.txt")
    );
}

#[test]
fn rejects_a_plan_before_any_file_is_renamed_or_uploaded() {
    let object_name = object_name_with_bytes(MAX_OBJECT_NAME_BYTES - STAGING_PREFIX.len());
    let source = format!("uploads/bucket/{object_name}");
    let files_by_directory = vec![(path("uploads/bucket"), vec![path(&source)])];
    let normalized_files = vec![(source.clone(), source)];

    let error = plan_uploads(&files_by_directory, &normalized_files, STAGING_PREFIX).unwrap_err();

    assert!(matches!(error, AppError::Message(message) if message.contains("temporary staging")));
}

fn file(root: &str, name: &str, kind: EntryKind) -> Result<ObservedFile, IoError> {
    Ok(ObservedFile {
        path: path(&format!("{root}/{name}")),
        name: name.as_bytes().to_vec(),
        kind: Ok(kind),
    })
}

fn directory(
    name: &str,
    kind: EntryKind,
    files: Vec<Result<ObservedFile, IoError>>,
) -> Result<ObservedDirectory, IoError> {
    Ok(ObservedDirectory { path: path(name), kind: Ok(kind), files: Ok(files) })
}

const IDENTITY: DirectoryIdentity = DirectoryIdentity { device: 1, inode: 2 };

fn root(kind: EntryKind) -> Result<RootEntry, IoError> {
    Ok(RootEntry { kind, identity: IDENTITY })
}

fn observed(directories: Vec<Result<ObservedDirectory, IoError>>) -> UploadObservation {
    UploadObservation {
        root: path("uploads"),
        before: root(EntryKind::Directory),
        directories: Ok(directories),
        after: root(EntryKind::Directory),
    }
}

fn texts(found: &[(LocalPath, Vec<LocalPath>)]) -> Vec<(String, Vec<String>)> {
    found
        .iter()
        .map(|(directory, files)| {
            (
                path_string(directory).unwrap(),
                files.iter().map(|file| path_string(file).unwrap()).collect(),
            )
        })
        .collect()
}

#[test]
fn discovers_files_by_bucket_directory() {
    let found = upload_files_by_directory(observed(vec![directory(
        "uploads/bucket",
        EntryKind::Directory,
        vec![
            file("uploads/bucket", "two.txt", EntryKind::File),
            file("uploads/bucket", ".DS_Store", EntryKind::File),
            file("uploads/bucket", "one.txt", EntryKind::File),
        ],
    )]))
    .unwrap();

    assert_eq!(
        texts(&found),
        vec![(
            "uploads/bucket".to_string(),
            vec!["uploads/bucket/one.txt".to_string(), "uploads/bucket/two.txt".to_string()]
        )]
    );
}

#[test]
fn reports_a_file_as_an_invalid_upload_root() {
    let mut observation = observed(Vec::new());
    observation.before = root(EntryKind::File);

    let error = upload_files_by_directory(observation).unwrap_err();

    assert!(matches!(
        error,
        AppError::Io(error) if error.kind == IoErrorKind::NotADirectory
            && error.message == "Upload root is not a directory: \"uploads\""
    ));
}

#[test]
fn ignores_symlinked_buckets_and_files() {
    let found = upload_files_by_directory(observed(vec![
        directory(
            "uploads/linked-bucket",
            EntryKind::Symlink,
            vec![file("uploads/linked-bucket", "outside.txt", EntryKind::File)],
        ),
        directory(
            "uploads/bucket",
            EntryKind::Directory,
            vec![
                file("uploads/bucket", "linked.txt", EntryKind::Symlink),
                file("uploads/bucket", "regular.txt", EntryKind::File),
            ],
        ),
    ]))
    .unwrap();

    assert_eq!(
        texts(&found),
        vec![("uploads/bucket".to_string(), vec!["uploads/bucket/regular.txt".to_string()])]
    );
}

#[test]
fn directories_are_found_in_the_order_of_their_paths() {
    let found = upload_files_by_directory(observed(vec![
        directory("uploads/b", EntryKind::Directory, Vec::new()),
        directory("uploads/a", EntryKind::Directory, Vec::new()),
    ]))
    .unwrap();
    assert_eq!(texts(&found).iter().map(|(name, _)| name.as_str()).collect::<Vec<_>>(), [
        "uploads/a",
        "uploads/b"
    ]);
}

#[test]
fn a_missing_or_linked_root_has_nothing_to_upload() {
    let mut missing = observed(Vec::new());
    missing.before = Err(IoError::new(IoErrorKind::NotFound, "no such file"));
    assert!(upload_files_by_directory(missing).unwrap().is_empty());

    let mut linked = observed(Vec::new());
    linked.before = root(EntryKind::Symlink);
    assert!(upload_files_by_directory(linked).unwrap().is_empty());
}

#[test]
fn a_root_that_changes_during_discovery_is_refused() {
    let mut moved = observed(Vec::new());
    moved.after = Ok(RootEntry {
        kind: EntryKind::Directory,
        identity: DirectoryIdentity { device: 1, inode: 3 },
    });
    let error = upload_files_by_directory(moved).unwrap_err();
    assert_eq!(error.to_string(), "Upload root changed during discovery: \"uploads\"");

    let mut replaced = observed(Vec::new());
    replaced.after = root(EntryKind::Symlink);
    assert!(matches!(upload_files_by_directory(replaced), Err(AppError::Message(_))));

    let mut unreadable = observed(Vec::new());
    unreadable.directories = Err(IoError::new(IoErrorKind::Other, "denied"));
    let error = upload_files_by_directory(unreadable).unwrap_err();
    assert_eq!(error.to_string(), "I/O failed: denied");
}

#[test]
fn rolls_back_finalized_and_staged_remote_changes() {
    let storage = fake();
    let staging = ObjectPath::parse("gs://bucket/.task-googlecloud-staging/token/file").unwrap();
    let final_path = ObjectPath::parse("gs://bucket/file").unwrap();
    let staged = vec![RemoteChange {
        source: staging.clone(),
        target: final_path.clone(),
        generation: "101".to_string(),
    }];
    let finalized = vec![RemoteChange {
        source: staging,
        target: final_path,
        generation: "201".to_string(),
    }];

    let errors = rollback_remote(&storage, &staged, &finalized);

    assert!(errors.is_empty());
    assert_eq!(storage.rollbacks.borrow().len(), 1);
    assert_eq!(storage.cleanups.borrow().len(), 1);
}

#[test]
fn a_rolled_back_upload_is_removed_at_its_restored_generation() {
    let storage = fake();
    let change = |object: &str, generation: &str| RemoteChange {
        source: ObjectPath::from_parts("bucket", &format!("staging/{object}")),
        target: ObjectPath::from_parts("bucket", object),
        generation: generation.to_string(),
    };
    let staged = vec![change("a", "1"), change("b", "2")];
    let finalized = vec![change("a", "3")];

    assert!(rollback_remote(&storage, &staged, &finalized).is_empty());

    assert_eq!(*storage.rollbacks.borrow(), vec!["gs://bucket/a"]);
    assert_eq!(
        *storage.cleanups.borrow(),
        vec!["gs://bucket/staging/a 301", "gs://bucket/staging/b 2"]
    );
}

#[test]
fn a_failed_finalization_removes_every_upload() {
    let mut storage = fake();
    storage.fail_on_move = Some(2);
    let reported = RefCell::new(Vec::new());

    let error = upload_planned_files_unlocked(&storage, &interrupt(), &two_uploads(), |line: &str| {
        reported.borrow_mut().push(line.to_string());
    })
    .unwrap_err();

    assert_eq!(error.to_string(), "finalization failed");
    assert_eq!(*reported.borrow(), vec!["uploads/a", "uploads/b"]);
    assert_eq!(*storage.rollbacks.borrow(), vec!["gs://a/file"]);
    assert_eq!(
        *storage.cleanups.borrow(),
        vec!["gs://a/staging/file 301", "gs://b/staging/file 101"]
    );
}

#[test]
fn a_failed_upload_removes_the_earlier_ones() {
    let mut storage = fake();
    storage.fail_on_upload = Some(2);
    storage.fail_cleanups = true;

    let error = upload_planned_files(&storage, &interrupt(), &two_uploads()).unwrap_err();

    assert_eq!(
        error.to_string(),
        "upload failed; rollback failed: cleanup of staging/file failed"
    );
    assert_eq!(*storage.locked.borrow(), vec!["a", "b"]);
    assert_eq!(*storage.cleanups.borrow(), vec!["gs://a/staging/file 101"]);
    assert!(storage.moves.borrow().is_empty());
}

#[test]
fn an_interrupt_after_an_upload_removes_it() {
    let flag = Arc::new(AtomicBool::new(false));
    let mut storage = fake();
    storage.interrupt_after_upload = Some(Arc::clone(&flag));
    let interrupt = InterruptFlag::from_atomic(Arc::clone(&flag));

    let error = upload_planned_files(&storage, &interrupt, &two_uploads()).unwrap_err();

    assert!(matches!(error, AppError::Interrupted));
    assert_eq!(*storage.cleanups.borrow(), vec!["gs://a/staging/file 101"]);
    assert!(!flag.load(Ordering::Relaxed), "undoing is not interrupted");
}

#[test]
fn staging_prefixes_are_marked_and_unique() {
    let first = staging_prefix();
    assert_ne!(first, staging_prefix());
    let token = first.strip_prefix(".task-googlecloud-staging/").unwrap();
    assert_eq!(token.len(), 32);
    assert!(token.chars().all(|c| matches!(c, '0'..='9' | 'a'..='f')));
}

#[test]
fn buckets_are_named_after_their_directories() {
    let directories = vec![(path("uploads/b"), Vec::new()), (path("uploads/a"), Vec::new())];
    assert_eq!(bucket_names(&directories).unwrap(), vec!["b", "a"]);
    let below = LocalPath { bytes: b"/\xff/bucket/./".to_vec(), shown: String::new() };
    assert_eq!(bucket_names(&vec![(below, Vec::new())]).unwrap(), vec!["bucket"]);
    let accented = path("uploads/\u{e9}");
    assert_eq!(bucket_names(&vec![(accented, Vec::new())]).unwrap(), vec!["\u{e9}"]);
    let odd = LocalPath { bytes: b"uploads/\xff".to_vec(), shown: "odd".to_string() };
    let error = bucket_names(&vec![(odd, Vec::new())]).unwrap_err();
    assert_eq!(error.to_string(), "Directory is not valid UTF-8: odd");
}

#[test]
fn paths_that_are_no_text_are_refused() {
    let odd = LocalPath { bytes: b"uploads/a/\xff".to_vec(), shown: "\"odd\"".to_string() };
    let error = path_string(&odd).unwrap_err();
    assert_eq!(error.to_string(), "Path is not valid UTF-8: \"odd\"");
    let directories = vec![(path("uploads/a"), vec![odd])];
    assert!(plan_run(&directories, STAGING_PREFIX).is_err());
}

#[test]
fn a_file_without_a_planned_name_is_refused() {
    let directories = vec![(path("uploads/a"), vec![path("uploads/a/x")])];
    let error = plan_uploads(&directories, &Vec::new(), STAGING_PREFIX).unwrap_err();
    assert_eq!(error.to_string(), "Missing normalized path for \"uploads/a/x\"");
}

fn work(files: Vec<LocalPath>) -> UploadWork {
    UploadWork {
        platform: Platform::Linux,
        directories: vec![(path("uploads/bucket"), files)],
        root_identity: Some(IDENTITY),
        buckets: vec!["bucket".to_string()],
    }
}

#[test]
fn an_upload_without_new_names_goes_straight_to_its_uploads() {
    let UploadStep::ApplyNames(awaiting, renames) = work(vec![path("uploads/bucket/x")]).start()
    else {
        panic!("names come first");
    };
    let LocalStep::Applied(Ok(names)) = renames else {
        panic!("there is nothing to rename");
    };
    assert_eq!(names, vec![("uploads/bucket/x".to_string(), "uploads/bucket/x".to_string())]);
    let UploadStep::Upload(awaiting, uploads) = awaiting.resume(Ok(names)) else {
        panic!("the uploads follow");
    };
    assert_eq!(uploads[0].0, "uploads/bucket");
    assert_eq!(uploads[0].1[0].file, "uploads/bucket/x");
    assert_eq!(uploads[0].1[0].target.uri(), "gs://bucket/x");
    assert!(matches!(awaiting.resume(Ok(())), UploadStep::Done(Ok(()))));
}

#[test]
fn a_failed_upload_gives_the_old_names_back() {
    let decomposed = "uploads/bucket/e\u{301}";
    let UploadStep::ApplyNames(awaiting, renames) = work(vec![path(decomposed)]).start() else {
        panic!("names come first");
    };
    assert!(matches!(renames, LocalStep::Rename(_, _)));
    let names = vec![(decomposed.to_string(), "uploads/bucket/\u{e9}".to_string())];
    let UploadStep::Upload(awaiting, uploads) = awaiting.resume(Ok(names)) else {
        panic!("the uploads follow");
    };
    assert_eq!(uploads[0].1[0].file, "uploads/bucket/\u{e9}");
    let failure = AppError::Message("upload failed".to_string());
    let UploadStep::RestoreNames(awaiting, renames) = awaiting.resume(Err(failure)) else {
        panic!("the old names come back");
    };
    assert!(matches!(renames, LocalStep::RenameBack(_, _)));
    let errors = vec![AppError::Message("no way back".to_string())];
    let UploadStep::Done(Err(error)) = awaiting.resume(errors) else {
        panic!("the upload failed");
    };
    assert_eq!(error.to_string(), "upload failed; rollback failed: no way back");
}

#[test]
fn colliding_local_names_are_refused_before_anything_is_renamed() {
    let files = vec![path("uploads/bucket/e\u{301}"), path("uploads/bucket/\u{e9}")];
    assert!(matches!(
        work(files).start(),
        UploadStep::Done(Err(AppError::Collision(_)))
    ));
}

#[test]
fn the_last_planned_name_of_a_file_counts() {
    let directories = vec![(path("uploads/a"), vec![path("uploads/a/x")])];
    let names = vec![
        ("uploads/a/x".to_string(), "uploads/a/first".to_string()),
        ("uploads//a/./x".to_string(), "uploads/a/second".to_string()),
        ("uploads/a/y".to_string(), "uploads/a/other".to_string()),
    ];
    let planned = plan_uploads(&directories, &names, STAGING_PREFIX).unwrap();
    assert_eq!(planned[0].1[0].file, "uploads/a/second");
    assert_eq!(planned[0].1[0].target.uri(), "gs://a/second");
}
