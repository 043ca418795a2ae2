use std::cell::RefCell;
use std::sync::atomic::{AtomicBool, Ordering};
use std::sync::Arc;

use task_googlecloud::atomic_rename::{DirectoryIdentity, FileIdentity};
use task_googlecloud::normalize::{process_moves_unlocked, PlannedMove};
use task_googlecloud::object_move::{execute, execute_upload, execute_upload_with_identity};
use task_googlecloud::undoing::rollback_moves;
use task_googlecloud::upload::{upload_planned_files, PlannedUpload};
use task_googlecloud::upload_source::UploadSourceIdentity;
use task_googlecloud::{
    process_moves, AppError, InterruptFlag, ObjectPath, RemoteChange, StorageClient,
};

/// A storage that notes every call, with the state of the interrupt flag, and that
/// answers changes from a list.
struct NotingStorage {
    flag: Arc<AtomicBool>,
    raise_on: Option<usize>,
    changes: RefCell<Vec<Result<String, AppError>>>,
    confirmation: RefCell<Result<(), AppError>>,
    calls: RefCell<Vec<String>>,
}

impl NotingStorage {
    fn new(changes: Vec<Result<String, AppError>>) -> Self {
        NotingStorage {
            flag: Arc::new(AtomicBool::new(false)),
            raise_on: None,
            changes: RefCell::new(changes),
            confirmation: RefCell::new(Ok(())),
            calls: RefCell::new(Vec::new()),
        }
    }

    fn interrupt(&self) -> InterruptFlag {
        InterruptFlag::from_atomic(Arc::clone(&self.flag))
    }

    fn note(&self, call: String) {
        let raised = if self.flag.load(Ordering::Relaxed) { " (raised)" } else { "" };
        self.calls.borrow_mut().push(format!("{call}{raised}"));
    }

    fn change(&self, call: String) -> Result<String, AppError> {
        self.note(call);
        if self.raise_on == Some(self.calls.borrow().len()) {
            self.flag.store(true, Ordering::Relaxed);
        }
        let mut changes = self.changes.borrow_mut();
        if changes.is_empty() {
            return Ok("7".to_string());
        }
        changes.remove(0)
    }

    fn calls(&self) -> Vec<String> {
        self.calls.borrow().clone()
    }
}

impl StorageClient for NotingStorage {
    fn list_objects(&self, bucket: &str) -> Result<Vec<String>, AppError> {
        self.note(format!("list {bucket}"));
        Ok(Vec::new())
    }

    fn with_bucket_locks<T, F>(&self, buckets: &[&str], operation: F) -> Result<T, AppError>
    where
        F: FnOnce() -> Result<T, AppError>,
    {
        self.note(format!("lock {}", buckets.join(" ")));
        let result = operation();
        self.note("unlock".to_string());
        result
    }

    fn upload_file_with_identity(
        &self,
        source: &str,
        target: &ObjectPath,
        identity: Option<UploadSourceIdentity>,
    ) -> Result<String, AppError> {
        let inode = identity.map(|identity| identity.file.inode);
        self.change(format!("upload {source} {} {inode:?}", target.object))
    }

    fn upload_file(&self, source: &str, target: &ObjectPath) -> Result<String, AppError> {
        self.upload_file_with_identity(source, target, None)
    }

    fn move_object(
        &self,
        source: &ObjectPath,
        target: &ObjectPath,
        expected_source_generation: Option<&str>,
    ) -> Result<String, AppError> {
        let expected = expected_source_generation.unwrap_or("any");
        self.change(format!("move {} {} {expected}", source.object, target.object))
    }

    fn rollback_object(
        &self,
        source: &ObjectPath,
        target: &ObjectPath,
        target_generation: &str,
    ) -> Result<String, AppError> {
        self.note(format!("back {} {} {target_generation}", source.object, target.object));
        Ok("9".to_string())
    }

    fn cleanup_object(&self, target: &ObjectPath, generation: &str) -> Result<(), AppError> {
        self.note(format!("remove {} {generation}", target.object));
        Ok(())
    }

    fn confirm_move_after_failure(
        &self,
        source: &ObjectPath,
        target: &ObjectPath,
        _operation: &AppError,
    ) -> Result<(), AppError> {
        self.note(format!("confirm {} {}", source.object, target.object));
        self.confirmation.replace(Ok(()))
    }

    fn confirm_write_after_failure(
        &self,
        target: &ObjectPath,
        _operation: &AppError,
    ) -> Result<(), AppError> {
        self.note(format!("confirm {}", target.object));
        self.confirmation.replace(Ok(()))
    }
}

fn path(name: &str) -> ObjectPath {
    ObjectPath::from_parts("bucket", name)
}

fn failure(message: &str) -> AppError {
    AppError::Message(message.to_string())
}

#[test]
fn an_interrupt_keeps_a_change_from_being_asked_for() {
    let storage = NotingStorage::new(Vec::new());
    storage.flag.store(true, Ordering::Relaxed);

    let outcome = execute(&storage, &storage.interrupt(), &path("a"), &path("b"), None);

    assert!(matches!(outcome, Err(AppError::Interrupted)));
    assert!(storage.calls().is_empty());
}

#[test]
fn a_success_is_not_confirmed() {
    let storage = NotingStorage::new(vec![Ok("3".to_string())]);

    let outcome = execute(&storage, &storage.interrupt(), &path("a"), &path("b"), Some("2"));

    assert_eq!(outcome.unwrap(), "3");
    assert_eq!(storage.calls(), vec!["move a b 2"]);
}

#[test]
fn a_failure_is_confirmed_once() {
    let storage = NotingStorage::new(vec![Err(failure("lost"))]);
    let outcome = execute(&storage, &storage.interrupt(), &path("a"), &path("b"), None);
    assert_eq!(outcome.unwrap_err().to_string(), "lost");
    assert_eq!(storage.calls(), vec!["move a b any", "confirm a b"]);

    let storage = NotingStorage::new(vec![Err(failure("lost"))]);
    storage.confirmation.replace(Err(failure("changed")));
    let outcome = execute_upload(&storage, &storage.interrupt(), "file", &path("b"));
    assert_eq!(outcome.unwrap_err().to_string(), "changed");
    assert_eq!(storage.calls(), vec!["upload file b None", "confirm b"]);
}

#[test]
fn failures_that_tell_the_state_are_passed_on() {
    let conflict = AppError::BucketLockConflict(Box::new(failure("locked")));
    let restored = AppError::interrupted_after_move_rollback("5".to_string());
    for error in [conflict, restored] {
        let message = error.to_string();
        let storage = NotingStorage::new(vec![Err(error)]);
        let outcome = execute(&storage, &storage.interrupt(), &path("a"), &path("b"), None);
        assert_eq!(outcome.unwrap_err().to_string(), message);
        assert_eq!(storage.calls(), vec!["move a b any"]);
    }
}

#[test]
fn the_flag_is_lowered_before_an_interrupted_change_is_confirmed() {
    let mut storage = NotingStorage::new(vec![Err(AppError::InterruptedAfterRequest)]);
    storage.raise_on = Some(1);

    let outcome = execute(&storage, &storage.interrupt(), &path("a"), &path("b"), None);

    assert!(outcome.unwrap_err().is_interrupted());
    assert_eq!(storage.calls(), vec!["move a b any", "confirm a b"]);
}

#[test]
fn the_expected_identity_is_handed_to_the_storage() {
    let storage = NotingStorage::new(Vec::new());
    let identity = UploadSourceIdentity {
        file: FileIdentity { device: 1, inode: 42 },
        directory: DirectoryIdentity { device: 1, inode: 2 },
    };

    execute_upload_with_identity(&storage, &storage.interrupt(), "file", &path("a"), Some(identity))
        .unwrap();

    assert_eq!(storage.calls(), vec!["upload file a Some(42)"]);
}

fn two_moves() -> Vec<(ObjectPath, ObjectPath, ObjectPath)> {
    ["a", "b"]
        .map(|name| (path(name), path(&format!("new-{name}")), path(&format!("tmp-{name}"))))
        .into()
}

#[test]
fn every_move_is_staged_before_any_is_finalized_and_under_the_locks() {
    let storage = NotingStorage::new(Vec::new());

    process_moves(&storage, &storage.interrupt(), two_moves()).unwrap();

    assert_eq!(
        storage.calls(),
        vec![
            "lock bucket bucket bucket bucket bucket bucket",
            "move a tmp-a any",
            "move b tmp-b any",
            "move tmp-a new-a 7",
            "move tmp-b new-b 7",
            "unlock",
        ]
    );
}

#[test]
fn the_flag_is_lowered_before_anything_is_undone() {
    let mut storage = NotingStorage::new(Vec::new());
    storage.raise_on = Some(4);

    let error = process_moves(&storage, &storage.interrupt(), two_moves()).unwrap_err();

    assert!(matches!(error, AppError::Interrupted));
    assert_eq!(
        storage.calls(),
        vec![
            "lock bucket bucket bucket bucket bucket bucket",
            "move a tmp-a any",
            "move b tmp-b any",
            "move tmp-a new-a 7",
            "back a new-a 7",
            "back b tmp-b 7",
            "unlock",
        ]
    );
}

#[test]
fn a_failed_upload_moves_nothing_and_is_removed_last_first() {
    let storage = NotingStorage::new(vec![
        Ok("1".to_string()),
        Ok("2".to_string()),
        Err(failure("full")),
    ]);
    let uploads = ["a", "b", "c", "d"].map(|name| PlannedUpload {
        file: name.to_string(),
        staging: path(&format!("staged-{name}")),
        target: path(name),
    });

    let error = upload_planned_files(
        &storage,
        &storage.interrupt(),
        &vec![("uploads/bucket".to_string(), uploads.into())],
    )
    .unwrap_err();

    assert_eq!(error.to_string(), "full");
    assert_eq!(
        storage.calls(),
        vec![
            "lock bucket bucket bucket bucket",
            "upload a staged-a None",
            "upload b staged-b None",
            "upload c staged-c None",
            "confirm staged-c",
            "remove staged-b 2",
            "remove staged-a 1",
            "unlock",
        ]
    );
}

#[test]
fn an_interrupt_after_the_first_move_undoes_it_alone() {
    let mut storage = NotingStorage::new(Vec::new());
    storage.raise_on = Some(1);
    let moves = [PlannedMove { source: path("a"), target: path("b"), temporary: path("t") }];

    let error = process_moves_unlocked(&storage, &storage.interrupt(), &moves).unwrap_err();

    assert!(matches!(error, AppError::Interrupted));
    assert_eq!(storage.calls(), vec!["move a t any", "back a t 7"]);
}

#[test]
fn no_moves_succeed_without_a_call() {
    let storage = NotingStorage::new(Vec::new());
    process_moves_unlocked(&storage, &storage.interrupt(), &[]).unwrap();
    assert!(storage.calls().is_empty());
}

#[test]
fn moves_are_moved_back_finalized_ones_first() {
    let storage = NotingStorage::new(Vec::new());
    let change = |source: &str, target: &str, generation: &str| RemoteChange {
        source: path(source),
        target: path(target),
        generation: generation.to_string(),
    };
    let staged = [change("a", "ta", "1"), change("b", "tb", "2"), change("c", "tc", "3")];
    let finalized = [change("a", "na", "4"), change("b", "nb", "5")];

    let errors = rollback_moves(&storage, &staged, &finalized);

    assert!(errors.is_empty());
    assert_eq!(storage.calls(), vec!["back b nb 5", "back a na 4", "back c tc 3"]);
}
