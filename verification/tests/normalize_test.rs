use std::sync::{
    atomic::{AtomicBool, Ordering},
    Arc,
};

use task_googlecloud::normalize::{
    normalize_bucket, suffixed_path, temporary_path, temporary_suffix, TEMPORARY_SUFFIX_BYTES,
};
use task_googlecloud::object_path::MAX_OBJECT_NAME_BYTES;
use task_googlecloud::upload_source::UploadSourceIdentity;
use task_googlecloud::{
    normalized, process_moves, AppError, InterruptFlag, ObjectPath, StorageClient,
};

struct FakeStorage {
    objects: Vec<String>,
    locked: std::cell::RefCell<Vec<String>>,
    generations: std::cell::RefCell<Vec<Option<String>>>,
    moves: std::cell::RefCell<Vec<(String, String)>>,
    rollbacks: std::cell::RefCell<Vec<(String, String)>>,
    fail_on_move: Option<usize>,
    interrupt_after_move: Option<Arc<AtomicBool>>,
}

impl StorageClient for FakeStorage {
    fn list_objects(&self, _bucket: &str) -> Result<Vec<String>, AppError> {
        Ok(self.objects.clone())
    }

    fn with_bucket_locks<T, F>(&self, buckets: &[&str], operation: F) -> Result<T, AppError>
    where
        F: FnOnce() -> Result<T, AppError>,
    {
        self.locked.borrow_mut().extend(buckets.iter().map(|bucket| bucket.to_string()));
        operation()
    }

    fn upload_file_with_identity(
        &self,
        source: &str,
        target: &ObjectPath,
        _identity: Option<UploadSourceIdentity>,
    ) -> Result<String, AppError> {
        self.upload_file(source, target)
    }

    fn upload_file(&self, _source: &str, _target: &ObjectPath) -> Result<String, AppError> {
        Ok("1".to_string())
    }

    fn move_object(
        &self,
        source: &ObjectPath,
        target: &ObjectPath,
        expected_source_generation: Option<&str>,
    ) -> Result<String, AppError> {
        self.generations.borrow_mut().push(expected_source_generation.map(str::to_string));
        let mut moves = self.moves.borrow_mut();
        moves.push((source.uri(), target.uri()));
        if self.fail_on_move == Some(moves.len()) {
            return Err(AppError::Message("move failed".to_string()));
        }
        if let Some(interrupted) = &self.interrupt_after_move {
            interrupted.store(true, Ordering::Relaxed);
        }
        Ok(moves.len().to_string())
    }

    fn rollback_object(
        &self,
        source: &ObjectPath,
        target: &ObjectPath,
        _generation: &str,
    ) -> Result<String, AppError> {
        self.rollbacks
            .borrow_mut()
            .push((source.uri(), target.uri()));
        Ok("rollback".to_string())
    }

    fn cleanup_object(
        &self,
        _target: &ObjectPath,
        _target_generation: &str,
    ) -> Result<(), AppError> {
        Ok(())
    }

    fn confirm_move_after_failure(
        &self,
        _source: &ObjectPath,
        _target: &ObjectPath,
        _operation: &AppError,
    ) -> Result<(), AppError> {
        Ok(())
    }

    fn confirm_write_after_failure(
        &self,
        _target: &ObjectPath,
        _operation: &AppError,
    ) -> Result<(), AppError> {
        Ok(())
    }
}

#[test]
fn rolls_back_staged_moves_when_finalization_fails() {
    let storage = FakeStorage {
        objects: Vec::new(),
        locked: std::cell::RefCell::new(Vec::new()),
        generations: std::cell::RefCell::new(Vec::new()),
        moves: std::cell::RefCell::new(Vec::new()),
        rollbacks: std::cell::RefCell::new(Vec::new()),
        fail_on_move: Some(2),
        interrupt_after_move: None,
    };
    let interrupt = InterruptFlag::from_atomic(Arc::new(AtomicBool::new(false)));
    let source = ObjectPath::parse("gs://bucket/e\u{301}.txt").unwrap();
    let target = ObjectPath::parse("gs://bucket/é.txt").unwrap();
    let temporary = ObjectPath::parse("gs://bucket/e\u{301}.txt.task-googlecloud-token").unwrap();

    let result = process_moves(&storage, &interrupt, vec![(source, target, temporary)]);

    assert!(result.is_err());
    assert_eq!(storage.rollbacks.borrow().len(), 1);
    assert_eq!(storage.rollbacks.borrow()[0].0, "gs://bucket/e\u{301}.txt");
}

#[test]
fn rolls_back_finalized_moves_before_unfinalized_staged_moves() {
    let storage = FakeStorage {
        objects: Vec::new(),
        locked: std::cell::RefCell::new(Vec::new()),
        generations: std::cell::RefCell::new(Vec::new()),
        moves: std::cell::RefCell::new(Vec::new()),
        rollbacks: std::cell::RefCell::new(Vec::new()),
        fail_on_move: Some(6),
        interrupt_after_move: None,
    };
    let interrupt = InterruptFlag::from_atomic(Arc::new(AtomicBool::new(false)));
    let first_source = ObjectPath::parse("gs://bucket/first-source").unwrap();
    let first_target = ObjectPath::parse("gs://bucket/first-target").unwrap();
    let first_temporary = ObjectPath::parse("gs://bucket/first-temporary").unwrap();
    let second_source = ObjectPath::parse("gs://bucket/second-source").unwrap();
    let second_target = ObjectPath::parse("gs://bucket/second-target").unwrap();
    let second_temporary = ObjectPath::parse("gs://bucket/second-temporary").unwrap();
    let third_source = ObjectPath::parse("gs://bucket/third-source").unwrap();
    let third_target = ObjectPath::parse("gs://bucket/third-target").unwrap();
    let third_temporary = ObjectPath::parse("gs://bucket/third-temporary").unwrap();

    let result = process_moves(
        &storage,
        &interrupt,
        vec![
            (first_source, first_target, first_temporary),
            (second_source, second_target, second_temporary),
            (third_source, third_target, third_temporary),
        ],
    );

    assert!(result.is_err());
    assert_eq!(
        *storage.rollbacks.borrow(),
        vec![
            (
                "gs://bucket/second-source".to_string(),
                "gs://bucket/second-target".to_string(),
            ),
            (
                "gs://bucket/first-source".to_string(),
                "gs://bucket/first-target".to_string(),
            ),
            (
                "gs://bucket/third-source".to_string(),
                "gs://bucket/third-temporary".to_string(),
            ),
        ]
    );
}

#[test]
fn rolls_back_staged_moves_in_reverse_order_when_staging_fails() {
    let storage = FakeStorage {
        objects: Vec::new(),
        locked: std::cell::RefCell::new(Vec::new()),
        generations: std::cell::RefCell::new(Vec::new()),
        moves: std::cell::RefCell::new(Vec::new()),
        rollbacks: std::cell::RefCell::new(Vec::new()),
        fail_on_move: Some(3),
        interrupt_after_move: None,
    };
    let interrupt = InterruptFlag::from_atomic(Arc::new(AtomicBool::new(false)));
    let first_source = ObjectPath::parse("gs://bucket/first-source").unwrap();
    let first_target = ObjectPath::parse("gs://bucket/first-target").unwrap();
    let first_temporary = ObjectPath::parse("gs://bucket/first-temporary").unwrap();
    let second_source = ObjectPath::parse("gs://bucket/second-source").unwrap();
    let second_target = ObjectPath::parse("gs://bucket/second-target").unwrap();
    let second_temporary = ObjectPath::parse("gs://bucket/second-temporary").unwrap();
    let third_source = ObjectPath::parse("gs://bucket/third-source").unwrap();
    let third_target = ObjectPath::parse("gs://bucket/third-target").unwrap();
    let third_temporary = ObjectPath::parse("gs://bucket/third-temporary").unwrap();

    let result = process_moves(
        &storage,
        &interrupt,
        vec![
            (first_source, first_target, first_temporary),
            (second_source, second_target, second_temporary),
            (third_source, third_target, third_temporary),
        ],
    );

    assert!(result.is_err());
    assert_eq!(
        *storage.rollbacks.borrow(),
        vec![
            (
                "gs://bucket/second-source".to_string(),
                "gs://bucket/second-temporary".to_string(),
            ),
            (
                "gs://bucket/first-source".to_string(),
                "gs://bucket/first-temporary".to_string(),
            ),
        ]
    );
}

#[test]
fn records_a_remote_side_effect_before_handling_an_interrupt() {
    let interrupted = Arc::new(AtomicBool::new(false));
    let storage = FakeStorage {
        objects: Vec::new(),
        locked: std::cell::RefCell::new(Vec::new()),
        generations: std::cell::RefCell::new(Vec::new()),
        moves: std::cell::RefCell::new(Vec::new()),
        rollbacks: std::cell::RefCell::new(Vec::new()),
        fail_on_move: None,
        interrupt_after_move: Some(Arc::clone(&interrupted)),
    };
    let interrupt = InterruptFlag::from_atomic(interrupted);
    let source = ObjectPath::parse("gs://bucket/source.txt").unwrap();
    let target = ObjectPath::parse("gs://bucket/target.txt").unwrap();
    let temporary = ObjectPath::parse("gs://bucket/source.txt.task-googlecloud-token").unwrap();

    let result = process_moves(&storage, &interrupt, vec![(source, target, temporary)]);

    assert!(matches!(result, Err(AppError::Interrupted)));
    assert_eq!(storage.rollbacks.borrow().len(), 1);
}

fn fake(objects: Vec<String>) -> FakeStorage {
    FakeStorage {
        objects,
        locked: std::cell::RefCell::new(Vec::new()),
        generations: std::cell::RefCell::new(Vec::new()),
        moves: std::cell::RefCell::new(Vec::new()),
        rollbacks: std::cell::RefCell::new(Vec::new()),
        fail_on_move: None,
        interrupt_after_move: None,
    }
}

fn object_name_with_bytes(length: usize) -> String {
    let mut object = "é".repeat(length / 2);
    if object.len() < length {
        object.push('a');
    }
    object
}

#[test]
fn rejects_object_names_that_would_overflow_temporary_staging() {
    let suffix_len = temporary_suffix().len();
    let source = ObjectPath {
        bucket: "bucket".to_string(),
        object: object_name_with_bytes(MAX_OBJECT_NAME_BYTES - suffix_len + 1),
    };

    let error = temporary_path(&source).unwrap_err();

    assert!(matches!(error, AppError::Message(message) if message.contains("temporary staging")));
}

#[test]
fn accepts_object_names_at_the_temporary_staging_limit() {
    let suffix_len = temporary_suffix().len();
    let source = ObjectPath {
        bucket: "bucket".to_string(),
        object: object_name_with_bytes(MAX_OBJECT_NAME_BYTES - suffix_len),
    };

    let temporary = temporary_path(&source).unwrap();

    assert_eq!(temporary.object.len(), MAX_OBJECT_NAME_BYTES);
}

#[test]
fn rejects_normalized_targets_before_remote_moves() {
    // This canonical sequence expands under NFC, so the final target can exceed the byte limit.
    let expanding_sequence = "\u{1d1bc}\u{1d16f}".repeat(13);
    let suffix_len = temporary_suffix().len();
    let source = ObjectPath {
        bucket: "bucket".to_string(),
        object: format!(
            "{}{}",
            "a".repeat(MAX_OBJECT_NAME_BYTES - suffix_len - expanding_sequence.len()),
            expanding_sequence
        ),
    };
    let target = ObjectPath {
        bucket: source.bucket.clone(),
        object: normalized(&source.object),
    };
    let storage = fake(vec![source.uri()]);
    let interrupt = InterruptFlag::from_atomic(Arc::new(AtomicBool::new(false)));

    assert_eq!(source.object.len() + suffix_len, MAX_OBJECT_NAME_BYTES);
    assert!(target.object.len() > MAX_OBJECT_NAME_BYTES);

    let result = normalize_bucket(&storage, &interrupt, "bucket");

    assert!(
        matches!(result, Err(AppError::Message(message)) if message.contains("normalized target"))
    );
    assert_eq!(storage.moves.borrow().len(), 0);
}

#[test]
fn temporary_names_are_marked_and_unique() {
    let source = ObjectPath::parse("gs://bucket/name").unwrap();
    let first = temporary_path(&source).unwrap();
    let second = temporary_path(&source).unwrap();
    assert_ne!(first, second);
    assert!(first.object.starts_with("name.task-googlecloud-"));
    assert_eq!(first.object.len(), "name".len() + TEMPORARY_SUFFIX_BYTES);
    assert_eq!(first.bucket, "bucket");
}

#[test]
fn moves_only_the_names_that_change() {
    let storage = fake(vec![
        "gs://bucket/plain".to_string(),
        "gs://bucket/e\u{301}".to_string(),
        "gs://bucket/\u{c5}".to_string(),
    ]);
    let interrupt = InterruptFlag::from_atomic(Arc::new(AtomicBool::new(false)));

    normalize_bucket(&storage, &interrupt, "bucket").unwrap();

    assert_eq!(*storage.locked.borrow(), vec!["bucket"]);
    let moves = storage.moves.borrow();
    assert_eq!(moves.len(), 2);
    assert_eq!(moves[0].0, "gs://bucket/e\u{301}");
    assert_eq!(moves[0].1, moves[1].0);
    assert_eq!(moves[1].1, "gs://bucket/\u{e9}");
    assert_eq!(*storage.generations.borrow(), vec![None, Some("1".to_string())]);
    assert!(storage.rollbacks.borrow().is_empty());
}

#[test]
fn colliding_names_are_not_moved() {
    let storage =
        fake(vec!["gs://bucket/e\u{301}".to_string(), "gs://bucket/\u{e9}".to_string()]);
    let interrupt = InterruptFlag::from_atomic(Arc::new(AtomicBool::new(false)));
    let result = normalize_bucket(&storage, &interrupt, "bucket");
    assert!(matches!(result, Err(AppError::Collision(_))));
    assert!(storage.moves.borrow().is_empty());
}

#[test]
fn every_bucket_of_the_moves_is_locked() {
    let storage = fake(Vec::new());
    let interrupt = InterruptFlag::from_atomic(Arc::new(AtomicBool::new(false)));
    let moves = vec![(
        ObjectPath::from_parts("a", "x"),
        ObjectPath::from_parts("b", "y"),
        ObjectPath::from_parts("c", "z"),
    )];
    process_moves(&storage, &interrupt, moves).unwrap();
    assert_eq!(*storage.locked.borrow(), vec!["a", "b", "c"]);
}

#[test]
fn a_failed_normalization_reports_the_failure_alone_when_undone() {
    let mut storage = fake(vec!["gs://bucket/e\u{301}".to_string()]);
    storage.fail_on_move = Some(2);
    let interrupt = InterruptFlag::from_atomic(Arc::new(AtomicBool::new(false)));
    let error = normalize_bucket(&storage, &interrupt, "bucket").unwrap_err();
    assert_eq!(error.to_string(), "move failed");
    assert_eq!(storage.rollbacks.borrow()[0].0, "gs://bucket/e\u{301}");
}

#[test]
fn a_suffix_is_refused_where_the_name_leaves_no_room() {
    let source = ObjectPath::parse("gs://bucket/name").unwrap();
    assert_eq!(suffixed_path(&source, ".mark").unwrap().uri(), "gs://bucket/name.mark");
    let full = ObjectPath::from_parts("bucket", &object_name_with_bytes(MAX_OBJECT_NAME_BYTES - 5));
    assert!(suffixed_path(&full, ".mark").is_ok());
    let over = ObjectPath::from_parts("bucket", &object_name_with_bytes(MAX_OBJECT_NAME_BYTES - 4));
    assert!(suffixed_path(&over, ".mark").is_err());
}
