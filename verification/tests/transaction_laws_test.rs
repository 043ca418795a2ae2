use std::cell::{Cell, RefCell};
use std::collections::BTreeMap;
use std::sync::atomic::AtomicBool;
use std::sync::Arc;

use task_googlecloud::upload::{upload_planned_files, PlannedUpload};
use task_googlecloud::upload_source::UploadSourceIdentity;
use task_googlecloud::{process_moves, AppError, InterruptFlag, ObjectPath, StorageClient};

/// A storage that keeps contents and generations by name, and that refuses one
/// of the changes it is asked for.
struct MemoryStorage {
    objects: RefCell<BTreeMap<String, (String, u64)>>,
    generation: Cell<u64>,
    changes: Cell<usize>,
    refused: usize,
}

fn storage(names: &[&str], refused: usize) -> MemoryStorage {
    let mut objects = BTreeMap::new();
    for name in names {
        objects.insert(format!("gs://bucket/{name}"), (format!("content of {name}"), 1));
    }
    MemoryStorage {
        objects: RefCell::new(objects),
        generation: Cell::new(100),
        changes: Cell::new(0),
        refused,
    }
}

impl MemoryStorage {
    fn contents(&self) -> Vec<(String, String)> {
        let objects = self.objects.borrow();
        objects.iter().map(|(name, object)| (name.clone(), object.0.clone())).collect()
    }

    fn next(&self) -> Result<(), AppError> {
        self.changes.set(self.changes.get() + 1);
        if self.changes.get() == self.refused {
            return Err(AppError::Message("refused".to_string()));
        }
        Ok(())
    }

    fn put(&self, name: String, content: String) -> Result<String, AppError> {
        let mut objects = self.objects.borrow_mut();
        if objects.contains_key(&name) {
            return Err(AppError::Message(format!("{name} is taken")));
        }
        self.generation.set(self.generation.get() + 1);
        objects.insert(name, (content, self.generation.get()));
        Ok(self.generation.get().to_string())
    }

    fn take(&self, name: &str, generation: Option<&str>) -> Result<String, AppError> {
        let mut objects = self.objects.borrow_mut();
        match objects.remove(name) {
            Some((content, owned)) => {
                if generation.is_some_and(|expected| expected != owned.to_string()) {
                    return Err(AppError::Message(format!("{name} has changed")));
                }
                Ok(content)
            }
            None => Err(AppError::Message(format!("{name} is missing"))),
        }
    }
}

impl StorageClient for MemoryStorage {
    fn list_objects(&self, _bucket: &str) -> Result<Vec<String>, AppError> {
        Ok(self.objects.borrow().keys().cloned().collect())
    }

    fn with_bucket_locks<T, F>(&self, _buckets: &[&str], operation: F) -> Result<T, AppError>
    where
        F: FnOnce() -> Result<T, AppError>,
    {
        operation()
    }

    fn upload_file_with_identity(
        &self,
        source: &str,
        target: &ObjectPath,
        _identity: Option<UploadSourceIdentity>,
    ) -> Result<String, AppError> {
        self.upload_file(source, target)
    }

    fn upload_file(&self, source: &str, target: &ObjectPath) -> Result<String, AppError> {
        self.next()?;
        self.put(target.uri(), source.to_string())
    }

    fn move_object(
        &self,
        source: &ObjectPath,
        target: &ObjectPath,
        expected_source_generation: Option<&str>,
    ) -> Result<String, AppError> {
        self.next()?;
        let content = self.take(&source.uri(), expected_source_generation)?;
        self.put(target.uri(), content)
    }

    fn rollback_object(
        &self,
        source: &ObjectPath,
        target: &ObjectPath,
        generation: &str,
    ) -> Result<String, AppError> {
        let content = self.take(&target.uri(), Some(generation))?;
        self.put(source.uri(), content)
    }

    fn cleanup_object(&self, target: &ObjectPath, generation: &str) -> Result<(), AppError> {
        self.take(&target.uri(), Some(generation))?;
        Ok(())
    }

    fn confirm_move_after_failure(
        &self,
        _source: &ObjectPath,
        _target: &ObjectPath,
        _operation: &AppError,
    ) -> Result<(), AppError> {
        Ok(())
    }

    fn confirm_write_after_failure(
        &self,
        _target: &ObjectPath,
        _operation: &AppError,
    ) -> Result<(), AppError> {
        Ok(())
    }
}

fn interrupt() -> InterruptFlag {
    InterruptFlag::from_atomic(Arc::new(AtomicBool::new(false)))
}

fn three_moves() -> Vec<(ObjectPath, ObjectPath, ObjectPath)> {
    ["a", "b", "c"]
        .map(|name| {
            (
                ObjectPath::from_parts("bucket", name),
                ObjectPath::from_parts("bucket", &format!("new {name}")),
                ObjectPath::from_parts("bucket", &format!("staged {name}")),
            )
        })
        .into()
}

fn three_uploads() -> Vec<(String, Vec<PlannedUpload>)> {
    let uploads = ["a", "b", "c"].map(|name| PlannedUpload {
        file: format!("uploads/bucket/{name}"),
        staging: ObjectPath::from_parts("bucket", &format!("staged {name}")),
        target: ObjectPath::from_parts("bucket", name),
    });
    vec![("uploads/bucket".to_string(), uploads.into())]
}

#[test]
fn moves_that_fail_anywhere_leave_every_object_where_it_was() {
    for refused in 1..=6 {
        let storage = storage(&["a", "b", "c", "other"], refused);
        let before = storage.contents();

        let error = process_moves(&storage, &interrupt(), three_moves()).unwrap_err();

        assert_eq!(error.to_string(), "refused");
        assert_eq!(storage.contents(), before);
    }
}

#[test]
fn finished_moves_keep_every_content() {
    let storage = storage(&["a", "b", "c", "other"], 0);

    process_moves(&storage, &interrupt(), three_moves()).unwrap();

    assert_eq!(
        storage.contents(),
        vec![
            ("gs://bucket/new a".to_string(), "content of a".to_string()),
            ("gs://bucket/new b".to_string(), "content of b".to_string()),
            ("gs://bucket/new c".to_string(), "content of c".to_string()),
            ("gs://bucket/other".to_string(), "content of other".to_string()),
        ]
    );
}

#[test]
fn uploads_that_fail_anywhere_leave_nothing_behind() {
    for refused in 1..=6 {
        let storage = storage(&["other"], refused);
        let before = storage.contents();

        let error = upload_planned_files(&storage, &interrupt(), &three_uploads()).unwrap_err();

        assert_eq!(error.to_string(), "refused");
        assert_eq!(storage.contents(), before);
    }
}

#[test]
fn finished_uploads_stand_under_their_names_alone() {
    let storage = storage(&["other"], 0);

    upload_planned_files(&storage, &interrupt(), &three_uploads()).unwrap();

    assert_eq!(
        storage.contents(),
        vec![
            ("gs://bucket/a".to_string(), "uploads/bucket/a".to_string()),
            ("gs://bucket/b".to_string(), "uploads/bucket/b".to_string()),
            ("gs://bucket/c".to_string(), "uploads/bucket/c".to_string()),
            ("gs://bucket/other".to_string(), "content of other".to_string()),
        ]
    );
}
