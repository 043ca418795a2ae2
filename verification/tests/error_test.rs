use task_googlecloud::error::{IoError, IoErrorKind};
use task_googlecloud::AppError;

#[test]
fn missing_generation_errors_are_not_silently_ignored() {
    let error = AppError::MissingGeneration("gs://bucket/object".to_string());
    assert_eq!(
        error.to_string(),
        "Cannot verify ownership for \"gs://bucket/object\" without a generation"
    );
}

fn io(message: &str) -> IoError {
    IoError::new(IoErrorKind::Other, message)
}

#[test]
fn errors_are_worded_for_the_user() {
    let worded = [
        (AppError::Message("plain".to_string()), "plain"),
        (AppError::Io(io("disk")), "I/O failed: disk"),
        (AppError::UploadSource(io("gone")), "Cannot read the upload source: gone"),
        (AppError::Http("timeout".to_string()), "HTTP request failed: timeout"),
        (
            AppError::Storage { status: 503, message: "busy".to_string() },
            "Cloud Storage API request failed (503): busy",
        ),
        (AppError::StorageResponse("odd reply".to_string()), "odd reply"),
        (
            AppError::BucketLockConflict(Box::new(AppError::Message("held".to_string()))),
            "Cloud Storage bucket lock conflict: held",
        ),
        (
            AppError::Command {
                operation: "op".to_string(),
                status: "3".to_string(),
                details: ": why".to_string(),
            },
            "Cloud command failed: op (exit status: 3): why",
        ),
        (
            AppError::Token(Box::new(AppError::Interrupted), true),
            "Cloud Storage token retrieval failed: Operation interrupted",
        ),
        (
            AppError::Recovery {
                paths: "a".to_string(),
                operation: "b".to_string(),
                details: "c".to_string(),
            },
            "Manual recovery required for a after b; c",
        ),
        (AppError::Collision("x".to_string()), "Normalized names collide: x"),
        (
            AppError::Rollback {
                original: Box::new(AppError::Message("first".to_string())),
                details: "then".to_string(),
            },
            "first; rollback failed: then",
        ),
        (AppError::Interrupted, "Operation interrupted"),
        (
            AppError::interrupted_after_move_rollback("5".to_string()),
            "Operation interrupted after restoring a moved object",
        ),
        (
            AppError::InterruptedAfterRequest,
            "Operation interrupted during a Cloud Storage request",
        ),
        (
            AppError::UnsupportedPlatform("plan9".to_string()),
            "Atomic no-replace rename is not supported on plan9",
        ),
        (
            AppError::InvalidStorageUri("a\"b\n".to_string()),
            "Expected a Cloud Storage URI: \"a\\\"b\\n\"",
        ),
    ];
    for (error, words) in worded {
        assert_eq!(error.to_string(), words);
    }
}

#[test]
fn rollback_failures_are_joined_to_the_original() {
    let original = || AppError::Message("original".to_string());
    assert_eq!(AppError::rollback(original(), Vec::new()).to_string(), "original");
    let errors = vec![AppError::Message("one".to_string()), AppError::Interrupted];
    let error = AppError::rollback(original(), errors);
    assert_eq!(error.to_string(), "original; rollback failed: one; Operation interrupted");
}

#[test]
fn errors_tell_whether_storage_may_have_changed() {
    let token = |reached| AppError::Token(Box::new(AppError::Interrupted), reached);
    assert!(!AppError::UploadSource(io("x")).reached_storage());
    assert!(!AppError::Interrupted.reached_storage());
    assert!(!token(false).reached_storage());
    assert!(token(true).reached_storage());
    assert!(token(false).mark_reached_storage().reached_storage());
    assert!(!AppError::Interrupted.mark_reached_storage().reached_storage());
    assert!(AppError::Message("x".to_string()).reached_storage());

    assert!(AppError::Http("x".to_string()).may_have_sent_storage_request());
    assert!(AppError::InterruptedAfterRequest.may_have_sent_storage_request());
    assert!(token(true).may_have_sent_storage_request());
    assert!(!token(false).may_have_sent_storage_request());
    assert!(!AppError::Message("x".to_string()).may_have_sent_storage_request());
    let wrapped = AppError::rollback(
        AppError::Storage { status: 500, message: String::new() },
        vec![AppError::Interrupted],
    );
    assert!(wrapped.may_have_sent_storage_request());
}

#[test]
fn a_rollback_keeps_what_the_original_was() {
    let restored = AppError::interrupted_after_move_rollback("9".to_string());
    assert!(restored.is_interrupted());
    let wrapped = AppError::rollback(restored, vec![AppError::Interrupted]);
    assert_eq!(wrapped.restored_move_generation(), Some("9"));
    assert!(!wrapped.is_interrupted());
    assert!(AppError::token(AppError::Interrupted).is_interrupted());

    let conflict = AppError::BucketLockConflict(Box::new(AppError::Interrupted));
    let wrapped = AppError::rollback(conflict, vec![AppError::Interrupted]);
    assert!(wrapped.is_bucket_lock_conflict());
    assert!(!AppError::Interrupted.is_bucket_lock_conflict());
    assert_eq!(AppError::Storage { status: 404, message: String::new() }.status(), Some(404));
    assert_eq!(wrapped.status(), None);
}
