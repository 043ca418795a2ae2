use task_googlecloud::object_path::MAX_OBJECT_NAME_BYTES;
use task_googlecloud::{AppError, ObjectPath};

#[test]
fn accepts_names_at_the_cloud_storage_limit() {
    let path = ObjectPath::from_parts("bucket", &"a".repeat(MAX_OBJECT_NAME_BYTES));

    assert!(path.validate_name_length("test").is_ok());
}

#[test]
fn reports_the_validation_purpose_for_long_names() {
    let path = ObjectPath::from_parts("bucket", &"a".repeat(MAX_OBJECT_NAME_BYTES + 1));

    let error = path.validate_name_length("normalized target").unwrap_err();

    assert!(matches!(
        error,
        AppError::Message(message)
            if message.contains("normalized target") && message.contains("gs://bucket/")
    ));
}

#[test]
fn counts_bytes_rather_than_characters() {
    let half = "é".repeat(MAX_OBJECT_NAME_BYTES / 2);
    assert!(ObjectPath::from_parts("bucket", &half).validate_name_length("test").is_ok());
    let longer = format!("{half}a");
    assert!(ObjectPath::from_parts("bucket", &longer).validate_name_length("test").is_err());
}

#[test]
fn rejects_what_is_no_storage_uri() {
    for text in ["", "gs:/bucket/object", "s3://bucket/object", "gs://", "gs:///object"] {
        assert!(
            matches!(
                ObjectPath::parse(text),
                Err(AppError::InvalidStorageUri(shown)) if shown == text
            ),
            "{text:?}"
        );
    }
}

#[test]
fn uris_tell_objects_apart() {
    let path = ObjectPath::parse("gs://bucket/a/b").unwrap();
    assert_eq!(path, ObjectPath::from_parts("bucket", "a/b"));
    assert_ne!(path.uri(), ObjectPath::from_parts("bucket", "a").uri());
    assert_eq!(path.clone().uri(), "gs://bucket/a/b");
}
