use std::cell::{Cell, RefCell};
use std::collections::VecDeque;
use std::rc::Rc;
use std::sync::atomic::{AtomicBool, Ordering};
use std::sync::Arc;

use task_googlecloud::atomic_rename::Platform;
use task_googlecloud::bucket_lock::{LockSession, LockStep};
use task_googlecloud::cloud::CommandOutput;
use task_googlecloud::copy_object::CopyObject;
use task_googlecloud::error::{IoError, IoErrorKind};
use task_googlecloud::held_buckets::HeldBuckets;
use task_googlecloud::object_state::confirm_object_generation;
use task_googlecloud::relocation::{MoveObject, RollbackObject};
use task_googlecloud::storage_operations::{
    buckets_of_pair, buckets_of_target, upload_request, CleanupObject, ConfirmMove, ConfirmWrite,
    ListObjects,
};
use task_googlecloud::storage_request::{
    HttpMethod, Listing, ObjectMetadata, Payload, ReplyKind, RequestBody, Rewrite, Step,
    StorageRequest,
};
use task_googlecloud::storage_transport::{send_body, RequestOutcome, TransportStep};
use task_googlecloud::upload_file::{self, UploadFileStep};
use task_googlecloud::upload_source::SourceStep;
use task_googlecloud::upload_source::UploadSourceIdentity;
use task_googlecloud::{
    process_moves, AppError, Cloud, InterruptFlag, ObjectPath, StorageClient,
};

use serde_json::Value;

const BASE: &str = "http://127.0.0.1:1/storage/v1";

/// What the other side does with a request.
enum Answer {
    Reply(u16, String),
    /// The connection closes before the whole reply arrived.
    Incomplete,
    /// The interrupt flag is raised while the request is under way.
    InterruptedReply(u16, String),
    /// An interrupt drops the request.
    Dropped,
    /// The contents of the first request.
    Echo,
}

/// Performs the steps of every operation against scripted replies.
struct ScriptedStorage {
    answers: RefCell<VecDeque<Answer>>,
    requests: Rc<RefCell<Vec<String>>>,
    /// The token, unless it is asked for.
    token: Option<String>,
    /// The attempt to get a token that fails.
    failing_attempt: usize,
    attempts: Cell<usize>,
    interrupted: Arc<AtomicBool>,
    held: RefCell<HeldBuckets>,
}

impl ScriptedStorage {
    fn exchange(&self, request: &StorageRequest, token: &str) -> RequestOutcome {
        let method = match request.method {
            HttpMethod::Get => "GET",
            HttpMethod::Post => "POST",
            HttpMethod::Delete => "DELETE",
        };
        let body = match &request.body {
            RequestBody::Empty => String::new(),
            RequestBody::Bytes(bytes) => String::from_utf8(bytes.clone()).unwrap(),
            RequestBody::UploadSource => "contents".to_string(),
        };
        let Some(answer) = self.answers.borrow_mut().pop_front() else {
            return RequestOutcome::Failed("connection refused".to_string());
        };
        let path = request.url.strip_prefix("http://127.0.0.1:1").unwrap();
        self.requests.borrow_mut().push(format!(
            "{method} {path} HTTP/1.1\r\nAuthorization: Bearer {token}\r\nContent-Length: {}\r\n\r\n{body}",
            body.len()
        ));
        match answer {
            Answer::Reply(status, body) => response(status, body),
            Answer::Incomplete => {
                RequestOutcome::Failed("end of file before message length reached".to_string())
            }
            Answer::Dropped => {
                self.interrupted.store(true, Ordering::Relaxed);
                RequestOutcome::Interrupted
            }
            Answer::Echo => {
                let first = self.requests.borrow()[0].clone();
                response(200, first.split_once("\r\n\r\n").unwrap().1.to_string())
            }
            Answer::InterruptedReply(status, body) => {
                self.interrupted.store(true, Ordering::Relaxed);
                response(status, body)
            }
        }
    }

    fn get_token(&self) -> Result<String, AppError> {
        self.attempts.set(self.attempts.get() + 1);
        let success = self.attempts.get() != self.failing_attempt;
        Cloud::new().finish_access_token(Ok(CommandOutput {
            success,
            code: Some(if success { 0 } else { 1 }),
            stdout: b"token\n".to_vec(),
            stderr: Vec::new(),
        }))
    }

    fn is_interrupted(&self) -> bool {
        self.interrupted.load(Ordering::Relaxed)
    }

    fn send(&self, request: StorageRequest) -> Result<Payload, AppError> {
        let mut step = send_body(self.token.clone());
        loop {
            step = match step {
                TransportStep::GetToken(awaiting) => awaiting.resume(self.get_token()),
                TransportStep::CheckInterrupt(awaiting) => awaiting.resume(self.is_interrupted()),
                TransportStep::Send(awaiting, token) => {
                    awaiting.resume(self.exchange(&request, &token))
                }
                TransportStep::CheckInterruptAfter(awaiting) => {
                    awaiting.resume(self.is_interrupted())
                }
                TransportStep::Done(Err(error)) => return Err(error),
                TransportStep::Done(Ok(body)) => return read(request.reply, body),
            };
        }
    }

    fn listing(&self, request: StorageRequest) -> Result<Listing, AppError> {
        match self.send(request)? {
            Payload::Listing(listing) => Ok(listing),
            other => panic!("expected a listing, not {other:?}"),
        }
    }

    fn rewrite(&self, request: StorageRequest) -> Result<Rewrite, AppError> {
        match self.send(request)? {
            Payload::Rewrite(rewrite) => Ok(rewrite),
            other => panic!("expected a rewrite, not {other:?}"),
        }
    }

    fn copy_object(
        &self,
        source: &ObjectPath,
        target: &ObjectPath,
        source_generation: Option<&str>,
        destination_generation: Option<&str>,
    ) -> Result<String, AppError> {
        let buckets = buckets_of_pair(source, target)?;
        self.with_bucket_locks(&slices(&buckets), || {
            let (copy, request) = CopyObject::start(
                BASE.to_string(),
                source.clone(),
                target.clone(),
                source_generation.map(str::to_string),
                destination_generation.map(str::to_string),
            );
            let mut step = Step::Send(copy, request);
            loop {
                step = match step {
                    Step::Send(copy, request) => copy.resume(self.rewrite(request)),
                    Step::Done(result) => return result,
                };
            }
        })
    }
}

fn slices(names: &[String]) -> Vec<&str> {
    names.iter().map(String::as_str).collect()
}

fn response(status: u16, body: String) -> RequestOutcome {
    let message = serde_json::from_str::<Value>(&body)
        .ok()
        .and_then(|value| value["error"]["message"].as_str().map(str::to_string));
    RequestOutcome::Response { status, body: body.into_bytes(), message }
}

fn text_in(value: &Value) -> Option<String> {
    value.as_str().map(str::to_string)
}

fn read(kind: ReplyKind, body: Vec<u8>) -> Result<Payload, AppError> {
    if kind == ReplyKind::Body {
        return Ok(Payload::Body(body));
    }
    let value: Value = match serde_json::from_slice(&body) {
        Ok(value) => value,
        Err(error) => return Err(kind.invalid_reply(&error.to_string())),
    };
    match kind {
        ReplyKind::Rewrite => Ok(Payload::Rewrite(Rewrite {
            done: value["done"].as_bool().unwrap(),
            rewrite_token: text_in(&value["rewriteToken"]),
            generation: text_in(&value["resource"]["generation"]),
        })),
        ReplyKind::Listing => {
            let items = value["items"].as_array().cloned().unwrap_or_default();
            Ok(Payload::Listing(Listing {
                names: items.iter().map(|item| text_in(&item["name"]).unwrap()).collect(),
                next_page_token: text_in(&value["nextPageToken"]),
            }))
        }
        _ => match text_in(&value["generation"]) {
            Some(generation) => Ok(Payload::Metadata(ObjectMetadata { generation })),
            None => Err(kind.invalid_reply("missing field `generation`")),
        },
    }
}

impl StorageClient for ScriptedStorage {
    fn list_objects(&self, bucket: &str) -> Result<Vec<String>, AppError> {
        self.with_bucket_locks(&[bucket], || {
            let (list, request) = ListObjects::start(BASE.to_string(), bucket.to_string());
            let mut step = Step::Send(list, request);
            loop {
                step = match step {
                    Step::Send(list, request) => list.resume(self.listing(request)),
                    Step::Done(result) => return result,
                };
            }
        })
    }

    fn with_bucket_locks<T, F>(&self, buckets: &[&str], operation: F) -> Result<T, AppError>
    where
        F: FnOnce() -> Result<T, AppError>,
    {
        let mut operation = Some(operation);
        let mut value = None;
        let mut step = LockSession::start(
            BASE.to_string(),
            BASE.to_string(),
            buckets,
            &self.held.borrow().names,
        );
        loop {
            step = match step {
                LockStep::RunHeld => return operation.take().unwrap()(),
                LockStep::Send(awaiting, request) => awaiting.resume(self.send(request)),
                LockStep::ClearInterrupt(awaiting) => {
                    awaiting.resume(self.interrupted.swap(false, Ordering::Relaxed))
                }
                LockStep::Register(awaiting) => {
                    self.held.borrow_mut().register(&awaiting.session.buckets);
                    awaiting.resume(Ok(()))
                }
                LockStep::Run(awaiting) => match operation.take().unwrap()() {
                    Ok(result) => {
                        value = Some(result);
                        awaiting.resume(Ok(()))
                    }
                    Err(error) => awaiting.resume(Err(error)),
                },
                LockStep::Deregister(awaiting) => {
                    self.held.borrow_mut().unregister(&awaiting.session.buckets);
                    awaiting.resume(Ok(()))
                }
                LockStep::Done(Ok(())) => return Ok(value.take().unwrap()),
                LockStep::Done(Err(error)) => return Err(error),
            };
        }
    }

    fn upload_file_with_identity(
        &self,
        source: &str,
        target: &ObjectPath,
        _identity: Option<UploadSourceIdentity>,
    ) -> Result<String, AppError> {
        self.upload_file(source, target)
    }

    fn upload_file(&self, source: &str, target: &ObjectPath) -> Result<String, AppError> {
        let mut step = upload_file::start(
            Platform::Linux,
            BASE.to_string(),
            None,
            None,
            source,
            None,
            target.clone(),
        );
        loop {
            step = match step {
                UploadFileStep::Open(awaiting, SourceStep::OpenPath(open, path)) => {
                    let missing = IoError::new(IoErrorKind::NotFound, "no such file");
                    let opened = if path == "missing" { Err(missing) } else { Ok(()) };
                    match open.resume(opened) {
                        SourceStep::CheckRegular(kind) => match kind.resume(Ok(true)) {
                            SourceStep::Done(result) => awaiting.resume(result),
                            other => panic!("unexpected step {other:?}"),
                        },
                        SourceStep::Done(result) => awaiting.resume(result),
                        other => panic!("unexpected step {other:?}"),
                    }
                }
                UploadFileStep::Open(_, other) => panic!("unexpected step {other:?}"),
                UploadFileStep::Lock(awaiting, buckets) => {
                    return self.with_bucket_locks(&slices(&buckets), || {
                        let (upload, request) = awaiting.resume();
                        upload.finish(self.send(request))
                    });
                }
                UploadFileStep::Refused(error) => return Err(error),
            };
        }
    }

    fn move_object(
        &self,
        source: &ObjectPath,
        target: &ObjectPath,
        expected_source_generation: Option<&str>,
    ) -> Result<String, AppError> {
        let buckets = buckets_of_pair(source, target)?;
        self.with_bucket_locks(&slices(&buckets), || {
            let (moving, request) = MoveObject::start(
                BASE.to_string(),
                source.clone(),
                target.clone(),
                expected_source_generation,
            );
            let mut step = Step::Send(moving, request);
            loop {
                step = match step {
                    Step::Send(moving, request) => moving.resume(self.send(request)),
                    Step::Done(result) => return result,
                };
            }
        })
    }

    fn rollback_object(
        &self,
        source: &ObjectPath,
        target: &ObjectPath,
        target_generation: &str,
    ) -> Result<String, AppError> {
        let buckets = buckets_of_pair(source, target)?;
        self.with_bucket_locks(&slices(&buckets), || {
            let (rollback, request) = RollbackObject::start(
                BASE.to_string(),
                source.clone(),
                target.clone(),
                target_generation.to_string(),
            );
            let mut step = Step::Send(rollback, request);
            loop {
                step = match step {
                    Step::Send(rollback, request) => rollback.resume(self.send(request)),
                    Step::Done(result) => return result,
                };
            }
        })
    }

    fn cleanup_object(&self, target: &ObjectPath, target_generation: &str) -> Result<(), AppError> {
        let buckets = buckets_of_target(target)?;
        self.with_bucket_locks(&slices(&buckets), || {
            let (cleanup, request) = CleanupObject::start(
                BASE.to_string(),
                target.clone(),
                target_generation.to_string(),
            );
            let mut step = Step::Send(cleanup, request);
            loop {
                step = match step {
                    Step::Send(cleanup, request) => cleanup.resume(self.send(request)),
                    Step::Done(result) => return result,
                };
            }
        })
    }

    fn confirm_move_after_failure(
        &self,
        source: &ObjectPath,
        target: &ObjectPath,
        operation: &AppError,
    ) -> Result<(), AppError> {
        let mut step =
            ConfirmMove::start(BASE.to_string(), source.clone(), target.clone(), operation);
        loop {
            step = match step {
                Step::Send(confirm, request) => confirm.resume(self.send(request)),
                Step::Done(result) => return result,
            };
        }
    }

    fn confirm_write_after_failure(
        &self,
        target: &ObjectPath,
        operation: &AppError,
    ) -> Result<(), AppError> {
        match ConfirmWrite::start(BASE, target.clone(), operation) {
            Step::Send(confirm, request) => confirm.finish(self.send(request)),
            Step::Done(result) => result,
        }
    }
}

fn scripted(answers: Vec<Answer>) -> (ScriptedStorage, Rc<RefCell<Vec<String>>>) {
    let requests = Rc::new(RefCell::new(Vec::new()));
    let storage = ScriptedStorage {
        answers: RefCell::new(answers.into()),
        requests: Rc::clone(&requests),
        token: Some("token".to_string()),
        failing_attempt: 0,
        attempts: Cell::new(0),
        interrupted: Arc::new(AtomicBool::new(false)),
        held: RefCell::new(HeldBuckets::new()),
    };
    (storage, requests)
}

fn test_server(responses: Vec<(u16, String)>) -> (ScriptedStorage, Rc<RefCell<Vec<String>>>) {
    scripted(responses.into_iter().map(|(status, body)| Answer::Reply(status, body)).collect())
}

fn request_line(request: &str) -> &str {
    request.split_once("\r\n").map_or(request, |(line, _)| line)
}

fn bucket_lock_created() -> (u16, String) {
    (200, r#"{"generation":"lock"}"#.to_string())
}

fn bucket_lock_deleted() -> (u16, String) {
    (200, "{}".to_string())
}

fn move_with_token_failure(
    failure_attempt: usize,
    responses: Vec<(u16, String)>,
) -> (AppError, Vec<String>) {
    let (mut storage, requests) = test_server(responses);
    storage.token = None;
    storage.failing_attempt = failure_attempt;
    let source = ObjectPath::parse("gs://bucket/source").unwrap();
    let target = ObjectPath::parse("gs://bucket/target").unwrap();

    let error = storage.move_object(&source, &target, None).unwrap_err();

    let requests = requests.borrow().clone();
    (error, requests)
}

fn rollback_with_token_failure(
    failure_attempt: usize,
    responses: Vec<(u16, String)>,
) -> (AppError, Vec<String>) {
    let (mut storage, requests) = test_server(responses);
    storage.token = None;
    storage.failing_attempt = failure_attempt;
    let source = ObjectPath::parse("gs://bucket/source").unwrap();
    let target = ObjectPath::parse("gs://bucket/target").unwrap();

    let error = storage.rollback_object(&source, &target, "22").unwrap_err();

    let requests = requests.borrow().clone();
    (error, requests)
}

#[test]
fn parses_and_round_trips_storage_uris() {
    let path = ObjectPath::parse("gs://bucket/folder*?[]#/object").unwrap();
    assert_eq!(path.bucket, "bucket");
    assert_eq!(path.object, "folder*?[]#/object");
    assert_eq!(path.uri(), "gs://bucket/folder*?[]#/object");
}

#[test]
fn encodes_object_names_as_path_data() {
    let (storage, requests) = test_server(vec![
        bucket_lock_created(),
        (
            200,
            r#"{"done":true,"resource":{"generation":"456"}}"#.to_string(),
        ),
        bucket_lock_deleted(),
    ]);
    let source = ObjectPath::parse("gs://bucket/folder*?[]#/source").unwrap();
    let target = ObjectPath::parse("gs://bucket/folder*?[]#/target").unwrap();

    storage.copy_object(&source, &target, None, None).unwrap();

    let requests = requests.borrow();
    assert_eq!(requests.len(), 3);
    assert_eq!(
        request_line(&requests[1]),
        "POST /storage/v1/b/bucket/o/folder%2A%3F%5B%5D%23%2Fsource/rewriteTo/b/bucket/o/folder%2A%3F%5B%5D%23%2Ftarget HTTP/1.1"
    );
}

#[test]
fn keeps_leading_hyphens_in_object_names() {
    let (storage, requests) = test_server(vec![
        bucket_lock_created(),
        (
            200,
            r#"{"done":true,"resource":{"generation":"456"}}"#.to_string(),
        ),
        bucket_lock_deleted(),
    ]);
    let source = ObjectPath::parse("gs://bucket/source").unwrap();
    let target = ObjectPath::parse("gs://bucket/-target?").unwrap();

    storage
        .copy_object(&source, &target, Some("123"), Some("0"))
        .unwrap();

    let requests = requests.borrow();
    assert_eq!(requests.len(), 3);
    assert_eq!(
        request_line(&requests[1]),
        "POST /storage/v1/b/bucket/o/source/rewriteTo/b/bucket/o/-target%3F?sourceGeneration=123&ifSourceGenerationMatch=123&ifGenerationMatch=0 HTTP/1.1"
    );
}

#[test]
fn refuses_to_modify_the_reserved_bucket_lock_object() {
    let (storage, _) = test_server(Vec::new());
    let source = ObjectPath::parse("gs://bucket/source").unwrap();
    let lock = ObjectPath::parse("gs://bucket/.task-googlecloud-lock").unwrap();

    let error = storage.copy_object(&source, &lock, None, None).unwrap_err();

    assert!(
        matches!(error, AppError::Message(ref message) if message.contains("reserved bucket lock")),
        "{}", error.to_string()
    );
}

#[test]
fn lists_empty_and_paginated_responses() {
    let (storage, requests) = test_server(vec![
        bucket_lock_created(),
        (200, "{}".to_string()),
        bucket_lock_deleted(),
    ]);
    let objects = storage.list_objects("bucket").unwrap();
    assert!(objects.is_empty());
    let requests = requests.borrow();
    assert_eq!(requests.len(), 3);
    assert_eq!(
        request_line(&requests[1]),
        "GET /storage/v1/b/bucket/o?maxResults=1000 HTTP/1.1"
    );

    let (storage, requests) = test_server(vec![
        bucket_lock_created(),
        (
            200,
            r#"{"items":[{"name":"folder*?[]#/é.txt"},{"name":".task-googlecloud-lock"}],"nextPageToken":"next"}"#.to_string(),
        ),
        (200, r#"{"items":[{"name":"plain.txt"}]}"#.to_string()),
        bucket_lock_deleted(),
    ]);
    let objects = storage.list_objects("bucket").unwrap();

    assert_eq!(
        objects,
        vec![
            "gs://bucket/folder*?[]#/é.txt".to_string(),
            "gs://bucket/plain.txt".to_string(),
        ]
    );
    let requests = requests.borrow();
    assert_eq!(requests.len(), 4);
    assert_eq!(
        request_line(&requests[1]),
        "GET /storage/v1/b/bucket/o?maxResults=1000 HTTP/1.1"
    );
    assert_eq!(
        request_line(&requests[2]),
        "GET /storage/v1/b/bucket/o?maxResults=1000&pageToken=next HTTP/1.1"
    );
    assert!(
        requests[1]
            .to_ascii_lowercase()
            .contains("authorization: bearer token")
    );
}

#[test]
fn reports_api_error_messages() {
    let (storage, requests) = test_server(vec![
        bucket_lock_created(),
        (
            403,
            r#"{"error":{"message":"permission denied"}}"#.to_string(),
        ),
        bucket_lock_deleted(),
    ]);

    let error = storage.list_objects("bucket").unwrap_err();

    assert!(error.to_string().contains("permission denied"));
    let requests = requests.borrow();
    assert_eq!(requests.len(), 3);
    assert_eq!(
        request_line(&requests[1]),
        "GET /storage/v1/b/bucket/o?maxResults=1000 HTTP/1.1"
    );
}

#[test]
fn uploads_files_and_preserves_generation_preconditions() {
    let (storage, requests) = test_server(vec![
        bucket_lock_created(),
        (200, r#"{"generation":"789"}"#.to_string()),
        bucket_lock_deleted(),
    ]);
    let target = ObjectPath::parse("gs://bucket/target.txt").unwrap();

    let generation = storage.upload_file("contents.txt", &target).unwrap();

    assert_eq!(generation, "789");
    let requests = requests.borrow();
    assert_eq!(requests.len(), 3);
    assert_eq!(
        request_line(&requests[1]),
        "POST /storage/v1/b/bucket/o?uploadType=media&name=target.txt&ifGenerationMatch=0 HTTP/1.1"
    );
    let request = requests[1].to_ascii_lowercase();
    assert!(request.contains("uploadtype=media"));
    assert!(request.contains("name=target.txt"));
    assert!(request.contains("ifgenerationmatch=0"));
    assert!(request.contains("content-length: 8"));
    assert!(request.ends_with("\r\n\r\ncontents"));
}

#[test]
fn does_not_confirm_operations_that_never_reached_storage() {
    // A dead endpoint proves no request is attempted: any lookup would fail.
    let (storage, _) = test_server(Vec::new());
    let source = ObjectPath::parse("gs://bucket/source").unwrap();
    let target = ObjectPath::parse("gs://bucket/target").unwrap();
    let unreadable_source = AppError::UploadSource(IoError::new(
        IoErrorKind::NotFound,
        "not a regular file",
    ));
    let unreachable_cloud = AppError::Command {
        operation: "Cloud command".to_string(),
        status: "255".to_string(),
        details: ": ssh: connect to host googlecloud port 22: Connection refused".to_string(),
    };
    let token_io = AppError::Token(
        Box::new(AppError::Io(IoError::new(
            IoErrorKind::BrokenPipe,
            "token pipe closed",
        ))),
        false,
    );
    let token_utf8 = AppError::Token(
        Box::new(AppError::Message(
            "Cloud command returned invalid UTF-8".to_string(),
        )),
        false,
    );

    storage
        .confirm_write_after_failure(&target, &unreadable_source)
        .unwrap();
    storage
        .confirm_write_after_failure(&target, &unreachable_cloud)
        .unwrap();
    storage
        .confirm_move_after_failure(&source, &target, &unreachable_cloud)
        .unwrap();
    storage
        .confirm_write_after_failure(&target, &token_io)
        .unwrap();
    storage
        .confirm_write_after_failure(&target, &token_utf8)
        .unwrap();
    storage
        .confirm_move_after_failure(&source, &target, &token_io)
        .unwrap();
    storage
        .confirm_move_after_failure(&source, &target, &token_utf8)
        .unwrap();
}

#[test]
fn confirms_state_after_token_failure_following_a_remote_request() {
    let (storage, requests) = test_server(vec![
        (200, r#"{"generation":"11"}"#.to_string()),
        (404, "{}".to_string()),
    ]);
    let source = ObjectPath::parse("gs://bucket/source").unwrap();
    let target = ObjectPath::parse("gs://bucket/target").unwrap();
    let operation = AppError::Token(
        Box::new(AppError::Io(IoError::new(
            IoErrorKind::BrokenPipe,
            "token pipe closed",
        ))),
        true,
    );

    let error = storage
        .confirm_move_after_failure(&source, &target, &operation)
        .unwrap_err();

    assert!(matches!(error, AppError::Recovery { .. }));
    let requests = requests.borrow();
    assert_eq!(requests.len(), 2);
}

#[test]
fn reports_upload_server_errors() {
    let (storage, requests) = test_server(vec![
        bucket_lock_created(),
        (
            500,
            r#"{"error":{"message":"backend unavailable"}}"#.to_string(),
        ),
        bucket_lock_deleted(),
    ]);
    let target = ObjectPath::parse("gs://bucket/target.txt").unwrap();

    let error = storage
        .upload_file("contents.txt", &target)
        .unwrap_err();

    assert!(matches!(
        error,
        AppError::Storage {
            status: 500,
            message: _
        }
    ));
    assert!(error.to_string().contains("backend unavailable"));
    let requests = requests.borrow();
    assert_eq!(requests.len(), 3);
    assert_eq!(
        request_line(&requests[1]),
        "POST /storage/v1/b/bucket/o?uploadType=media&name=target.txt&ifGenerationMatch=0 HTTP/1.1"
    );
}

#[test]
fn moves_objects_and_confirms_source_deletion() {
    let (storage, requests) = test_server(vec![
        bucket_lock_created(),
        (200, r#"{"generation":"11"}"#.to_string()),
        (
            200,
            r#"{"done":true,"resource":{"generation":"22"}}"#.to_string(),
        ),
        (200, r#"{"generation":"22"}"#.to_string()),
        (200, "{}".to_string()),
        (404, "{}".to_string()),
        (200, r#"{"generation":"22"}"#.to_string()),
        bucket_lock_deleted(),
    ]);
    let source = ObjectPath::parse("gs://bucket/source").unwrap();
    let target = ObjectPath::parse("gs://bucket/target").unwrap();

    let generation = storage.move_object(&source, &target, None).unwrap();

    assert_eq!(generation, "22");
    let requests = requests.borrow();
    assert_eq!(requests.len(), 8);
    assert_eq!(
        request_line(&requests[1]),
        "GET /storage/v1/b/bucket/o/source HTTP/1.1"
    );
    assert_eq!(
        request_line(&requests[2]),
        "POST /storage/v1/b/bucket/o/source/rewriteTo/b/bucket/o/target?sourceGeneration=11&ifSourceGenerationMatch=11&ifGenerationMatch=0 HTTP/1.1"
    );
    assert_eq!(
        request_line(&requests[3]),
        "GET /storage/v1/b/bucket/o/target HTTP/1.1"
    );
    assert_eq!(
        request_line(&requests[4]),
        "DELETE /storage/v1/b/bucket/o/source?generation=11 HTTP/1.1"
    );
    assert_eq!(
        request_line(&requests[5]),
        "GET /storage/v1/b/bucket/o/source HTTP/1.1"
    );
    assert_eq!(
        request_line(&requests[6]),
        "GET /storage/v1/b/bucket/o/target HTTP/1.1"
    );
    assert_eq!(
        request_line(&requests[7]),
        "DELETE /storage/v1/b/bucket/o/.task-googlecloud-lock?generation=lock HTTP/1.1"
    );
}

#[test]
fn moves_objects_using_the_expected_source_generation() {
    let (storage, requests) = test_server(vec![
        bucket_lock_created(),
        (
            200,
            r#"{"done":true,"resource":{"generation":"22"}}"#.to_string(),
        ),
        (200, r#"{"generation":"22"}"#.to_string()),
        (200, "{}".to_string()),
        (404, "{}".to_string()),
        (200, r#"{"generation":"22"}"#.to_string()),
        bucket_lock_deleted(),
    ]);
    let source = ObjectPath::parse("gs://bucket/source").unwrap();
    let target = ObjectPath::parse("gs://bucket/target").unwrap();

    let generation = storage.move_object(&source, &target, Some("11")).unwrap();

    assert_eq!(generation, "22");
    let requests = requests.borrow();
    assert_eq!(requests.len(), 7);
    assert_eq!(
        request_line(&requests[1]),
        "POST /storage/v1/b/bucket/o/source/rewriteTo/b/bucket/o/target?sourceGeneration=11&ifSourceGenerationMatch=11&ifGenerationMatch=0 HTTP/1.1"
    );
    assert_eq!(
        request_line(&requests[2]),
        "GET /storage/v1/b/bucket/o/target HTTP/1.1"
    );
    assert_eq!(
        request_line(&requests[3]),
        "DELETE /storage/v1/b/bucket/o/source?generation=11 HTTP/1.1"
    );
    assert_eq!(
        request_line(&requests[4]),
        "GET /storage/v1/b/bucket/o/source HTTP/1.1"
    );
    assert_eq!(
        request_line(&requests[5]),
        "GET /storage/v1/b/bucket/o/target HTTP/1.1"
    );
    assert_eq!(
        request_line(&requests[6]),
        "DELETE /storage/v1/b/bucket/o/.task-googlecloud-lock?generation=lock HTTP/1.1"
    );
}

#[test]
fn keeps_one_bucket_lock_for_all_moves_in_a_transaction() {
    let mut responses = vec![bucket_lock_created()];
    for (source_generation, staged_generation) in [("11", "12"), ("21", "22")] {
        responses.extend([
            (200, format!(r#"{{"generation":"{source_generation}"}}"#)),
            (
                200,
                format!(r#"{{"done":true,"resource":{{"generation":"{staged_generation}"}}}}"#),
            ),
            (200, format!(r#"{{"generation":"{staged_generation}"}}"#)),
            (200, "{}".to_string()),
            (404, "{}".to_string()),
            (200, format!(r#"{{"generation":"{staged_generation}"}}"#)),
        ]);
    }
    for finalized_generation in ["13", "23"] {
        responses.extend([
            (
                200,
                format!(r#"{{"done":true,"resource":{{"generation":"{finalized_generation}"}}}}"#),
            ),
            (200, format!(r#"{{"generation":"{finalized_generation}"}}"#)),
            (200, "{}".to_string()),
            (404, "{}".to_string()),
            (200, format!(r#"{{"generation":"{finalized_generation}"}}"#)),
        ]);
    }
    responses.push(bucket_lock_deleted());

    let (storage, requests) = test_server(responses);
    let interrupt = InterruptFlag::from_atomic(Arc::new(AtomicBool::new(false)));
    let moves = vec![
        (
            ObjectPath::parse("gs://bucket/first-source").unwrap(),
            ObjectPath::parse("gs://bucket/first-target").unwrap(),
            ObjectPath::parse("gs://bucket/first-temporary").unwrap(),
        ),
        (
            ObjectPath::parse("gs://bucket/second-source").unwrap(),
            ObjectPath::parse("gs://bucket/second-target").unwrap(),
            ObjectPath::parse("gs://bucket/second-temporary").unwrap(),
        ),
    ];

    process_moves(&storage, &interrupt, moves).unwrap();

    let requests = requests.borrow();
    assert_eq!(requests.len(), 24);
    assert_eq!(
        request_line(&requests[0]),
        "POST /storage/v1/b/bucket/o?uploadType=media&name=.task-googlecloud-lock&ifGenerationMatch=0 HTTP/1.1"
    );
    assert_eq!(
        request_line(&requests[23]),
        "DELETE /storage/v1/b/bucket/o/.task-googlecloud-lock?generation=lock HTTP/1.1"
    );
}

#[test]
fn requires_recovery_when_move_confirmation_fails_after_copy() {
    let (error, requests) = move_with_token_failure(
        4,
        vec![
            bucket_lock_created(),
            (200, r#"{"generation":"11"}"#.to_string()),
            (
                200,
                r#"{"done":true,"resource":{"generation":"22"}}"#.to_string(),
            ),
            bucket_lock_deleted(),
        ],
    );

    assert!(matches!(error, AppError::Recovery { .. }), "{}", error.to_string());
    assert_eq!(requests.len(), 4);
    assert!(request_line(&requests[2]).contains("rewriteTo"));
    assert!(request_line(&requests[3]).contains(".task-googlecloud-lock"));
}

#[test]
fn requires_recovery_when_move_confirmation_fails_after_source_deletion() {
    let (error, requests) = move_with_token_failure(
        7,
        vec![
            bucket_lock_created(),
            (200, r#"{"generation":"11"}"#.to_string()),
            (
                200,
                r#"{"done":true,"resource":{"generation":"22"}}"#.to_string(),
            ),
            (200, r#"{"generation":"22"}"#.to_string()),
            (200, "{}".to_string()),
            (404, "{}".to_string()),
            bucket_lock_deleted(),
        ],
    );

    assert!(matches!(error, AppError::Recovery { .. }), "{}", error.to_string());
    assert_eq!(requests.len(), 7);
    assert!(request_line(&requests[4]).contains("DELETE"));
    assert!(request_line(&requests[6]).contains(".task-googlecloud-lock"));
}

#[test]
fn rejects_a_move_when_the_target_generation_changes_after_copy() {
    let (storage, requests) = test_server(vec![
        bucket_lock_created(),
        (200, r#"{"generation":"11"}"#.to_string()),
        (
            200,
            r#"{"done":true,"resource":{"generation":"22"}}"#.to_string(),
        ),
        (200, r#"{"generation":"23"}"#.to_string()),
        bucket_lock_deleted(),
    ]);
    let source = ObjectPath::parse("gs://bucket/source").unwrap();
    let target = ObjectPath::parse("gs://bucket/target").unwrap();

    let error = storage
        .move_object(&source, &target, None)
        .unwrap_err();

    assert!(matches!(error, AppError::Recovery { .. }));
    let requests = requests.borrow();
    assert_eq!(requests.len(), 5);
    assert_eq!(
        request_line(&requests[3]),
        "GET /storage/v1/b/bucket/o/target HTTP/1.1"
    );
}

#[test]
fn rejects_a_move_when_the_target_generation_changes_after_source_deletion() {
    let (storage, requests) = test_server(vec![
        bucket_lock_created(),
        (200, r#"{"generation":"11"}"#.to_string()),
        (
            200,
            r#"{"done":true,"resource":{"generation":"22"}}"#.to_string(),
        ),
        (200, r#"{"generation":"22"}"#.to_string()),
        (200, "{}".to_string()),
        (404, "{}".to_string()),
        (200, r#"{"generation":"23"}"#.to_string()),
        bucket_lock_deleted(),
    ]);
    let source = ObjectPath::parse("gs://bucket/source").unwrap();
    let target = ObjectPath::parse("gs://bucket/target").unwrap();

    let error = storage
        .move_object(&source, &target, None)
        .unwrap_err();

    assert!(matches!(error, AppError::Recovery { .. }));
    let requests = requests.borrow();
    assert_eq!(requests.len(), 8);
    assert_eq!(
        request_line(&requests[6]),
        "GET /storage/v1/b/bucket/o/target HTTP/1.1"
    );
}

#[test]
fn rejects_a_move_when_the_expected_source_generation_is_stale() {
    let (storage, requests) = test_server(vec![
        bucket_lock_created(),
        (
            412,
            r#"{"error":{"message":"generation condition not met"}}"#.to_string(),
        ),
        bucket_lock_deleted(),
    ]);
    let source = ObjectPath::parse("gs://bucket/source").unwrap();
    let target = ObjectPath::parse("gs://bucket/target").unwrap();

    let error = storage
        .move_object(&source, &target, Some("11"))
        .unwrap_err();

    assert!(matches!(error, AppError::Storage { status: 412, .. }));
    let requests = requests.borrow();
    assert_eq!(requests.len(), 3);
    assert_eq!(
        request_line(&requests[1]),
        "POST /storage/v1/b/bucket/o/source/rewriteTo/b/bucket/o/target?sourceGeneration=11&ifSourceGenerationMatch=11&ifGenerationMatch=0 HTTP/1.1"
    );
}

#[test]
fn does_not_move_when_the_bucket_lock_cannot_be_acquired() {
    let (storage, requests) = test_server(vec![(
        412,
        r#"{"error":{"message":"bucket is locked"}}"#.to_string(),
    )]);
    let source = ObjectPath::parse("gs://bucket/source").unwrap();
    let target = ObjectPath::parse("gs://bucket/target").unwrap();

    let error = storage
        .move_object(&source, &target, None)
        .unwrap_err();

    assert!(matches!(error, AppError::BucketLockConflict(_)));
    let requests = requests.borrow();
    assert_eq!(requests.len(), 1);
    assert_eq!(
        request_line(&requests[0]),
        "POST /storage/v1/b/bucket/o?uploadType=media&name=.task-googlecloud-lock&ifGenerationMatch=0 HTTP/1.1"
    );
}

#[test]
fn releases_earlier_bucket_locks_when_a_later_lock_cannot_be_acquired() {
    let (storage, requests) = test_server(vec![
        bucket_lock_created(),
        (
            412,
            r#"{"error":{"message":"bucket is locked"}}"#.to_string(),
        ),
        bucket_lock_deleted(),
    ]);
    let source = ObjectPath::parse("gs://bucket-b/source").unwrap();
    let target = ObjectPath::parse("gs://bucket-a/target").unwrap();

    let error = storage
        .move_object(&source, &target, Some("11"))
        .unwrap_err();

    assert!(matches!(error, AppError::BucketLockConflict(_)));
    let requests = requests.borrow();
    assert_eq!(requests.len(), 3);
    assert_eq!(
        request_line(&requests[0]),
        "POST /storage/v1/b/bucket-a/o?uploadType=media&name=.task-googlecloud-lock&ifGenerationMatch=0 HTTP/1.1"
    );
    assert_eq!(
        request_line(&requests[1]),
        "POST /storage/v1/b/bucket-b/o?uploadType=media&name=.task-googlecloud-lock&ifGenerationMatch=0 HTTP/1.1"
    );
    assert_eq!(
        request_line(&requests[2]),
        "DELETE /storage/v1/b/bucket-a/o/.task-googlecloud-lock?generation=lock HTTP/1.1"
    );
}

#[test]
fn process_moves_returns_lock_conflicts_without_confirming_objects() {
    let (storage, requests) = test_server(vec![(
        412,
        r#"{"error":{"message":"bucket is locked"}}"#.to_string(),
    )]);
    let interrupt = InterruptFlag::from_atomic(Arc::new(AtomicBool::new(false)));
    let source = ObjectPath::parse("gs://bucket/source").unwrap();
    let target = ObjectPath::parse("gs://bucket/target").unwrap();
    let temporary = ObjectPath::parse("gs://bucket/temporary").unwrap();

    let error = process_moves(&storage, &interrupt, vec![(source, target, temporary)]).unwrap_err();

    assert!(!matches!(error, AppError::Recovery { .. }), "{}", error.to_string());
    assert_eq!(requests.borrow().len(), 1);
}

#[test]
fn rejects_a_move_when_the_source_remains_after_delete() {
    let (storage, requests) = test_server(vec![
        bucket_lock_created(),
        (200, r#"{"generation":"11"}"#.to_string()),
        (
            200,
            r#"{"done":true,"resource":{"generation":"22"}}"#.to_string(),
        ),
        (200, r#"{"generation":"22"}"#.to_string()),
        (200, "{}".to_string()),
        (200, r#"{"generation":"11"}"#.to_string()),
        (200, r#"{"generation":"22"}"#.to_string()),
        bucket_lock_deleted(),
    ]);
    let source = ObjectPath::parse("gs://bucket/source").unwrap();
    let target = ObjectPath::parse("gs://bucket/target").unwrap();

    let error = storage
        .move_object(&source, &target, None)
        .unwrap_err();

    assert!(error.to_string().contains("Source object remains"));
    let requests = requests.borrow();
    assert_eq!(requests.len(), 8);
    assert_eq!(
        request_line(&requests[1]),
        "GET /storage/v1/b/bucket/o/source HTTP/1.1"
    );
    assert_eq!(
        request_line(&requests[2]),
        "POST /storage/v1/b/bucket/o/source/rewriteTo/b/bucket/o/target?sourceGeneration=11&ifSourceGenerationMatch=11&ifGenerationMatch=0 HTTP/1.1"
    );
    assert_eq!(
        request_line(&requests[3]),
        "GET /storage/v1/b/bucket/o/target HTTP/1.1"
    );
    assert_eq!(
        request_line(&requests[4]),
        "DELETE /storage/v1/b/bucket/o/source?generation=11 HTTP/1.1"
    );
    assert_eq!(
        request_line(&requests[5]),
        "GET /storage/v1/b/bucket/o/source HTTP/1.1"
    );
    assert_eq!(
        request_line(&requests[6]),
        "GET /storage/v1/b/bucket/o/target HTTP/1.1"
    );
    assert_eq!(
        request_line(&requests[7]),
        "DELETE /storage/v1/b/bucket/o/.task-googlecloud-lock?generation=lock HTTP/1.1"
    );
}

#[test]
fn rolls_back_objects_and_confirms_target_deletion() {
    let (storage, requests) = test_server(vec![
        bucket_lock_created(),
        (404, "{}".to_string()),
        (200, r#"{"generation":"22"}"#.to_string()),
        (
            200,
            r#"{"done":true,"resource":{"generation":"33"}}"#.to_string(),
        ),
        (200, r#"{"generation":"33"}"#.to_string()),
        (200, "{}".to_string()),
        (404, "{}".to_string()),
        (200, r#"{"generation":"33"}"#.to_string()),
        bucket_lock_deleted(),
    ]);
    let source = ObjectPath::parse("gs://bucket/source").unwrap();
    let target = ObjectPath::parse("gs://bucket/target").unwrap();

    let generation = storage.rollback_object(&source, &target, "22").unwrap();

    assert_eq!(generation, "33");
    let requests = requests.borrow();
    assert_eq!(requests.len(), 9);
    assert_eq!(
        request_line(&requests[1]),
        "GET /storage/v1/b/bucket/o/source HTTP/1.1"
    );
    assert_eq!(
        request_line(&requests[2]),
        "GET /storage/v1/b/bucket/o/target?generation=22 HTTP/1.1"
    );
    assert_eq!(
        request_line(&requests[3]),
        "POST /storage/v1/b/bucket/o/target/rewriteTo/b/bucket/o/source?sourceGeneration=22&ifSourceGenerationMatch=22&ifGenerationMatch=0 HTTP/1.1"
    );
    assert_eq!(
        request_line(&requests[4]),
        "GET /storage/v1/b/bucket/o/source HTTP/1.1"
    );
    assert_eq!(
        request_line(&requests[5]),
        "DELETE /storage/v1/b/bucket/o/target?generation=22 HTTP/1.1"
    );
    assert_eq!(
        request_line(&requests[6]),
        "GET /storage/v1/b/bucket/o/target HTTP/1.1"
    );
    assert_eq!(
        request_line(&requests[7]),
        "GET /storage/v1/b/bucket/o/source HTTP/1.1"
    );
    assert_eq!(
        request_line(&requests[8]),
        "DELETE /storage/v1/b/bucket/o/.task-googlecloud-lock?generation=lock HTTP/1.1"
    );
}

#[test]
fn requires_recovery_when_rollback_confirmation_fails_after_copy() {
    let (error, requests) = rollback_with_token_failure(
        5,
        vec![
            bucket_lock_created(),
            (404, "{}".to_string()),
            (200, r#"{"generation":"22"}"#.to_string()),
            (
                200,
                r#"{"done":true,"resource":{"generation":"33"}}"#.to_string(),
            ),
            bucket_lock_deleted(),
        ],
    );

    assert!(matches!(error, AppError::Recovery { .. }), "{}", error.to_string());
    assert_eq!(requests.len(), 5);
    assert!(request_line(&requests[3]).contains("rewriteTo"));
    assert!(request_line(&requests[4]).contains(".task-googlecloud-lock"));
}

#[test]
fn requires_recovery_when_rollback_confirmation_fails_after_target_deletion() {
    let (error, requests) = rollback_with_token_failure(
        8,
        vec![
            bucket_lock_created(),
            (404, "{}".to_string()),
            (200, r#"{"generation":"22"}"#.to_string()),
            (
                200,
                r#"{"done":true,"resource":{"generation":"33"}}"#.to_string(),
            ),
            (200, r#"{"generation":"33"}"#.to_string()),
            (200, "{}".to_string()),
            (404, "{}".to_string()),
            bucket_lock_deleted(),
        ],
    );

    assert!(matches!(error, AppError::Recovery { .. }), "{}", error.to_string());
    assert_eq!(requests.len(), 8);
    assert!(request_line(&requests[5]).contains("DELETE"));
    assert!(request_line(&requests[7]).contains(".task-googlecloud-lock"));
}

#[test]
fn rejects_a_rollback_when_the_source_generation_changes_after_copy() {
    let (storage, requests) = test_server(vec![
        bucket_lock_created(),
        (404, "{}".to_string()),
        (200, r#"{"generation":"22"}"#.to_string()),
        (
            200,
            r#"{"done":true,"resource":{"generation":"33"}}"#.to_string(),
        ),
        (200, r#"{"generation":"34"}"#.to_string()),
        bucket_lock_deleted(),
    ]);
    let source = ObjectPath::parse("gs://bucket/source").unwrap();
    let target = ObjectPath::parse("gs://bucket/target").unwrap();

    let error = storage
        .rollback_object(&source, &target, "22")
        .unwrap_err();

    assert!(matches!(error, AppError::Recovery { .. }));
    let requests = requests.borrow();
    assert_eq!(requests.len(), 6);
    assert_eq!(
        request_line(&requests[4]),
        "GET /storage/v1/b/bucket/o/source HTTP/1.1"
    );
}

#[test]
fn does_not_rollback_when_the_bucket_lock_cannot_be_acquired() {
    let (storage, requests) = test_server(vec![(
        412,
        r#"{"error":{"message":"bucket is locked"}}"#.to_string(),
    )]);
    let source = ObjectPath::parse("gs://bucket/source").unwrap();
    let target = ObjectPath::parse("gs://bucket/target").unwrap();

    let error = storage
        .rollback_object(&source, &target, "22")
        .unwrap_err();

    assert!(matches!(error, AppError::BucketLockConflict(_)));
    let requests = requests.borrow();
    assert_eq!(requests.len(), 1);
    assert_eq!(
        request_line(&requests[0]),
        "POST /storage/v1/b/bucket/o?uploadType=media&name=.task-googlecloud-lock&ifGenerationMatch=0 HTTP/1.1"
    );
}

#[test]
fn rejects_a_rollback_when_the_source_generation_changes_after_target_deletion() {
    let (storage, requests) = test_server(vec![
        bucket_lock_created(),
        (404, "{}".to_string()),
        (200, r#"{"generation":"22"}"#.to_string()),
        (
            200,
            r#"{"done":true,"resource":{"generation":"33"}}"#.to_string(),
        ),
        (200, r#"{"generation":"33"}"#.to_string()),
        (200, "{}".to_string()),
        (404, "{}".to_string()),
        (200, r#"{"generation":"34"}"#.to_string()),
        bucket_lock_deleted(),
    ]);
    let source = ObjectPath::parse("gs://bucket/source").unwrap();
    let target = ObjectPath::parse("gs://bucket/target").unwrap();

    let error = storage
        .rollback_object(&source, &target, "22")
        .unwrap_err();

    assert!(matches!(error, AppError::Recovery { .. }));
    let requests = requests.borrow();
    assert_eq!(requests.len(), 9);
    assert_eq!(
        request_line(&requests[7]),
        "GET /storage/v1/b/bucket/o/source HTTP/1.1"
    );
}

#[test]
fn rejects_a_rollback_when_the_target_remains_after_delete() {
    let (storage, requests) = test_server(vec![
        bucket_lock_created(),
        (404, "{}".to_string()),
        (200, r#"{"generation":"22"}"#.to_string()),
        (
            200,
            r#"{"done":true,"resource":{"generation":"33"}}"#.to_string(),
        ),
        (200, r#"{"generation":"33"}"#.to_string()),
        (200, "{}".to_string()),
        (200, r#"{"generation":"22"}"#.to_string()),
        (200, r#"{"generation":"33"}"#.to_string()),
        bucket_lock_deleted(),
    ]);
    let source = ObjectPath::parse("gs://bucket/source").unwrap();
    let target = ObjectPath::parse("gs://bucket/target").unwrap();

    let error = storage
        .rollback_object(&source, &target, "22")
        .unwrap_err();

    assert!(error.to_string().contains("Rollback target remains"));
    let requests = requests.borrow();
    assert_eq!(requests.len(), 9);
    assert_eq!(
        request_line(&requests[1]),
        "GET /storage/v1/b/bucket/o/source HTTP/1.1"
    );
    assert_eq!(
        request_line(&requests[2]),
        "GET /storage/v1/b/bucket/o/target?generation=22 HTTP/1.1"
    );
    assert_eq!(
        request_line(&requests[3]),
        "POST /storage/v1/b/bucket/o/target/rewriteTo/b/bucket/o/source?sourceGeneration=22&ifSourceGenerationMatch=22&ifGenerationMatch=0 HTTP/1.1"
    );
    assert_eq!(
        request_line(&requests[4]),
        "GET /storage/v1/b/bucket/o/source HTTP/1.1"
    );
    assert_eq!(
        request_line(&requests[5]),
        "DELETE /storage/v1/b/bucket/o/target?generation=22 HTTP/1.1"
    );
    assert_eq!(
        request_line(&requests[6]),
        "GET /storage/v1/b/bucket/o/target HTTP/1.1"
    );
    assert_eq!(
        request_line(&requests[7]),
        "GET /storage/v1/b/bucket/o/source HTTP/1.1"
    );
    assert_eq!(
        request_line(&requests[8]),
        "DELETE /storage/v1/b/bucket/o/.task-googlecloud-lock?generation=lock HTTP/1.1"
    );
}

#[test]
fn cleans_up_owned_objects_and_accepts_missing_objects() {
    let (storage, requests) = test_server(vec![
        bucket_lock_created(),
        (200, r#"{"generation":"22"}"#.to_string()),
        (200, "{}".to_string()),
        (404, "{}".to_string()),
        bucket_lock_deleted(),
    ]);
    let target = ObjectPath::parse("gs://bucket/target").unwrap();

    storage.cleanup_object(&target, "22").unwrap();

    let requests = requests.borrow();
    assert_eq!(requests.len(), 5);
    assert_eq!(
        request_line(&requests[1]),
        "GET /storage/v1/b/bucket/o/target?generation=22 HTTP/1.1"
    );
    assert_eq!(
        request_line(&requests[2]),
        "DELETE /storage/v1/b/bucket/o/target?generation=22 HTTP/1.1"
    );
    assert_eq!(
        request_line(&requests[3]),
        "GET /storage/v1/b/bucket/o/target HTTP/1.1"
    );

    let (storage, requests) = test_server(vec![
        bucket_lock_created(),
        (404, "{}".to_string()),
        (404, "{}".to_string()),
        bucket_lock_deleted(),
    ]);
    storage.cleanup_object(&target, "22").unwrap();
    let requests = requests.borrow();
    assert_eq!(requests.len(), 4);
    assert_eq!(
        request_line(&requests[1]),
        "GET /storage/v1/b/bucket/o/target?generation=22 HTTP/1.1"
    );
    assert_eq!(
        request_line(&requests[2]),
        "GET /storage/v1/b/bucket/o/target HTTP/1.1"
    );
}

#[test]
fn rejects_cleanup_when_the_target_remains_after_delete() {
    let (storage, requests) = test_server(vec![
        bucket_lock_created(),
        (200, r#"{"generation":"22"}"#.to_string()),
        (200, "{}".to_string()),
        (200, r#"{"generation":"22"}"#.to_string()),
        bucket_lock_deleted(),
    ]);
    let target = ObjectPath::parse("gs://bucket/target").unwrap();

    let error = storage.cleanup_object(&target, "22").unwrap_err();

    assert!(error.to_string().contains("Cleanup target remains"));
    let requests = requests.borrow();
    assert_eq!(requests.len(), 5);
    assert_eq!(
        request_line(&requests[1]),
        "GET /storage/v1/b/bucket/o/target?generation=22 HTTP/1.1"
    );
    assert_eq!(
        request_line(&requests[2]),
        "DELETE /storage/v1/b/bucket/o/target?generation=22 HTTP/1.1"
    );
    assert_eq!(
        request_line(&requests[3]),
        "GET /storage/v1/b/bucket/o/target HTTP/1.1"
    );
}

#[test]
fn confirms_missing_objects_after_non_http_failures() {
    let (storage, requests) = test_server(vec![
        (200, r#"{"generation":"11"}"#.to_string()),
        (404, "{}".to_string()),
        (404, "{}".to_string()),
    ]);
    let source = ObjectPath::parse("gs://bucket/source").unwrap();
    let target = ObjectPath::parse("gs://bucket/target").unwrap();

    storage
        .confirm_move_after_failure(
            &source,
            &target,
            &AppError::Message("move interrupted".to_string()),
        )
        .unwrap();
    storage
        .confirm_write_after_failure(
            &target,
            &AppError::Message("upload interrupted".to_string()),
        )
        .unwrap();

    let requests = requests.borrow();
    assert_eq!(requests.len(), 3);
    assert_eq!(
        request_line(&requests[0]),
        "GET /storage/v1/b/bucket/o/source HTTP/1.1"
    );
    assert_eq!(
        request_line(&requests[1]),
        "GET /storage/v1/b/bucket/o/target HTTP/1.1"
    );
    assert_eq!(
        request_line(&requests[2]),
        "GET /storage/v1/b/bucket/o/target HTTP/1.1"
    );
}

#[test]
fn requires_recovery_for_http_failures_with_unknown_state() {
    let (storage, requests) = test_server(vec![
        (200, r#"{"generation":"11"}"#.to_string()),
        (404, "{}".to_string()),
    ]);
    let source = ObjectPath::parse("gs://bucket/source").unwrap();
    let target = ObjectPath::parse("gs://bucket/target").unwrap();

    let error = storage
        .confirm_move_after_failure(
            &source,
            &target,
            &AppError::Storage {
                status: 503,
                message: "service unavailable".to_string(),
            },
        )
        .unwrap_err();

    assert!(matches!(error, AppError::Recovery { .. }));
    let requests = requests.borrow();
    assert_eq!(requests.len(), 2);
    assert_eq!(
        request_line(&requests[0]),
        "GET /storage/v1/b/bucket/o/source HTTP/1.1"
    );
    assert_eq!(
        request_line(&requests[1]),
        "GET /storage/v1/b/bucket/o/target HTTP/1.1"
    );
}

#[test]
fn requires_recovery_for_http_upload_failures_with_existing_state() {
    let (storage, requests) = test_server(vec![(200, r#"{"generation":"44"}"#.to_string())]);
    let target = ObjectPath::parse("gs://bucket/target").unwrap();

    let error = storage
        .confirm_write_after_failure(
            &target,
            &AppError::Storage {
                status: 503,
                message: "service unavailable".to_string(),
            },
        )
        .unwrap_err();

    assert!(matches!(error, AppError::Recovery { .. }));
    let requests = requests.borrow();
    assert_eq!(requests.len(), 1);
    assert_eq!(
        request_line(&requests[0]),
        "GET /storage/v1/b/bucket/o/target HTTP/1.1"
    );
}

#[test]
fn requires_recovery_when_state_confirmation_gets_a_server_error() {
    let (storage, requests) = test_server(vec![(
        503,
        r#"{"error":{"message":"service unavailable"}}"#.to_string(),
    )]);
    let target = ObjectPath::parse("gs://bucket/target").unwrap();

    let error = storage
        .confirm_write_after_failure(&target, &AppError::Message("upload failed".to_string()))
        .unwrap_err();

    assert!(matches!(error, AppError::Recovery { .. }));
    assert!(error.to_string().contains("state unknown"));
    assert!(error.to_string().contains("service unavailable"));
    let requests = requests.borrow();
    assert_eq!(requests.len(), 1);
    assert_eq!(
        request_line(&requests[0]),
        "GET /storage/v1/b/bucket/o/target HTTP/1.1"
    );
}

#[test]
fn reports_an_incomplete_http_response() {
    let (storage, requests) = scripted(vec![
        Answer::Reply(200, r#"{"generation":"lock"}"#.to_string()),
        Answer::Incomplete,
    ]);

    let error = storage.list_objects("bucket").unwrap_err();

    assert!(matches!(
        error,
        AppError::Rollback { original, .. } if matches!(*original, AppError::Http(_))
    ));
    let requests = requests.borrow();
    assert_eq!(requests.len(), 2);
    assert_eq!(
        request_line(&requests[1]),
        "GET /storage/v1/b/bucket/o?maxResults=1000 HTTP/1.1"
    );
}

#[test]
fn rewrites_objects_with_generations_and_continuation_tokens() {
    let (storage, requests) = test_server(vec![
        bucket_lock_created(),
        (
            200,
            r#"{"done":false,"rewriteToken":"continue token"}"#.to_string(),
        ),
        (
            200,
            r#"{"done":true,"resource":{"generation":"456"}}"#.to_string(),
        ),
        bucket_lock_deleted(),
    ]);
    let source = ObjectPath::parse("gs://bucket/folder*?[]#/source").unwrap();
    let target = ObjectPath::parse("gs://bucket/folder*?[]#/target").unwrap();

    let generation = storage
        .copy_object(&source, &target, Some("123"), Some("0"))
        .unwrap();

    assert_eq!(generation, "456");
    let requests = requests.borrow();
    assert_eq!(requests.len(), 4);
    assert_eq!(
        request_line(&requests[1]),
        "POST /storage/v1/b/bucket/o/folder%2A%3F%5B%5D%23%2Fsource/rewriteTo/b/bucket/o/folder%2A%3F%5B%5D%23%2Ftarget?sourceGeneration=123&ifSourceGenerationMatch=123&ifGenerationMatch=0 HTTP/1.1"
    );
    assert_eq!(
        request_line(&requests[2]),
        "POST /storage/v1/b/bucket/o/folder%2A%3F%5B%5D%23%2Fsource/rewriteTo/b/bucket/o/folder%2A%3F%5B%5D%23%2Ftarget?sourceGeneration=123&ifSourceGenerationMatch=123&ifGenerationMatch=0&rewriteToken=continue+token HTTP/1.1"
    );
}

#[test]
fn interrupts_a_blocking_cloud_storage_request() {
    let (storage, requests) = scripted(vec![
        Answer::Reply(200, r#"{"generation":"lock"}"#.to_string()),
        Answer::Dropped,
        Answer::Reply(200, "{}".to_string()),
    ]);

    let result = storage.list_objects("bucket");

    assert!(matches!(result, Err(AppError::InterruptedAfterRequest)));
    let requests = requests.borrow();
    assert_eq!(requests.len(), 3);
    assert_eq!(
        request_line(&requests[2]),
        "DELETE /storage/v1/b/bucket/o/.task-googlecloud-lock?generation=lock HTTP/1.1"
    );
}

#[test]
fn distinguishes_interrupts_before_and_after_a_storage_request() {
    let (storage, requests) = test_server(Vec::new());
    storage.interrupted.store(true, Ordering::Relaxed);
    let target = ObjectPath::parse("gs://bucket/object").unwrap();
    let before_request = storage.send(upload_request(BASE, &target)).unwrap_err();

    assert!(matches!(&before_request, AppError::Interrupted));
    assert!(!before_request.may_have_sent_storage_request());
    assert!(requests.borrow().is_empty());

    let (storage, requests) = scripted(vec![Answer::Dropped]);
    let after_request = storage.send(upload_request(BASE, &target)).unwrap_err();

    assert!(matches!(&after_request, AppError::InterruptedAfterRequest));
    assert!(after_request.may_have_sent_storage_request());
    assert_eq!(requests.borrow().len(), 1);
}

#[test]
fn an_interrupt_hides_a_reply_that_arrived() {
    let (storage, _) = scripted(vec![Answer::InterruptedReply(
        200,
        r#"{"generation":"1"}"#.to_string(),
    )]);
    let target = ObjectPath::parse("gs://bucket/object").unwrap();
    let error = storage.send(upload_request(BASE, &target)).unwrap_err();
    assert!(matches!(error, AppError::InterruptedAfterRequest));
}

#[test]
fn releases_a_bucket_lock_after_an_interrupted_upload() {
    let (storage, requests) = scripted(vec![
        Answer::Reply(200, r#"{"generation":"lock"}"#.to_string()),
        Answer::Dropped,
        Answer::Reply(200, "{}".to_string()),
    ]);
    let target = ObjectPath::parse("gs://bucket/target").unwrap();

    let error = storage
        .upload_file("file", &target)
        .expect_err("interrupted upload should fail");

    assert!(matches!(error, AppError::InterruptedAfterRequest));
    assert_eq!(requests.borrow().len(), 3);
    assert!(storage.held.borrow().names.is_empty());
}

#[test]
fn removes_a_bucket_lock_after_an_unacknowledged_response() {
    let (storage, requests) = scripted(vec![
        Answer::Reply(200, "not-json".to_string()),
        Answer::Echo,
        Answer::Reply(200, r#"{"generation":"lock"}"#.to_string()),
        Answer::Reply(200, "{}".to_string()),
    ]);

    let error = storage.list_objects("bucket").unwrap_err();

    assert!(error.to_string().contains("bucket lock"), "{}", error.to_string());
    let requests = requests.borrow();
    assert_eq!(requests.len(), 4);
    assert_eq!(
        request_line(&requests[1]),
        "GET /storage/v1/b/bucket/o/.task-googlecloud-lock?alt=media HTTP/1.1"
    );
    assert_eq!(
        request_line(&requests[2]),
        "GET /storage/v1/b/bucket/o/.task-googlecloud-lock HTTP/1.1"
    );
    assert_eq!(
        request_line(&requests[3]),
        "DELETE /storage/v1/b/bucket/o/.task-googlecloud-lock?generation=lock HTTP/1.1"
    );
}

#[test]
fn leaves_the_lock_of_another_writer_after_an_unacknowledged_response() {
    let (storage, requests) = scripted(vec![
        Answer::Reply(500, "not-json".to_string()),
        Answer::Reply(200, "another token".to_string()),
    ]);

    let error = storage.list_objects("bucket").unwrap_err();

    assert!(matches!(error, AppError::Storage { status: 500, .. }));
    assert_eq!(error.to_string(), "Cloud Storage API request failed (500): not-json");
    assert_eq!(requests.borrow().len(), 2);
}

#[test]
fn adds_a_failed_recovery_to_an_unacknowledged_response() {
    let (storage, requests) = scripted(vec![
        Answer::Reply(500, "broken".to_string()),
        Answer::Reply(503, "still broken".to_string()),
    ]);

    let error = storage.list_objects("bucket").unwrap_err();

    assert_eq!(
        error.to_string(),
        "Cloud Storage API request failed (500): broken; rollback failed: \
         Cloud Storage API request failed (503): still broken"
    );
    assert_eq!(requests.borrow().len(), 2);
}

#[test]
fn lock_objects_hold_a_fresh_token() {
    let mut tokens = Vec::new();
    for _ in 0..2 {
        let (storage, requests) =
            test_server(vec![bucket_lock_created(), (200, "{}".to_string()), bucket_lock_deleted()]);
        storage.list_objects("bucket").unwrap();
        let request = requests.borrow()[0].clone();
        let token = request.split_once("\r\n\r\n").unwrap().1.to_string();
        assert_eq!(token.len(), 32);
        assert!(token.chars().all(|c| matches!(c, '0'..='9' | 'a'..='f')), "{token}");
        tokens.push(token);
    }
    assert_ne!(tokens[0], tokens[1]);
}

#[test]
fn preserves_recovery_details_for_generation_confirmation_token_failures() {
    let object = ObjectPath::parse("gs://bucket/object").unwrap();
    let lookup = Err(AppError::token(AppError::Interrupted));

    let error = confirm_object_generation(&object, "22", "move object", lookup).unwrap_err();

    assert!(
        matches!(
            &error,
            AppError::Recovery {
                operation,
                details,
                ..
            } if operation == "move object"
                && details.contains("Expected generation 22")
                && details.contains("Cloud Storage token retrieval failed")
        ),
        "{}",
        error.to_string()
    );
}

#[test]
fn a_lock_that_cannot_be_released_asks_for_recovery() {
    let (storage, _) = test_server(vec![
        bucket_lock_created(),
        (200, "{}".to_string()),
        (503, "busy".to_string()),
    ]);

    let error = storage.list_objects("bucket").unwrap_err();

    assert_eq!(
        error.to_string(),
        "Manual recovery required for gs://bucket/.task-googlecloud-lock after \
         release Cloud Storage bucket lock; Cloud Storage API request failed (503): busy"
    );
}

#[test]
fn an_interrupt_during_a_successful_operation_is_reported_after_the_release() {
    let (storage, requests) = test_server(vec![bucket_lock_created(), bucket_lock_deleted()]);

    let result = storage.with_bucket_locks(&["bucket"], || {
        storage.interrupted.store(true, Ordering::Relaxed);
        Ok(())
    });

    assert!(matches!(result, Err(AppError::Interrupted)));
    assert_eq!(requests.borrow().len(), 2);
    assert!(!storage.is_interrupted());
}

#[test]
fn held_locks_are_not_acquired_again() {
    let (storage, requests) = test_server(vec![
        bucket_lock_created(),
        bucket_lock_created(),
        bucket_lock_deleted(),
        bucket_lock_deleted(),
    ]);

    let value = storage
        .with_bucket_locks(&["b", "b"], || {
            storage.with_bucket_locks(&["b"], || Ok(()))?;
            storage.with_bucket_locks(&["a", "b"], || {
                assert_eq!(storage.held.borrow().names, vec!["b", "a"]);
                Ok(7)
            })
        })
        .unwrap();

    assert_eq!(value, 7);
    let lines = requests
        .borrow()
        .iter()
        .map(|request| request_line(request).to_string())
        .collect::<Vec<_>>();
    assert_eq!(lines.len(), 4);
    assert!(lines[0].starts_with("POST /storage/v1/b/b/o?"));
    assert!(lines[1].starts_with("POST /storage/v1/b/a/o?"));
    assert!(lines[2].starts_with("DELETE /storage/v1/b/a/o/"));
    assert!(lines[3].starts_with("DELETE /storage/v1/b/b/o/"));
    assert!(storage.held.borrow().names.is_empty());
}

#[test]
fn locks_are_released_in_reverse_order() {
    let (storage, requests) = test_server(vec![
        bucket_lock_created(),
        bucket_lock_created(),
        bucket_lock_deleted(),
        bucket_lock_deleted(),
    ]);

    storage.with_bucket_locks(&["z", "a"], || Ok(())).unwrap();

    let requests = requests.borrow();
    assert!(request_line(&requests[0]).contains("/b/a/"));
    assert!(request_line(&requests[1]).contains("/b/z/"));
    assert!(request_line(&requests[2]).contains("/b/z/"));
    assert!(request_line(&requests[3]).contains("/b/a/"));
}

#[test]
fn deregistering_takes_out_what_was_registered() {
    let mut held = HeldBuckets::new();
    held.register(&vec!["a".to_string(), "b".to_string()]);
    held.register(&vec!["c".to_string()]);
    held.unregister(&vec!["c".to_string()]);
    assert_eq!(held.names, vec!["a", "b"]);
    held.unregister(&vec!["a".to_string(), "b".to_string(), "x".to_string()]);
    assert!(held.names.is_empty());
}

#[test]
fn rewrites_that_omit_what_they_promise_are_refused() {
    for (body, words) in [
        (r#"{"done":true}"#, "Cloud Storage rewrite omitted its resource"),
        (r#"{"done":false}"#, "Cloud Storage rewrite omitted its continuation token"),
    ] {
        let (storage, _) =
            test_server(vec![bucket_lock_created(), (200, body.to_string()), bucket_lock_deleted()]);
        let source = ObjectPath::parse("gs://bucket/source").unwrap();
        let target = ObjectPath::parse("gs://bucket/target").unwrap();
        let error = storage.copy_object(&source, &target, None, None).unwrap_err();
        assert_eq!(error.to_string(), words);
    }
}

#[test]
fn unreadable_replies_tell_what_they_should_have_been() {
    for (kind, words) in [
        (ReplyKind::BucketLock, "Invalid Cloud Storage bucket lock response: odd"),
        (ReplyKind::Metadata, "Invalid Cloud Storage metadata: odd"),
        (ReplyKind::Upload, "Invalid Cloud Storage upload response: odd"),
        (ReplyKind::Rewrite, "Invalid Cloud Storage rewrite response: odd"),
        (ReplyKind::Listing, "Invalid Cloud Storage list response: odd"),
    ] {
        assert_eq!(kind.invalid_reply("odd").to_string(), words);
    }
}

#[test]
fn every_reserved_byte_is_encoded_in_names_and_queries() {
    let (storage, requests) = test_server(vec![
        bucket_lock_created(),
        (200, r#"{"generation":"1"}"#.to_string()),
        bucket_lock_deleted(),
    ]);
    let target = ObjectPath::from_parts("bucket", "a b&c=d+é/%.txt");
    storage.upload_file("file", &target).unwrap();
    assert_eq!(
        request_line(&requests.borrow()[1]),
        "POST /storage/v1/b/bucket/o?uploadType=media&name=a+b%26c%3Dd%2B%C3%A9%2F%25.txt&ifGenerationMatch=0 HTTP/1.1"
    );

    let (storage, requests) = test_server(vec![(404, "{}".to_string())]);
    let target = ObjectPath::from_parts("b", " \"#%*/:<>?[\\]^`{|}\u{7f}\n~é-_.!&=+");
    storage.confirm_write_after_failure(&target, &AppError::Message("x".to_string())).unwrap();
    assert_eq!(
        request_line(&requests.borrow()[0]),
        "GET /storage/v1/b/b/o/%20%22%23%25%2A%2F%3A%3C%3E%3F%5B%5C%5D%5E%60%7B%7C%7D%7F%0A~%C3%A9-_.!&=+ HTTP/1.1"
    );
}

#[test]
fn a_rollback_without_ownership_changes_nothing() {
    for responses in [
        vec![bucket_lock_created(), (200, r#"{"generation":"1"}"#.to_string()), bucket_lock_deleted()],
        vec![
            bucket_lock_created(),
            (404, "{}".to_string()),
            (404, "{}".to_string()),
            bucket_lock_deleted(),
        ],
    ] {
        let expected = responses.len();
        let (storage, requests) = test_server(responses);
        let source = ObjectPath::parse("gs://bucket/source").unwrap();
        let target = ObjectPath::parse("gs://bucket/target").unwrap();
        let error = storage.rollback_object(&source, &target, "22").unwrap_err();
        assert_eq!(
            error.to_string(),
            "Rollback ownership check failed for gs://bucket/source and gs://bucket/target"
        );
        assert_eq!(requests.borrow().len(), expected);
        assert!(!requests.borrow().iter().any(|request| request.contains("rewriteTo")));
    }
}

#[test]
fn a_source_that_cannot_be_opened_sends_nothing() {
    let (storage, requests) = test_server(Vec::new());
    let target = ObjectPath::parse("gs://bucket/target").unwrap();
    let error = storage.upload_file("missing", &target).unwrap_err();
    assert_eq!(error.to_string(), "Cannot read the upload source: no such file");
    assert!(!error.reached_storage());
    assert!(requests.borrow().is_empty());

    let lock = ObjectPath::parse("gs://bucket/.task-googlecloud-lock").unwrap();
    let error = storage.upload_file("file", &lock).unwrap_err();
    assert_eq!(
        error.to_string(),
        "The reserved bucket lock object cannot be modified: gs://bucket/.task-googlecloud-lock"
    );
    assert!(requests.borrow().is_empty());
}
