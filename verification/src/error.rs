//! Errors are classified by whether a request may have changed remote state so
//! callers can choose confirmation, rollback, or immediate failure safely.
use vstd::prelude::*;

use crate::text;

verus! {

/// The kinds of I/O failure that the workflows tell apart.
#[derive(Clone, Copy, Debug, PartialEq, Eq, Structural)]
pub enum IoErrorKind {
    AlreadyExists,
    BrokenPipe,
    InvalidInput,
    NotADirectory,
    NotFound,
    Other,
}

/// A failed local operation: its kind and the message that is shown for it.
#[derive(Debug)]
pub struct IoError {
    pub kind: IoErrorKind,
    pub message: String,
}

impl Clone for IoError {
    fn clone(&self) -> (copy: Self)
        ensures
            copy == *self,
    {
        IoError { kind: self.kind, message: self.message.clone() }
    }
}

impl IoError {
    pub fn new(kind: IoErrorKind, message: &str) -> (error: Self)
        ensures
            error.kind == kind,
            error.message@ == message@,
    {
        IoError { kind, message: message.to_string() }
    }
}

#[allow(inconsistent_fields)]
#[derive(Debug)]
pub enum AppError {
    Message(String),
    Io(IoError),
    /// Raised while reading a local upload source, before any request leaves the
    /// process, so Cloud Storage cannot have been changed by the attempt.
    UploadSource(IoError),
    Http(String),
    Storage { status: u16, message: String },
    StorageResponse(String),
    /// The bucket lock already belongs to another compliant writer.
    BucketLockConflict(Box<AppError>),
    Command { operation: String, status: String, details: String },
    /// Access-token retrieval failed. The boolean records whether an earlier
    /// request in the same operation may already have reached Cloud Storage.
    Token(Box<AppError>, bool),
    Recovery { paths: String, operation: String, details: String },
    /// An object was found without the generation that proves its ownership.
    MissingGeneration(String),
    Collision(String),
    /// Combines an operation failure with failures encountered while restoring
    /// local or remote state.
    Rollback { original: Box<AppError>, details: String },
    Interrupted,
    /// A move was interrupted after source deletion, but rollback restored the
    /// source under a new generation that the transaction must record.
    InterruptedAfterMoveRollback { restored_generation: String },
    /// The request may have reached Cloud Storage before the interruption was observed.
    InterruptedAfterRequest,
    UnsupportedPlatform(String),
    InvalidStorageUri(String),
}

impl AppError {
    /// The message that is shown for the error.
    pub open spec fn text(self) -> Seq<char>
        decreases self,
    {
        match self {
            AppError::Message(message) => message@,
            AppError::Io(error) => "I/O failed: "@ + error.message@,
            AppError::UploadSource(error) => "Cannot read the upload source: "@ + error.message@,
            AppError::Http(message) => "HTTP request failed: "@ + message@,
            AppError::Storage { status, message } => "Cloud Storage API request failed ("@
                + text::decimal(status as nat) + "): "@ + message@,
            AppError::StorageResponse(message) => message@,
            AppError::BucketLockConflict(error) => "Cloud Storage bucket lock conflict: "@
                + error.text(),
            AppError::Command { operation, status, details } => "Cloud command failed: "@
                + operation@ + " (exit status: "@ + status@ + ")"@ + details@,
            AppError::Token(error, _) => "Cloud Storage token retrieval failed: "@ + error.text(),
            AppError::Recovery { paths, operation, details } => "Manual recovery required for "@
                + paths@ + " after "@ + operation@ + "; "@ + details@,
            AppError::MissingGeneration(object) => "Cannot verify ownership for "@ + text::quoted(
                object@,
            ) + " without a generation"@,
            AppError::Collision(names) => "Normalized names collide: "@ + names@,
            AppError::Rollback { original, details } => original.text() + "; rollback failed: "@
                + details@,
            AppError::Interrupted => "Operation interrupted"@,
            AppError::InterruptedAfterMoveRollback {
                ..
            } => "Operation interrupted after restoring a moved object"@,
            AppError::InterruptedAfterRequest =>
                "Operation interrupted during a Cloud Storage request"@,
            AppError::UnsupportedPlatform(platform) =>
                "Atomic no-replace rename is not supported on "@ + platform@,
            AppError::InvalidStorageUri(uri) => "Expected a Cloud Storage URI: "@ + text::quoted(
                uri@,
            ),
        }
    }

    /// The message that is shown for the error.
    pub fn to_string(&self) -> (text: String)
        ensures
            text@ == self.text(),
        decreases self,
    {
        match self {
            AppError::Message(message) => message.clone(),
            AppError::Io(error) => "I/O failed: ".to_string().concat(error.message.as_str()),
            AppError::UploadSource(error) => "Cannot read the upload source: ".to_string().concat(
                error.message.as_str(),
            ),
            AppError::Http(message) => "HTTP request failed: ".to_string().concat(message.as_str()),
            AppError::Storage { status, message } => "Cloud Storage API request failed (".to_string().concat(
                text::decimal_text(*status as u64).as_str(),
            ).concat("): ").concat(message.as_str()),
            AppError::StorageResponse(message) => message.clone(),
            AppError::BucketLockConflict(error) => "Cloud Storage bucket lock conflict: ".to_string().concat(
                error.to_string().as_str(),
            ),
            AppError::Command { operation, status, details } => "Cloud command failed: ".to_string().concat(
                operation.as_str(),
            ).concat(" (exit status: ").concat(status.as_str()).concat(")").concat(details.as_str()),
            AppError::Token(error, _) => "Cloud Storage token retrieval failed: ".to_string().concat(
                error.to_string().as_str(),
            ),
            AppError::Recovery { paths, operation, details } => "Manual recovery required for ".to_string().concat(
                paths.as_str(),
            ).concat(" after ").concat(operation.as_str()).concat("; ").concat(details.as_str()),
            AppError::MissingGeneration(object) => "Cannot verify ownership for ".to_string().concat(
                text::quote(object.as_str()).as_str(),
            ).concat(" without a generation"),
            AppError::Collision(names) => "Normalized names collide: ".to_string().concat(
                names.as_str(),
            ),
            AppError::Rollback { original, details } => original.to_string().concat(
                "; rollback failed: ",
            ).concat(details.as_str()),
            AppError::Interrupted => "Operation interrupted".to_string(),
            AppError::InterruptedAfterMoveRollback {
                ..
            } => "Operation interrupted after restoring a moved object".to_string(),
            AppError::InterruptedAfterRequest =>
                "Operation interrupted during a Cloud Storage request".to_string(),
            AppError::UnsupportedPlatform(platform) =>
                "Atomic no-replace rename is not supported on ".to_string().concat(
                platform.as_str(),
            ),
            AppError::InvalidStorageUri(uri) => "Expected a Cloud Storage URI: ".to_string().concat(
                text::quote(uri.as_str()).as_str(),
            ),
        }
    }

    /// What [`AppError::rollback`] makes of a failure and the failures met
    /// while undoing it: the failure itself where the undoing succeeded, else
    /// the failure together with the other messages.
    pub open spec fn rollback_of(self, original: AppError, errors: Seq<AppError>) -> bool {
        if errors.len() == 0 {
            self == original
        } else {
            &&& self matches AppError::Rollback { original: kept, details }
            &&& *kept == original
            &&& details@ == text::joined(texts(errors), "; "@)
        }
    }

    /// Adds the failures met while undoing an operation to its own failure.
    pub fn rollback(original: AppError, errors: Vec<AppError>) -> (combined: Self)
        ensures
            combined.rollback_of(original, errors@),
    {
        if errors.len() == 0 {
            return original;
        }
        let details = text::join(&error_texts(&errors), "; ");
        AppError::Rollback { original: Box::new(original), details }
    }

    /// Whether the failure may have left Cloud Storage changed.
    pub open spec fn has_reached_storage(self) -> bool {
        match self {
            AppError::UploadSource(_) | AppError::Command { .. } | AppError::Interrupted => false,
            AppError::Token(_, reached_storage) => reached_storage,
            _ => true,
        }
    }

    /// Whether the failure may have left Cloud Storage changed. Upload-source
    /// failures, pre-request interruptions, and token failures before any
    /// request cannot have; token failures after an earlier request are marked
    /// as reached.
    pub fn reached_storage(&self) -> (reached: bool)
        ensures
            reached == self.has_reached_storage(),
    {
        match self {
            AppError::UploadSource(_) | AppError::Command { .. } | AppError::Interrupted => false,
            AppError::Token(_, reached_storage) => *reached_storage,
            _ => true,
        }
    }

    /// Whether an interruption stopped the operation or its token retrieval.
    pub open spec fn stopped_by_interrupt(self) -> bool
        decreases self,
    {
        match self {
            AppError::Interrupted
            | AppError::InterruptedAfterMoveRollback { .. }
            | AppError::InterruptedAfterRequest => true,
            AppError::Token(error, _) => error.stopped_by_interrupt(),
            _ => false,
        }
    }

    /// Whether an interruption stopped the operation or its token retrieval.
    pub fn is_interrupted(&self) -> (interrupted: bool)
        ensures
            interrupted == self.stopped_by_interrupt(),
        decreases self,
    {
        match self {
            AppError::Interrupted
            | AppError::InterruptedAfterMoveRollback { .. }
            | AppError::InterruptedAfterRequest => true,
            AppError::Token(error, _) => error.is_interrupted(),
            _ => false,
        }
    }

    pub fn interrupted_after_move_rollback(restored_generation: String) -> (error: Self)
        ensures
            error == (AppError::InterruptedAfterMoveRollback { restored_generation }),
    {
        AppError::InterruptedAfterMoveRollback { restored_generation }
    }

    /// The generation under which an interrupted move left its source restored.
    pub open spec fn restored_generation(self) -> Option<Seq<char>>
        decreases self,
    {
        match self {
            AppError::InterruptedAfterMoveRollback { restored_generation } => Some(
                restored_generation@,
            ),
            AppError::Rollback { original, .. } => original.restored_generation(),
            _ => None,
        }
    }

    /// The generation under which an interrupted move left its source restored.
    pub fn restored_move_generation(&self) -> (generation: Option<&str>)
        ensures
            match generation {
                Some(restored) => self.restored_generation() == Some(restored@),
                None => self.restored_generation() is None,
            },
        decreases self,
    {
        match self {
            AppError::InterruptedAfterMoveRollback { restored_generation } => Some(
                restored_generation.as_str(),
            ),
            AppError::Rollback { original, .. } => original.restored_move_generation(),
            _ => None,
        }
    }

    /// Whether another writer held a bucket lock.
    pub open spec fn lock_conflict(self) -> bool
        decreases self,
    {
        match self {
            AppError::BucketLockConflict(_) => true,
            AppError::Rollback { original, .. } => original.lock_conflict(),
            _ => false,
        }
    }

    /// Whether another writer held a bucket lock.
    pub fn is_bucket_lock_conflict(&self) -> (conflict: bool)
        ensures
            conflict == self.lock_conflict(),
        decreases self,
    {
        match self {
            AppError::BucketLockConflict(_) => true,
            AppError::Rollback { original, .. } => original.is_bucket_lock_conflict(),
            _ => false,
        }
    }

    /// A token failure before any request of the operation was sent.
    pub fn token(error: Self) -> (failure: Self)
        ensures
            failure == AppError::Token(Box::new(error), false),
    {
        AppError::Token(Box::new(error), false)
    }

    /// The error as it stands once an earlier request has been sent.
    pub open spec fn after_request(self) -> AppError {
        match self {
            AppError::Token(error, _) => AppError::Token(error, true),
            error => error,
        }
    }

    /// Marks a token failure as following a request of the same operation.
    pub fn mark_reached_storage(self) -> (marked: Self)
        ensures
            marked == self.after_request(),
    {
        match self {
            AppError::Token(error, _) => AppError::Token(error, true),
            error => error,
        }
    }

    /// Whether the failing request itself may have been sent.
    pub open spec fn request_may_be_sent(self) -> bool
        decreases self,
    {
        match self {
            AppError::Http(_)
            | AppError::Storage { .. }
            | AppError::StorageResponse(_)
            | AppError::InterruptedAfterRequest => true,
            AppError::Token(_, reached_storage) => reached_storage,
            AppError::Rollback { original, .. } => original.request_may_be_sent(),
            _ => false,
        }
    }

    /// Whether the failing request itself may have been sent.
    pub fn may_have_sent_storage_request(&self) -> (sent: bool)
        ensures
            sent == self.request_may_be_sent(),
        decreases self,
    {
        match self {
            AppError::Http(_)
            | AppError::Storage { .. }
            | AppError::StorageResponse(_)
            | AppError::InterruptedAfterRequest => true,
            AppError::Token(_, reached_storage) => *reached_storage,
            AppError::Rollback { original, .. } => original.may_have_sent_storage_request(),
            _ => false,
        }
    }

    /// The HTTP status with which Cloud Storage refused a request.
    pub open spec fn refusal(self) -> Option<u16> {
        match self {
            AppError::Storage { status, .. } => Some(status),
            _ => None,
        }
    }

    /// The HTTP status with which Cloud Storage refused a request.
    pub fn status(&self) -> (status: Option<u16>)
        ensures
            status == self.refusal(),
    {
        match self {
            AppError::Storage { status, .. } => Some(*status),
            _ => None,
        }
    }
}

/// The messages of the errors.
pub open spec fn texts(errors: Seq<AppError>) -> Seq<Seq<char>> {
    errors.map_values(|error: AppError| error.text())
}

/// The messages of the errors.
pub(crate) fn error_texts(errors: &Vec<AppError>) -> (messages: Vec<String>)
    ensures
        text::views(messages@) == texts(errors@),
{
    let mut messages: Vec<String> = Vec::new();
    let mut i: usize = 0;
    while i < errors.len()
        invariant
            i <= errors@.len(),
            messages@.len() == i,
            forall|k: int| 0 <= k < i ==> #[trigger] messages@[k]@ == errors@[k].text(),
        decreases errors@.len() - i,
    {
        messages.push(errors[i].to_string());
        i += 1;
    }
    assert(text::views(messages@) =~= texts(errors@));
    messages
}

/// A failure that never reached Cloud Storage cannot be one whose request may
/// have been sent.
pub proof fn a_sent_request_has_reached_storage(error: AppError)
    ensures
        error.request_may_be_sent() ==> error.has_reached_storage(),
        error.after_request().request_may_be_sent() <== error is Token,
        error.after_request().text() == error.text(),
        error.after_request().refusal() == error.refusal(),
{
}

/// Adding rollback failures hides neither a lock conflict, nor a restored
/// generation, nor that the request may have been sent.
pub proof fn rollback_keeps_the_classification(combined: AppError, original: AppError, errors: Seq<AppError>)
    requires
        combined.rollback_of(original, errors),
    ensures
        combined.lock_conflict() == original.lock_conflict(),
        combined.restored_generation() == original.restored_generation(),
        combined.request_may_be_sent() == original.request_may_be_sent(),
{
}

} // verus!
