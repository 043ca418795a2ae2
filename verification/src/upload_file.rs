//! Uploading one file.
//!
//! The file is opened before its bucket is locked, so that a source that cannot
//! be uploaded is found out while nothing was sent.
use vstd::prelude::*;

use crate::atomic_rename::DirectoryIdentity;
use crate::atomic_rename::Platform;
use crate::error::AppError;
use crate::object_path::ObjectPath;
use crate::storage_operations;
use crate::storage_operations::BUCKET_LOCK_OBJECT;
use crate::storage_request;
use crate::storage_request::HttpMethod;
use crate::storage_request::Payload;
use crate::storage_request::ReplyKind;
use crate::storage_request::StorageRequest;
use crate::storage_url;
use crate::text;
use crate::upload_source;
use crate::upload_source::SourceStep;
use crate::upload_source::UploadSourceIdentity;
use crate::url_laws;

verus! {

/// The source is being opened.
#[derive(Debug)]
pub struct AwaitingSource {
    pub upload_base: String,
    pub target: ObjectPath,
}

/// The source is open; what follows is done while the bucket is locked.
#[derive(Debug)]
pub struct AwaitingLock {
    pub upload_base: String,
    pub target: ObjectPath,
}

/// The contents of the source are being sent.
#[derive(Debug)]
pub struct AwaitingUpload;

/// What is to be done next.
#[derive(Debug)]
pub enum UploadFileStep {
    /// Perform the steps of opening the source to their end.
    Open(AwaitingSource, SourceStep),
    /// Lock these buckets and go on.
    Lock(AwaitingLock, Vec<String>),
    /// The upload ends without having sent anything.
    Refused(AppError),
}

/// Begins to upload a file to a name that must not be the one of the bucket lock.
pub fn start(
    platform: Platform,
    upload_base: String,
    upload_root: Option<&str>,
    expected_root: Option<DirectoryIdentity>,
    source: &str,
    expected_source: Option<UploadSourceIdentity>,
    target: ObjectPath,
) -> (step: UploadFileStep)
    ensures
        if target@.object == BUCKET_LOCK_OBJECT@ {
            step matches UploadFileStep::Refused(error) && storage_operations::refuses_lock_object(
                error,
                target@,
            )
        } else {
            &&& step matches UploadFileStep::Open(awaiting, open)
            &&& awaiting == (AwaitingSource { upload_base, target })
            &&& upload_source::opens(
                platform,
                upload_source::optional(upload_root),
                source@,
                expected_root,
                expected_source,
                open,
            )
            &&& open.wf()
        },
        step is Refused <==> target.object@ == ".task-googlecloud-lock"@,
{
    match storage_operations::reject_bucket_lock_object(&target) {
        Err(error) => UploadFileStep::Refused(error),
        Ok(()) => {
            let open = upload_source::open(
                platform,
                upload_root,
                source,
                expected_root,
                expected_source,
            );
            UploadFileStep::Open(AwaitingSource { upload_base, target }, open)
        },
    }
}

impl AwaitingSource {
    /// How to go on once the source was opened, or was refused.
    pub open spec fn continues(self, opened: Result<(), AppError>, step: UploadFileStep) -> bool {
        match opened {
            Err(error) => step == UploadFileStep::Refused(error),
            Ok(_) => {
                &&& step matches UploadFileStep::Lock(awaiting, buckets)
                &&& awaiting == (AwaitingLock {
                    upload_base: self.upload_base,
                    target: self.target,
                })
                &&& text::views(buckets@) == seq![self.target@.bucket]
            },
        }
    }

    /// Goes on once the source was opened, or was refused.
    pub fn resume(self, opened: Result<(), AppError>) -> (step: UploadFileStep)
        ensures
            self.continues(opened, step),
            opened matches Err(error) ==> step == UploadFileStep::Refused(error),
            opened is Ok ==> {
                &&& step matches UploadFileStep::Lock(awaiting, buckets)
                &&& awaiting.target == self.target
                &&& buckets@.len() == 1
                &&& buckets@[0]@ == self.target.bucket@
            },
    {
        match opened {
            Err(error) => UploadFileStep::Refused(error),
            Ok(()) => {
                let buckets: Vec<String> = vec![self.target.bucket.clone()];
                assert(text::views(buckets@) =~= seq![self.target@.bucket]);
                UploadFileStep::Lock(
                    AwaitingLock { upload_base: self.upload_base, target: self.target },
                    buckets,
                )
            },
        }
    }
}

impl AwaitingLock {
    /// Goes on once the bucket is locked: the contents of the source are sent, to
    /// a name that must not exist yet.
    pub fn resume(self) -> (sending: (AwaitingUpload, StorageRequest))
        ensures
            sending.1.method == HttpMethod::Post,
            sending.1.url@ == storage_url::creation(self.upload_base@, self.target@),
            sending.1.body is UploadSource,
            sending.1.reply == ReplyKind::Upload,
            exists|plain: Seq<char>|
                {
                    &&& #[trigger] url_laws::says_bucket(
                        plain,
                        self.upload_base@,
                        self.target.bucket@,
                    )
                    &&& url_laws::with_pairs(
                        sending.1.url@,
                        plain,
                        seq![
                            ("uploadType"@, "media"@),
                            ("name"@, self.target.object@),
                            ("ifGenerationMatch"@, "0"@),
                        ],
                    )
                },
    {
        (
            AwaitingUpload,
            storage_operations::upload_request(self.upload_base.as_str(), &self.target),
        )
    }
}

impl AwaitingUpload {
    /// Ends the upload with the generation that the object was stored at.
    pub fn finish(self, reply: Result<Payload, AppError>) -> (generation: Result<String, AppError>)
        requires
            storage_request::answers(reply, ReplyKind::Upload),
        ensures
            match storage_request::metadata_in(reply) {
                Ok(metadata) => generation == Ok::<String, AppError>(metadata.generation),
                Err(error) => generation == Err::<String, AppError>(error),
            },
            match reply {
                Ok(Payload::Metadata(metadata)) => generation == Ok::<String, AppError>(
                    metadata.generation,
                ),
                Ok(_) => false,
                Err(error) => generation == Err::<String, AppError>(error),
            },
    {
        storage_operations::uploaded_generation(reply)
    }
}

/// A source that is refused sends nothing: the bucket is locked, and the contents
/// sent, only after the source was opened.
pub proof fn a_refused_source_sends_nothing(
    awaiting: AwaitingSource,
    opened: Result<(), AppError>,
    step: UploadFileStep,
)
    requires
        awaiting.continues(opened, step),
    ensures
        opened is Err <==> step is Refused,
        step is Lock ==> opened is Ok,
{
}

} // verus!
