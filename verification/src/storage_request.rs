//! Requests to Cloud Storage and the replies to them, as plain values.
use vstd::prelude::*;

use crate::error::AppError;
use crate::object_path::ObjectPath;
use crate::object_path::ObjectPathView;
use crate::storage_url;

verus! {

#[derive(Clone, Copy, Debug, PartialEq, Eq, Structural)]
pub enum HttpMethod {
    Get,
    Post,
    Delete,
}

/// What a request carries besides its URL.
#[derive(Debug)]
pub enum RequestBody {
    Empty,
    /// These bytes.
    Bytes(Vec<u8>),
    /// The contents of the upload source that was opened for the request.
    UploadSource,
}

/// What the reply to a request is read as.
#[derive(Clone, Copy, Debug, PartialEq, Eq, Structural)]
pub enum ReplyKind {
    /// The bytes of the reply.
    Body,
    /// The metadata of a bucket lock that was created.
    BucketLock,
    /// The metadata of an object.
    Metadata,
    /// The metadata of an object that was uploaded.
    Upload,
    /// The progress of a rewrite.
    Rewrite,
    /// One page of a listing.
    Listing,
}

#[derive(Debug)]
pub struct StorageRequest {
    pub method: HttpMethod,
    pub url: String,
    pub body: RequestBody,
    pub reply: ReplyKind,
}

#[derive(Debug, PartialEq, Eq)]
pub struct ObjectMetadata {
    pub generation: String,
}

impl Clone for ObjectMetadata {
    fn clone(&self) -> (copy: Self)
        ensures
            copy == *self,
    {
        ObjectMetadata { generation: self.generation.clone() }
    }
}

/// One page of a listing.
#[derive(Debug)]
pub struct Listing {
    pub names: Vec<String>,
    pub next_page_token: Option<String>,
}

/// The progress of a rewrite: the generation of the copy once it is done, else
/// the token to continue with.
#[derive(Debug)]
pub struct Rewrite {
    pub done: bool,
    pub rewrite_token: Option<String>,
    pub generation: Option<String>,
}

/// The contents of a successful reply.
#[derive(Debug)]
pub enum Payload {
    Body(Vec<u8>),
    Metadata(ObjectMetadata),
    Rewrite(Rewrite),
    Listing(Listing),
}

impl ReplyKind {
    /// The words that introduce a complaint about a reply that cannot be read;
    /// bytes can always be read.
    pub open spec fn complaint(self) -> Seq<char>
        recommends
            self != ReplyKind::Body,
    {
        match self {
            ReplyKind::Body => Seq::empty(),
            ReplyKind::BucketLock => "Invalid Cloud Storage bucket lock response"@,
            ReplyKind::Metadata => "Invalid Cloud Storage metadata"@,
            ReplyKind::Upload => "Invalid Cloud Storage upload response"@,
            ReplyKind::Rewrite => "Invalid Cloud Storage rewrite response"@,
            ReplyKind::Listing => "Invalid Cloud Storage list response"@,
        }
    }

    /// The error for a reply that cannot be read as its request expects.
    pub fn invalid_reply(self, problem: &str) -> (error: AppError)
        requires
            self != ReplyKind::Body,
        ensures
            error matches AppError::StorageResponse(message) && message@ == self.complaint() + ": "@
                + problem@,
            error matches AppError::StorageResponse(message) && match self {
                ReplyKind::Body => true,
                ReplyKind::BucketLock => message@
                    == "Invalid Cloud Storage bucket lock response"@ + ": "@ + problem@,
                ReplyKind::Metadata => message@ == "Invalid Cloud Storage metadata"@ + ": "@
                    + problem@,
                ReplyKind::Upload => message@ == "Invalid Cloud Storage upload response"@ + ": "@
                    + problem@,
                ReplyKind::Rewrite => message@ == "Invalid Cloud Storage rewrite response"@ + ": "@
                    + problem@,
                ReplyKind::Listing => message@ == "Invalid Cloud Storage list response"@ + ": "@
                    + problem@,
            },
    {
        let complaint = match self {
            ReplyKind::Body => vstd::pervasive::unreached(),
            ReplyKind::BucketLock => "Invalid Cloud Storage bucket lock response",
            ReplyKind::Metadata => "Invalid Cloud Storage metadata",
            ReplyKind::Upload => "Invalid Cloud Storage upload response",
            ReplyKind::Rewrite => "Invalid Cloud Storage rewrite response",
            ReplyKind::Listing => "Invalid Cloud Storage list response",
        };
        AppError::StorageResponse(complaint.to_string().concat(": ").concat(problem))
    }
}

/// Whether a reply is of the kind that a request asked for; a failure answers
/// any request.
pub open spec fn answers(reply: Result<Payload, AppError>, kind: ReplyKind) -> bool {
    match reply {
        Ok(Payload::Body(_)) => kind == ReplyKind::Body,
        Ok(Payload::Metadata(_)) => kind == ReplyKind::BucketLock || kind == ReplyKind::Metadata
            || kind == ReplyKind::Upload,
        Ok(Payload::Rewrite(_)) => kind == ReplyKind::Rewrite,
        Ok(Payload::Listing(_)) => kind == ReplyKind::Listing,
        Err(_) => true,
    }
}

/// The metadata that a reply holds.
pub open spec fn metadata_in(reply: Result<Payload, AppError>) -> Result<ObjectMetadata, AppError> {
    match reply {
        Ok(payload) => Ok(payload->Metadata_0),
        Err(error) => Err(error),
    }
}

pub(crate) fn into_metadata(reply: Result<Payload, AppError>) -> (metadata: Result<
    ObjectMetadata,
    AppError,
>)
    requires
        answers(reply, ReplyKind::Metadata),
    ensures
        metadata == metadata_in(reply),
{
    match reply {
        Ok(Payload::Metadata(metadata)) => Ok(metadata),
        Ok(_) => vstd::pervasive::unreached(),
        Err(error) => Err(error),
    }
}

/// The rewrite progress that a reply holds.
pub open spec fn rewrite_in(reply: Result<Payload, AppError>) -> Result<Rewrite, AppError> {
    match reply {
        Ok(payload) => Ok(payload->Rewrite_0),
        Err(error) => Err(error),
    }
}

pub(crate) fn into_rewrite(reply: Result<Payload, AppError>) -> (rewrite: Result<Rewrite, AppError>)
    requires
        answers(reply, ReplyKind::Rewrite),
    ensures
        rewrite == rewrite_in(reply),
{
    match reply {
        Ok(Payload::Rewrite(rewrite)) => Ok(rewrite),
        Ok(_) => vstd::pervasive::unreached(),
        Err(error) => Err(error),
    }
}

/// The bytes that a reply holds.
pub open spec fn body_in(reply: Result<Payload, AppError>) -> Result<Vec<u8>, AppError> {
    match reply {
        Ok(payload) => Ok(payload->Body_0),
        Err(error) => Err(error),
    }
}

pub(crate) fn into_body(reply: Result<Payload, AppError>) -> (body: Result<Vec<u8>, AppError>)
    requires
        answers(reply, ReplyKind::Body),
    ensures
        body == body_in(reply),
{
    match reply {
        Ok(Payload::Body(body)) => Ok(body),
        Ok(_) => vstd::pervasive::unreached(),
        Err(error) => Err(error),
    }
}

impl StorageRequest {
    /// The request without a body.
    pub open spec fn is_plain(self, method: HttpMethod, url: Seq<char>, reply: ReplyKind) -> bool {
        &&& self.method == method
        &&& self.url@ == url
        &&& self.body is Empty
        &&& self.reply == reply
    }

    /// The lookup of an object's current metadata.
    pub open spec fn looks_up(self, api_base: Seq<char>, object: ObjectPathView) -> bool {
        self.is_plain(
            HttpMethod::Get,
            storage_url::resource(api_base, object),
            ReplyKind::Metadata,
        )
    }

    /// The lookup of an object's metadata at a generation.
    pub open spec fn looks_up_generation(
        self,
        api_base: Seq<char>,
        object: ObjectPathView,
        generation: Seq<char>,
    ) -> bool {
        self.is_plain(
            HttpMethod::Get,
            storage_url::generation_resource(api_base, object, generation),
            ReplyKind::Metadata,
        )
    }

    /// The deletion of one generation of an object, and of no other.
    pub open spec fn deletes(
        self,
        api_base: Seq<char>,
        object: ObjectPathView,
        generation: Seq<char>,
    ) -> bool {
        self.is_plain(
            HttpMethod::Delete,
            storage_url::generation_resource(api_base, object, generation),
            ReplyKind::Body,
        )
    }

    pub(crate) fn look_up(api_base: &str, object: &ObjectPath) -> (request: Self)
        ensures
            request.looks_up(api_base@, object@),
    {
        StorageRequest {
            method: HttpMethod::Get,
            url: storage_url::object_url(api_base, object),
            body: RequestBody::Empty,
            reply: ReplyKind::Metadata,
        }
    }

    pub(crate) fn look_up_generation(api_base: &str, object: &ObjectPath, generation: &str) -> (request:
        Self)
        ensures
            request.looks_up_generation(api_base@, object@, generation@),
    {
        StorageRequest {
            method: HttpMethod::Get,
            url: storage_url::generation_url(api_base, object, generation),
            body: RequestBody::Empty,
            reply: ReplyKind::Metadata,
        }
    }

    pub(crate) fn delete(api_base: &str, object: &ObjectPath, generation: &str) -> (request: Self)
        ensures
            request.deletes(api_base@, object@, generation@),
    {
        StorageRequest {
            method: HttpMethod::Delete,
            url: storage_url::generation_url(api_base, object, generation),
            body: RequestBody::Empty,
            reply: ReplyKind::Body,
        }
    }
}

/// What an operation does next: send a request and wait for its reply, or end.
#[derive(Debug)]
pub enum Step<M, T> {
    Send(M, StorageRequest),
    Done(Result<T, AppError>),
}

} // verus!
