//! Cleaning up, listing and creating objects, and confirming what a failed
//! operation left behind.
use vstd::prelude::*;

use crate::error::AppError;
use crate::object_path::ObjectPath;
use crate::object_path::ObjectPathView;
use crate::object_state;
use crate::object_state::ObjectState;
use crate::request_laws;
use crate::storage_request;
use crate::storage_request::HttpMethod;
use crate::storage_request::Listing;
use crate::storage_request::Payload;
use crate::storage_request::ReplyKind;
use crate::storage_request::RequestBody;
use crate::storage_request::Step;
use crate::storage_request::StorageRequest;
use crate::storage_url;
use crate::text;
use crate::url_laws;

verus! {

/// A generation-guarded marker serializes mutations through this client, so a
/// move cannot delete its source while another compliant writer replaces its
/// destination.
pub const BUCKET_LOCK_OBJECT: &'static str = ".task-googlecloud-lock";

/// The error for an attempt to change the bucket lock as if it were data.
pub open spec fn refuses_lock_object(error: AppError, object: ObjectPathView) -> bool {
    &&& error matches AppError::Message(message)
    &&& message@ == "The reserved bucket lock object cannot be modified: "@ + object.uri()
}

/// Accepts every object but the bucket lock.
pub fn reject_bucket_lock_object(object: &ObjectPath) -> (accepted: Result<(), AppError>)
    ensures
        match accepted {
            Ok(()) => object@.object != BUCKET_LOCK_OBJECT@,
            Err(error) => object@.object == BUCKET_LOCK_OBJECT@ && refuses_lock_object(
                error,
                object@,
            ),
        },
        accepted is Ok <==> object.object@ != ".task-googlecloud-lock"@,
{
    if text::same_text(object.object.as_str(), BUCKET_LOCK_OBJECT) {
        return Err(
            AppError::Message(
                "The reserved bucket lock object cannot be modified: ".to_string().concat(
                    object.uri().as_str(),
                ),
            ),
        );
    }
    Ok(())
}

/// The buckets to lock before an object is copied, moved or moved back, or the
/// refusal to touch a bucket lock.
pub fn buckets_of_pair(source: &ObjectPath, target: &ObjectPath) -> (buckets: Result<
    Vec<String>,
    AppError,
>)
    ensures
        match buckets {
            Ok(names) => {
                &&& source@.object != BUCKET_LOCK_OBJECT@
                &&& target@.object != BUCKET_LOCK_OBJECT@
                &&& text::views(names@) == seq![source@.bucket, target@.bucket]
            },
            Err(error) => {
                ||| source@.object == BUCKET_LOCK_OBJECT@ && refuses_lock_object(error, source@)
                ||| {
                    &&& source@.object != BUCKET_LOCK_OBJECT@
                    &&& target@.object == BUCKET_LOCK_OBJECT@
                    &&& refuses_lock_object(error, target@)
                }
            },
        },
        buckets is Ok <==> source.object@ != ".task-googlecloud-lock"@ && target.object@
            != ".task-googlecloud-lock"@,
        buckets matches Ok(names) ==> {
            &&& names@.len() == 2
            &&& names@[0]@ == source.bucket@
            &&& names@[1]@ == target.bucket@
        },
{
    reject_bucket_lock_object(source)?;
    reject_bucket_lock_object(target)?;
    let names: Vec<String> = vec![source.bucket.clone(), target.bucket.clone()];
    assert(text::views(names@) =~= seq![source@.bucket, target@.bucket]);
    Ok(names)
}

/// The bucket to lock before an object is uploaded or cleaned up, or the
/// refusal to touch a bucket lock.
pub fn buckets_of_target(target: &ObjectPath) -> (buckets: Result<Vec<String>, AppError>)
    ensures
        match buckets {
            Ok(names) => target@.object != BUCKET_LOCK_OBJECT@ && text::views(names@)
                == seq![target@.bucket],
            Err(error) => target@.object == BUCKET_LOCK_OBJECT@ && refuses_lock_object(
                error,
                target@,
            ),
        },
        buckets is Ok <==> target.object@ != ".task-googlecloud-lock"@,
        buckets matches Ok(names) ==> names@.len() == 1 && names@[0]@ == target.bucket@,
{
    reject_bucket_lock_object(target)?;
    let names: Vec<String> = vec![target.bucket.clone()];
    assert(text::views(names@) =~= seq![target@.bucket]);
    Ok(names)
}

/// The removal of one generation of an object, waiting for the reply to its
/// latest request.
#[derive(Debug)]
pub struct CleanupObject {
    pub api_base: String,
    pub target: ObjectPath,
    pub target_generation: String,
    pub stage: CleanupStage,
}

#[derive(Clone, Copy, Debug, PartialEq, Eq, Structural)]
pub enum CleanupStage {
    /// The generation to remove is being looked up.
    CheckingOwned,
    Deleting,
    /// Nothing must be left under the name.
    CheckingRemoved,
}

impl CleanupObject {
    pub open spec fn expects(self) -> ReplyKind {
        if self.stage == CleanupStage::Deleting {
            ReplyKind::Body
        } else {
            ReplyKind::Metadata
        }
    }

    pub fn start(api_base: String, target: ObjectPath, target_generation: String) -> (started: (
        Self,
        StorageRequest,
    ))
        ensures
            started.0 == (CleanupObject {
                api_base,
                target,
                target_generation,
                stage: CleanupStage::CheckingOwned,
            }),
            started.1.looks_up_generation(api_base@, target@, target_generation@),
    {
        let request = StorageRequest::look_up_generation(
            api_base.as_str(),
            &target,
            target_generation.as_str(),
        );
        (
            CleanupObject { api_base, target, target_generation, stage: CleanupStage::CheckingOwned },
            request,
        )
    }

    /// The cleanup asks whether anything is left under the name.
    pub open spec fn checks_removed(self, step: Step<CleanupObject, ()>) -> bool {
        &&& step matches Step::Send(next, request)
        &&& next == (CleanupObject { stage: CleanupStage::CheckingRemoved, ..self })
        &&& request.looks_up(self.api_base@, self.target@)
    }

    /// What the cleanup does on a reply.
    pub open spec fn continues(
        self,
        reply: Result<Payload, AppError>,
        step: Step<CleanupObject, ()>,
    ) -> bool {
        match self.stage {
            CleanupStage::CheckingOwned => match object_state::state_in(
                storage_request::metadata_in(reply),
            ) {
                Ok(ObjectState::Present) => {
                    &&& step matches Step::Send(next, request)
                    &&& next == (CleanupObject { stage: CleanupStage::Deleting, ..self })
                    &&& request.deletes(self.api_base@, self.target@, self.target_generation@)
                },
                Ok(ObjectState::Missing) => self.checks_removed(step),
                Err(error) => step == Step::<CleanupObject, ()>::Done(Err(error)),
            },
            CleanupStage::Deleting => match reply {
                Ok(_) => self.checks_removed(step),
                Err(error) => step == Step::<CleanupObject, ()>::Done(Err(error.after_request())),
            },
            CleanupStage::CheckingRemoved => match object_state::state_in(
                storage_request::metadata_in(reply),
            ) {
                Ok(ObjectState::Missing) => step == Step::<CleanupObject, ()>::Done(Ok(())),
                Ok(ObjectState::Present) => {
                    &&& step matches Step::Done(Err(AppError::Message(message)))
                    &&& message@ == "Cleanup target remains: "@ + self.target@.uri()
                },
                Err(error) => step == Step::<CleanupObject, ()>::Done(Err(error.after_request())),
            },
        }
    }

    /// Continues the cleanup with the reply to its latest request.
    pub fn resume(self, reply: Result<Payload, AppError>) -> (step: Step<CleanupObject, ()>)
        requires
            storage_request::answers(reply, self.expects()),
        ensures
            self.continues(reply, step),
            step matches Step::Send(next, request) ==> request.reply == next.expects(),
    {
        match self.stage {
            CleanupStage::CheckingOwned => {
                match object_state::object_state(storage_request::into_metadata(reply)) {
                    Ok(ObjectState::Present) => {
                        let request = StorageRequest::delete(
                            self.api_base.as_str(),
                            &self.target,
                            self.target_generation.as_str(),
                        );
                        Step::Send(CleanupObject { stage: CleanupStage::Deleting, ..self }, request)
                    },
                    Ok(ObjectState::Missing) => self.check_removed(),
                    Err(error) => Step::Done(Err(error)),
                }
            },
            CleanupStage::Deleting => match reply {
                Ok(_) => self.check_removed(),
                Err(error) => Step::Done(Err(error.mark_reached_storage())),
            },
            CleanupStage::CheckingRemoved => {
                match object_state::object_state(storage_request::into_metadata(reply)) {
                    Ok(ObjectState::Missing) => Step::Done(Ok(())),
                    Ok(ObjectState::Present) => Step::Done(
                        Err(
                            AppError::Message(
                                "Cleanup target remains: ".to_string().concat(
                                    self.target.uri().as_str(),
                                ),
                            ),
                        ),
                    ),
                    Err(error) => Step::Done(Err(error.mark_reached_storage())),
                }
            },
        }
    }

    fn check_removed(self) -> (step: Step<CleanupObject, ()>)
        ensures
            self.checks_removed(step),
    {
        let request = StorageRequest::look_up(self.api_base.as_str(), &self.target);
        Step::Send(CleanupObject { stage: CleanupStage::CheckingRemoved, ..self }, request)
    }
}

/// The URIs of the listed objects, without the bucket lock.
pub open spec fn listed(bucket: Seq<char>, names: Seq<Seq<char>>) -> Seq<Seq<char>>
    decreases names.len(),
{
    if names.len() == 0 {
        Seq::empty()
    } else if names.last() == BUCKET_LOCK_OBJECT@ {
        listed(bucket, names.drop_last())
    } else {
        listed(bucket, names.drop_last()).push(
            ObjectPathView { bucket, object: names.last() }.uri(),
        )
    }
}

/// A listing that is waiting for its next page.
#[derive(Debug)]
pub struct ListObjects {
    pub api_base: String,
    pub bucket: String,
    /// The URIs found so far.
    pub objects: Vec<String>,
}

/// The request for the first page of a bucket's objects, or for the page that a
/// token names.
pub open spec fn requests_page(
    request: StorageRequest,
    api_base: Seq<char>,
    bucket: Seq<char>,
    page_token: Option<Seq<char>>,
) -> bool {
    request.is_plain(
        HttpMethod::Get,
        storage_url::queried(
            storage_url::collection(api_base, bucket),
            seq![storage_url::pair("maxResults"@, "1000"@)] + match page_token {
                Some(token) => seq![storage_url::pair("pageToken"@, token)],
                None => Seq::empty(),
            },
        ),
        ReplyKind::Listing,
    )
}

fn page_request(api_base: &str, bucket: &str, page_token: Option<&str>) -> (request: StorageRequest)
    ensures
        requests_page(
            request,
            api_base@,
            bucket@,
            match page_token {
                Some(token) => Some(token@),
                None => None,
            },
        ),
{
    let mut pairs: Vec<String> = vec![storage_url::query_pair("maxResults", "1000")];
    if let Some(token) = page_token {
        pairs.push(storage_url::query_pair("pageToken", token));
    }
    assert(text::views(pairs@) =~= seq![storage_url::pair("maxResults"@, "1000"@)]
        + match page_token {
        Some(token) => seq![storage_url::pair("pageToken"@, token@)],
        None => Seq::empty(),
    });
    StorageRequest {
        method: HttpMethod::Get,
        url: storage_url::with_query(storage_url::objects_url(api_base, bucket), &pairs),
        body: RequestBody::Empty,
        reply: ReplyKind::Listing,
    }
}

impl ListObjects {
    pub fn start(api_base: String, bucket: String) -> (started: (Self, StorageRequest))
        ensures
            started.0.api_base == api_base,
            started.0.bucket == bucket,
            started.0.objects@.len() == 0,
            requests_page(started.1, api_base@, bucket@, None),
    {
        let request = page_request(api_base.as_str(), bucket.as_str(), None);
        (ListObjects { api_base, bucket, objects: Vec::new() }, request)
    }

    /// What a listing does with a page: it adds the page's objects and asks for
    /// the next page, or ends with all objects where this was the last one.
    pub open spec fn continues(
        self,
        reply: Result<Listing, AppError>,
        step: Step<ListObjects, Vec<String>>,
    ) -> bool {
        match reply {
            Err(error) => step == Step::<ListObjects, Vec<String>>::Done(Err(error)),
            Ok(page) => {
                let found = text::views(self.objects@) + listed(
                    self.bucket@,
                    text::views(page.names@),
                );
                match page.next_page_token {
                    Some(token) => {
                        &&& step matches Step::Send(next, request)
                        &&& next.api_base == self.api_base
                        &&& next.bucket == self.bucket
                        &&& text::views(next.objects@) == found
                        &&& requests_page(request, self.api_base@, self.bucket@, Some(token@))
                    },
                    None => {
                        &&& step matches Step::Done(Ok(objects))
                        &&& text::views(objects@) == found
                    },
                }
            },
        }
    }

    /// Continues a listing with its next page.
    pub fn resume(self, reply: Result<Listing, AppError>) -> (step: Step<ListObjects, Vec<String>>)
        ensures
            self.continues(reply, step),
            ({
                &&& reply is Ok
                &&& step matches Step::Send(next, _)
            }) ==> text::views(self.objects@).is_prefix_of(
                text::views((step->Send_0).objects@),
            ),
    {
        match reply {
            Err(error) => Step::Done(Err(error)),
            Ok(page) => {
                let mut objects = self.objects;
                let mut i: usize = 0;
                while i < page.names.len()
                    invariant
                        i <= page.names@.len(),
                        text::views(objects@) == text::views(self.objects@) + listed(
                            self.bucket@,
                            text::views(page.names@).take(i as int),
                        ),
                    decreases page.names@.len() - i,
                {
                    let ghost names = text::views(page.names@);
                    let ghost found = text::views(objects@);
                    assert(names.take(i + 1).drop_last() == names.take(i as int));
                    if !text::same_text(page.names[i].as_str(), BUCKET_LOCK_OBJECT) {
                        objects.push(
                            "gs://".to_string().concat(self.bucket.as_str()).concat("/").concat(
                                page.names[i].as_str(),
                            ),
                        );
                        assert(text::views(objects@) =~= found.push(
                            ObjectPathView { bucket: self.bucket@, object: names[i as int] }.uri(),
                        ));
                    }
                    i += 1;
                }
                assert(text::views(page.names@).take(page.names@.len() as int) == text::views(
                    page.names@,
                ));
                match page.next_page_token {
                    Some(token) => {
                        let request = page_request(
                            self.api_base.as_str(),
                            self.bucket.as_str(),
                            Some(token.as_str()),
                        );
                        Step::Send(
                            ListObjects { api_base: self.api_base, bucket: self.bucket, objects },
                            request,
                        )
                    },
                    None => Step::Done(Ok(objects)),
                }
            },
        }
    }
}

/// The request that uploads the opened source to a name that must not exist yet.
pub fn upload_request(upload_base: &str, target: &ObjectPath) -> (request: StorageRequest)
    ensures
        request.method == HttpMethod::Post,
        request.url@ == storage_url::creation(upload_base@, target@),
        request.body is UploadSource,
        request.reply == ReplyKind::Upload,
        exists|plain: Seq<char>|
            {
                &&& #[trigger] url_laws::says_bucket(plain, upload_base@, target.bucket@)
                &&& url_laws::with_pairs(
                    request.url@,
                    plain,
                    seq![
                        ("uploadType"@, "media"@),
                        ("name"@, target.object@),
                        ("ifGenerationMatch"@, "0"@),
                    ],
                )
            },
{
    proof {
        url_laws::a_creation_url_reads_as_a_guarded_upload(upload_base@, target@);
    }
    StorageRequest {
        method: HttpMethod::Post,
        url: storage_url::creation_url(upload_base, target),
        body: RequestBody::UploadSource,
        reply: ReplyKind::Upload,
    }
}

/// The generation at which the upload was stored.
pub fn uploaded_generation(reply: Result<Payload, AppError>) -> (generation: Result<
    String,
    AppError,
>)
    requires
        storage_request::answers(reply, ReplyKind::Upload),
    ensures
        match storage_request::metadata_in(reply) {
            Ok(metadata) => generation == Ok::<String, AppError>(metadata.generation),
            Err(error) => generation == Err::<String, AppError>(error),
        },
        match reply {
            Ok(Payload::Metadata(metadata)) => generation == Ok::<String, AppError>(
                metadata.generation,
            ),
            Ok(_) => false,
            Err(error) => generation == Err::<String, AppError>(error),
        },
{
    match storage_request::into_metadata(reply) {
        Ok(metadata) => Ok(metadata.generation),
        Err(error) => Err(error),
    }
}

/// The confirmation of a failed move, waiting for the reply to its latest
/// request.
#[derive(Debug)]
pub struct ConfirmMove {
    pub api_base: String,
    pub source: ObjectPath,
    pub target: ObjectPath,
    /// The message of the failure.
    pub operation: String,
    /// Whether the failing request may have been sent.
    pub request_may_be_sent: bool,
    /// What the source's lookup showed, once it was answered.
    pub source_details: Option<Result<(ObjectState, Option<String>), AppError>>,
}

impl ConfirmMove {
    /// Begins to confirm a failed move. A failure that never reached Cloud
    /// Storage is confirmed at once: neither object can have moved.
    pub fn start(api_base: String, source: ObjectPath, target: ObjectPath, operation: &AppError) -> (step:
        Step<ConfirmMove, ()>)
        ensures
            if operation.has_reached_storage() {
                &&& step matches Step::Send(confirm, request)
                &&& confirm.api_base == api_base
                &&& confirm.source == source
                &&& confirm.target == target
                &&& confirm.operation@ == operation.text()
                &&& confirm.request_may_be_sent == operation.request_may_be_sent()
                &&& confirm.source_details is None
                &&& request.looks_up(api_base@, source@)
            } else {
                step == Step::<ConfirmMove, ()>::Done(Ok(()))
            },
    {
        if !operation.reached_storage() {
            return Step::Done(Ok(()));
        }
        let request = StorageRequest::look_up(api_base.as_str(), &source);
        Step::Send(
            ConfirmMove {
                api_base,
                source,
                target,
                operation: operation.to_string(),
                request_may_be_sent: operation.may_have_sent_storage_request(),
                source_details: None,
            },
            request,
        )
    }

    /// What the confirmation does on a reply: after the source it looks up the
    /// target, and then accepts the failure only if nothing was sent and the
    /// objects are as they were before the move.
    pub open spec fn continues(
        self,
        reply: Result<Payload, AppError>,
        step: Step<ConfirmMove, ()>,
    ) -> bool {
        let details = object_state::details_in(storage_request::metadata_in(reply));
        match self.source_details {
            None => {
                &&& step matches Step::Send(next, request)
                &&& next == (ConfirmMove { source_details: Some(details), ..self })
                &&& request.looks_up(self.api_base@, self.target@)
            },
            Some(source_details) => if !self.request_may_be_sent
                && found(source_details, ObjectState::Present) && found(
                details,
                ObjectState::Missing,
            ) {
                step == Step::<ConfirmMove, ()>::Done(Ok(()))
            } else {
                &&& step matches Step::Done(
                    Err(AppError::Recovery { paths, operation, details: words }),
                )
                &&& paths@ == text::quoted(self.source@.uri()) + " and "@ + text::quoted(
                    self.target@.uri(),
                )
                &&& operation@ == self.operation@
                &&& words@ == object_state::details_text(self.source@, source_details) + "; "@
                    + object_state::details_text(self.target@, details)
            },
        }
    }

    /// Continues the confirmation with the reply to its latest request.
    pub fn resume(self, reply: Result<Payload, AppError>) -> (step: Step<ConfirmMove, ()>)
        requires
            storage_request::answers(reply, ReplyKind::Metadata),
        ensures
            self.continues(reply, step),
    {
        let details = object_state::object_details(storage_request::into_metadata(reply));
        match self.source_details {
            None => {
                let request = StorageRequest::look_up(self.api_base.as_str(), &self.target);
                Step::Send(ConfirmMove { source_details: Some(details), ..self }, request)
            },
            Some(source_details) => {
                if !self.request_may_be_sent && was_found(&source_details, ObjectState::Present)
                    && was_found(&details, ObjectState::Missing) {
                    return Step::Done(Ok(()));
                }
                Step::Done(
                    Err(
                        AppError::Recovery {
                            paths: text::quote(self.source.uri().as_str()).concat(" and ").concat(
                                text::quote(self.target.uri().as_str()).as_str(),
                            ),
                            operation: self.operation.clone(),
                            details: object_state::state_details(
                                &self.source,
                                &source_details,
                            ).concat("; ").concat(
                                object_state::state_details(&self.target, &details).as_str(),
                            ),
                        },
                    ),
                )
            },
        }
    }
}

/// Whether a lookup showed the state.
pub open spec fn found(
    details: Result<(ObjectState, Option<String>), AppError>,
    state: ObjectState,
) -> bool {
    details matches Ok((shown, _)) && shown == state
}

fn was_found(
    details: &Result<(ObjectState, Option<String>), AppError>,
    state: ObjectState,
) -> (was: bool)
    ensures
        was == found(*details, state),
{
    match details {
        Ok((shown, _)) => *shown == state,
        Err(_) => false,
    }
}

/// The confirmation of a failed write, waiting for the reply to its request.
#[derive(Debug)]
pub struct ConfirmWrite {
    pub target: ObjectPath,
    /// The message of the failure.
    pub operation: String,
    /// Whether the failing request may have been sent.
    pub request_may_be_sent: bool,
}

impl ConfirmWrite {
    /// Begins to confirm a failed write. Where nothing was sent the target
    /// cannot exist, and asking would only turn a local failure into a spurious
    /// manual recovery.
    pub fn start(api_base: &str, target: ObjectPath, operation: &AppError) -> (step: Step<
        ConfirmWrite,
        (),
    >)
        ensures
            if operation.has_reached_storage() {
                &&& step matches Step::Send(confirm, request)
                &&& confirm.target == target
                &&& confirm.operation@ == operation.text()
                &&& confirm.request_may_be_sent == operation.request_may_be_sent()
                &&& request.looks_up(api_base@, target@)
            } else {
                step == Step::<ConfirmWrite, ()>::Done(Ok(()))
            },
    {
        if !operation.reached_storage() {
            return Step::Done(Ok(()));
        }
        let request = StorageRequest::look_up(api_base, &target);
        Step::Send(
            ConfirmWrite {
                target,
                operation: operation.to_string(),
                request_may_be_sent: operation.may_have_sent_storage_request(),
            },
            request,
        )
    }

    /// Accepts the failure only if nothing was sent and the target is missing.
    pub fn finish(self, reply: Result<Payload, AppError>) -> (confirmed: Result<(), AppError>)
        requires
            storage_request::answers(reply, ReplyKind::Metadata),
        ensures
            ({
                let details = object_state::details_in(storage_request::metadata_in(reply));
                match confirmed {
                    Ok(()) => !self.request_may_be_sent && found(details, ObjectState::Missing),
                    Err(error) => {
                        &&& self.request_may_be_sent || !found(details, ObjectState::Missing)
                        &&& error matches AppError::Recovery { paths, operation, details: words }
                        &&& paths@ == text::quoted(self.target@.uri())
                        &&& operation@ == self.operation@
                        &&& words@ == object_state::details_text(self.target@, details)
                    },
                }
            }),
            confirmed is Ok <==> !self.request_may_be_sent && request_laws::says_missing(reply),
    {
        let details = object_state::object_details(storage_request::into_metadata(reply));
        if !self.request_may_be_sent && was_found(&details, ObjectState::Missing) {
            return Ok(());
        }
        Err(
            AppError::Recovery {
                paths: text::quote(self.target.uri().as_str()),
                operation: self.operation.clone(),
                details: object_state::state_details(&self.target, &details),
            },
        )
    }
}

/// A listing never shows the bucket lock.
pub proof fn listings_hide_the_bucket_lock(bucket: Seq<char>, names: Seq<Seq<char>>)
    ensures
        !listed(bucket, names).contains(
            ObjectPathView { bucket, object: BUCKET_LOCK_OBJECT@ }.uri(),
        ),
    decreases names.len(),
{
    let lock = ObjectPathView { bucket, object: BUCKET_LOCK_OBJECT@ };
    if names.len() > 0 {
        listings_hide_the_bucket_lock(bucket, names.drop_last());
        let shorter = listed(bucket, names.drop_last());
        if names.last() != BUCKET_LOCK_OBJECT@ {
            let last = ObjectPathView { bucket, object: names.last() };
            if last.uri() == lock.uri() {
                reveal_strlit("gs://");
                reveal_strlit("/");
                let start = 5 + bucket.len() as int + 1;
                assert(last.uri().skip(start) == names.last());
                assert(lock.uri().skip(start) == BUCKET_LOCK_OBJECT@);
            }
            assert forall|i: int| 0 <= i < listed(bucket, names).len() implies listed(bucket, names)[i]
                != lock.uri() by {
                if i < shorter.len() {
                    assert(listed(bucket, names)[i] == shorter[i]);
                    assert(shorter.contains(shorter[i]));
                }
            }
        }
    }
}

} // verus!
