//! What the requests ask Cloud Storage for, and what is made of its answers.
use vstd::prelude::*;

use crate::copy_object;
use crate::copy_object::CopyObject;
use crate::error::AppError;
use crate::object_path::ObjectPathView;
use crate::object_state;
use crate::object_state::ObjectState;
use crate::storage_operations::CleanupObject;
use crate::storage_operations::CleanupStage;
use crate::storage_operations::ConfirmMove;
use crate::storage_request;
use crate::storage_request::HttpMethod;
use crate::storage_request::ObjectMetadata;
use crate::storage_request::Payload;
use crate::storage_request::ReplyKind;
use crate::storage_request::Rewrite;
use crate::storage_request::Step;
use crate::storage_request::StorageRequest;
use crate::storage_url;
use crate::text;
use crate::url_laws;

verus! {

/// The request reads the metadata of the object, at whatever generation it is.
pub open spec fn reads(request: StorageRequest, base: Seq<char>, object: ObjectPathView) -> bool {
    &&& request.method == HttpMethod::Get
    &&& request.body is Empty
    &&& request.reply == ReplyKind::Metadata
    &&& url_laws::says_object(request.url@, base, object.bucket, object.object)
}

/// The URL is that of the object at the generation.
pub open spec fn names_generation(
    url: Seq<char>,
    base: Seq<char>,
    object: ObjectPathView,
    generation: Seq<char>,
) -> bool {
    exists|plain: Seq<char>|
        {
            &&& #[trigger] url_laws::says_object(plain, base, object.bucket, object.object)
            &&& url_laws::with_pairs(url, plain, seq![("generation"@, generation)])
        }
}

/// The request reads the metadata of the object at the generation.
pub open spec fn reads_generation(
    request: StorageRequest,
    base: Seq<char>,
    object: ObjectPathView,
    generation: Seq<char>,
) -> bool {
    &&& request.method == HttpMethod::Get
    &&& request.body is Empty
    &&& request.reply == ReplyKind::Metadata
    &&& names_generation(request.url@, base, object, generation)
}

/// The request removes the object at the generation.
pub open spec fn removes(
    request: StorageRequest,
    base: Seq<char>,
    object: ObjectPathView,
    generation: Seq<char>,
) -> bool {
    &&& request.method == HttpMethod::Delete
    &&& request.body is Empty
    &&& request.reply == ReplyKind::Body
    &&& names_generation(request.url@, base, object, generation)
}

/// A lookup reads the object, or the object at the generation, and a deletion removes
/// the object at the generation.
pub proof fn plain_requests_name_their_object(
    request: StorageRequest,
    base: Seq<char>,
    object: ObjectPathView,
    generation: Seq<char>,
)
    ensures
        request.looks_up(base, object) ==> reads(request, base, object),
        request.looks_up_generation(base, object, generation) ==> reads_generation(
            request,
            base,
            object,
            generation,
        ),
        request.deletes(base, object, generation) ==> removes(request, base, object, generation),
{
    url_laws::an_object_url_reads_as_the_object(base, object);
    url_laws::a_generation_url_reads_as_the_generation(base, object, generation);
}

/// The answer says that the object is not there: Cloud Storage refused the request
/// with status 404.
pub open spec fn says_missing<T>(answer: Result<T, AppError>) -> bool {
    answer matches Err(AppError::Storage { status, .. }) && status == 404
}

/// An object is there where its metadata are, it is missing where Cloud Storage says so
/// with status 404, and anything else leaves open whether it is there.
pub proof fn an_object_is_missing_only_by_status(lookup: Result<ObjectMetadata, AppError>)
    ensures
        lookup is Ok <==> object_state::state_in(lookup) == Ok::<ObjectState, AppError>(
            ObjectState::Present,
        ),
        says_missing(lookup) <==> object_state::state_in(lookup) == Ok::<ObjectState, AppError>(
            ObjectState::Missing,
        ),
        lookup is Err && !says_missing(lookup) ==> object_state::state_in(lookup) == Err::<
            ObjectState,
            AppError,
        >(lookup->Err_0),
        match lookup {
            Ok(metadata) => object_state::details_in(lookup) == Ok::<
                (ObjectState, Option<String>),
                AppError,
            >((ObjectState::Present, Some(metadata.generation))),
            Err(error) => object_state::details_in(lookup) == if says_missing(lookup) {
                Ok::<(ObjectState, Option<String>), AppError>((ObjectState::Missing, None))
            } else {
                Err(error)
            },
        },
{
}

/// What is said of an object after a lookup.
pub proof fn a_lookup_is_told_in_words(
    object: ObjectPathView,
    lookup: Result<ObjectMetadata, AppError>,
)
    ensures
        ({
            let words = object_state::details_text(object, object_state::details_in(lookup));
            let uri = "gs://"@ + object.bucket + "/"@ + object.object;
            match lookup {
                Ok(metadata) => words == uri + ": generation "@ + metadata.generation@,
                Err(error) => if says_missing(lookup) {
                    words == uri + " is missing"@
                } else {
                    words == uri + ": state unknown ("@ + error.text() + ")"@
                },
            }
        }),
{
}

/// A cleanup first asks whether the object is there at the generation. It removes that
/// generation and no other where it is, asks afterwards whether anything has the name,
/// and succeeds where nothing has. Whatever fails ends it.
pub proof fn a_cleanup_removes_its_generation_alone(
    cleanup: CleanupObject,
    reply: Result<Payload, AppError>,
    step: Step<CleanupObject, ()>,
)
    requires
        storage_request::answers(reply, cleanup.expects()),
        cleanup.continues(reply, step),
    ensures
        match cleanup.stage {
            CleanupStage::CheckingOwned => if reply is Ok {
                &&& step matches Step::Send(next, request)
                &&& next == (CleanupObject { stage: CleanupStage::Deleting, ..cleanup })
                &&& removes(
                    request,
                    cleanup.api_base@,
                    cleanup.target@,
                    cleanup.target_generation@,
                )
            } else if says_missing(reply) {
                &&& step matches Step::Send(next, request)
                &&& next == (CleanupObject { stage: CleanupStage::CheckingRemoved, ..cleanup })
                &&& reads(request, cleanup.api_base@, cleanup.target@)
            } else {
                step == Step::<CleanupObject, ()>::Done(Err(reply->Err_0))
            },
            CleanupStage::Deleting => if reply is Ok {
                &&& step matches Step::Send(next, request)
                &&& next == (CleanupObject { stage: CleanupStage::CheckingRemoved, ..cleanup })
                &&& reads(request, cleanup.api_base@, cleanup.target@)
            } else {
                step == Step::<CleanupObject, ()>::Done(
                    Err(
                        match reply->Err_0 {
                            AppError::Token(cause, _) => AppError::Token(cause, true),
                            error => error,
                        },
                    ),
                )
            },
            CleanupStage::CheckingRemoved => {
                &&& says_missing(reply) <==> step == Step::<CleanupObject, ()>::Done(Ok(()))
                &&& reply is Ok ==> {
                    &&& step matches Step::Done(Err(AppError::Message(message)))
                    &&& message@ == "Cleanup target remains: "@ + ("gs://"@
                        + cleanup.target.bucket@ + "/"@ + cleanup.target.object@)
                }
                &&& reply is Err && !says_missing(reply) ==> step == Step::<CleanupObject, ()>::Done(
                    Err(
                        match reply->Err_0 {
                            AppError::Token(cause, _) => AppError::Token(cause, true),
                            error => error,
                        },
                    ),
                )
            },
        },
{
    let base = cleanup.api_base@;
    if let Step::Send(_, request) = step {
        plain_requests_name_their_object(request, base, cleanup.target@, cleanup.target_generation@);
    }
}

/// A failed move is confirmed to have changed nothing only where its request cannot have
/// been sent, the source is there and the target is missing. Both are looked up, the
/// source first.
pub proof fn a_failed_move_is_confirmed_by_both_objects(
    confirm: ConfirmMove,
    reply: Result<Payload, AppError>,
    looked: Step<ConfirmMove, ()>,
    other: Result<Payload, AppError>,
    step: Step<ConfirmMove, ()>,
)
    requires
        confirm.source_details is None,
        storage_request::answers(reply, ReplyKind::Metadata),
        storage_request::answers(other, ReplyKind::Metadata),
        confirm.continues(reply, looked),
        looked matches Step::Send(next, _) ==> next.continues(other, step),
    ensures
        looked matches Step::Send(_, request) && reads(
            request,
            confirm.api_base@,
            confirm.target@,
        ),
        step == Step::<ConfirmMove, ()>::Done(Ok(())) <==> !confirm.request_may_be_sent
            && reply is Ok && says_missing(other),
        step != Step::<ConfirmMove, ()>::Done(Ok(())) ==> {
            &&& step matches Step::Done(Err(AppError::Recovery { paths, operation, details }))
            &&& operation@ == confirm.operation@
            &&& paths@ == text::quoted(
                "gs://"@ + confirm.source.bucket@ + "/"@ + confirm.source.object@,
            ) + " and "@ + text::quoted(
                "gs://"@ + confirm.target.bucket@ + "/"@ + confirm.target.object@,
            )
        },
{
    let next = looked->Send_0;
    plain_requests_name_their_object(
        looked->Send_1,
        confirm.api_base@,
        confirm.target@,
        confirm.operation@,
    );
    assert(next.source_details is Some);
}

/// The request copies the source under the name of the target, on the conditions that
/// the pairs name.
pub open spec fn copies(
    request: StorageRequest,
    base: Seq<char>,
    source: ObjectPathView,
    target: ObjectPathView,
    pairs: Seq<(Seq<char>, Seq<char>)>,
) -> bool {
    &&& request.method == HttpMethod::Post
    &&& request.body is Empty
    &&& request.reply == ReplyKind::Rewrite
    &&& exists|plain: Seq<char>|
        {
            &&& #[trigger] url_laws::says_rewrite(
                plain,
                base,
                (source.bucket, source.object),
                (target.bucket, target.object),
            )
            &&& if pairs.len() == 0 {
                request.url@ == plain
            } else {
                url_laws::with_pairs(request.url@, plain, pairs)
            }
        }
}

/// The conditions of a copy, and the token with which it goes on.
pub open spec fn copy_pairs(copy: CopyObject, token: Option<Seq<char>>) -> Seq<
    (Seq<char>, Seq<char>),
> {
    (match copy.source_generation {
        Some(generation) => seq![
            ("sourceGeneration"@, generation@),
            ("ifSourceGenerationMatch"@, generation@),
        ],
        None => Seq::empty(),
    }) + (match copy.destination_generation {
        Some(generation) => seq![("ifGenerationMatch"@, generation@)],
        None => Seq::empty(),
    }) + (match token {
        Some(token) => seq![("rewriteToken"@, token)],
        None => Seq::empty(),
    })
}

/// Every request of a copy names its source and its target and carries its conditions.
pub proof fn every_copy_request_carries_its_conditions(
    copy: CopyObject,
    request: StorageRequest,
    token: Option<Seq<char>>,
)
    requires
        copy.requests(request, token),
    ensures
        copies(request, copy.api_base@, copy.source@, copy.target@, copy_pairs(copy, token)),
{
    let base = copy.api_base@;
    let plain = storage_url::rewrite(base, copy.source@, copy.target@);
    let pairs = copy_pairs(copy, token);
    url_laws::a_rewrite_url_reads_as_a_copy(base, copy.source@, copy.target@);
    let encoded = copy_object::rewrite_pairs(
        copy_object::optional(copy.source_generation),
        copy_object::optional(copy.destination_generation),
        token,
    );
    let written = pairs.map_values(
        |pair: (Seq<char>, Seq<char>)| storage_url::pair(pair.0, pair.1),
    );
    assert(written =~= encoded);
    if pairs.len() > 0 {
        url_laws::a_query_reads_as_its_pairs(plain, pairs);
    }
}

/// The answers of a copy up to one that ends it, and what follows from each.
pub open spec fn is_copy_run(
    start: CopyObject,
    steps: Seq<Step<CopyObject, String>>,
    replies: Seq<Result<Rewrite, AppError>>,
) -> bool {
    &&& steps.len() == replies.len() + 1
    &&& steps[0] matches Step::Send(copy, _) && copy == start
    &&& forall|i: int|
        0 <= i < replies.len() ==> (#[trigger] steps[i] matches Step::Send(copy, _)
            && copy.continues(replies[i], steps[i + 1]))
}

/// However many answers a copy takes, each request after the first goes on with the token
/// of the answer before it, under the conditions of the first. The copy ends with the
/// generation of the finished object where an answer says that it is finished, and with
/// nothing else but a failure.
pub proof fn a_copy_goes_on_until_it_is_finished(
    start: CopyObject,
    steps: Seq<Step<CopyObject, String>>,
    replies: Seq<Result<Rewrite, AppError>>,
    at: int,
)
    requires
        is_copy_run(start, steps, replies),
        0 <= at < replies.len(),
    ensures
        match replies[at] {
            Err(error) => {
                &&& steps[at + 1] matches Step::Done(Err(told))
                &&& told == error || (error is Token && told is Token)
                &&& at > 0 || start.request_sent ==> told == match error {
                    AppError::Token(cause, _) => AppError::Token(cause, true),
                    _ => error,
                }
                &&& at == 0 && !start.request_sent ==> told == error
            },
            Ok(rewrite) => if rewrite.done {
                match rewrite.generation {
                    Some(generation) => steps[at + 1] == Step::<CopyObject, String>::Done(
                        Ok(generation),
                    ),
                    None => steps[at + 1] matches Step::Done(Err(AppError::StorageResponse(_))),
                }
            } else {
                match rewrite.rewrite_token {
                    Some(token) => {
                        &&& steps[at + 1] matches Step::Send(_, request)
                        &&& copies(
                            request,
                            start.api_base@,
                            start.source@,
                            start.target@,
                            copy_pairs(start, Some(token@)),
                        )
                    },
                    None => steps[at + 1] matches Step::Done(Err(AppError::StorageResponse(_))),
                }
            },
        },
{
    a_copy_stays_the_same(start, steps, replies, at);
    assert(steps[at] is Send);
    let copy = steps[at]->Send_0;
    if let Step::Send(next, request) = steps[at + 1] {
        every_copy_request_carries_its_conditions(
            next,
            request,
            Some(replies[at]->Ok_0.rewrite_token->0@),
        );
        assert(copy_pairs(next, Some(replies[at]->Ok_0.rewrite_token->0@)) =~= copy_pairs(
            start,
            Some(replies[at]->Ok_0.rewrite_token->0@),
        ));
    }
}

proof fn a_copy_stays_the_same(
    start: CopyObject,
    steps: Seq<Step<CopyObject, String>>,
    replies: Seq<Result<Rewrite, AppError>>,
    at: int,
)
    requires
        is_copy_run(start, steps, replies),
        0 <= at < steps.len(),
        steps[at] is Send,
    ensures
        steps[at]->Send_0 == (CopyObject {
            request_sent: start.request_sent || at > 0,
            ..start
        }),
    decreases at,
{
    if at > 0 {
        assert(steps[at - 1] is Send);
        a_copy_stays_the_same(start, steps, replies, at - 1);
    }
}

/// The object is at the generation where its metadata say so, and only there.
pub proof fn only_the_metadata_show_a_generation(
    lookup: Result<ObjectMetadata, AppError>,
    generation: Seq<char>,
)
    ensures
        object_state::shows_generation(lookup, generation) <==> (lookup matches Ok(metadata)
            && metadata.generation@ == generation),
{
}

/// What an object that is not at its generation is reported with.
pub proof fn a_wrong_generation_names_the_right_one(
    error: AppError,
    object: ObjectPathView,
    generation: Seq<char>,
    operation: Seq<char>,
    lookup: Result<ObjectMetadata, AppError>,
)
    requires
        object_state::not_at_generation(error, object, generation, operation, lookup),
    ensures
        ({
            let uri = "gs://"@ + object.bucket + "/"@ + object.object;
            &&& error matches AppError::Recovery { paths, operation: told, details }
            &&& paths@ == text::quoted(uri)
            &&& told@ == operation
            &&& match lookup {
                Ok(metadata) => details@ == "Expected generation "@ + generation + "; "@ + (uri
                    + ": generation "@ + metadata.generation@),
                Err(_) => says_missing(lookup) ==> details@ == "Expected generation "@ + generation
                    + "; "@ + (uri + " is missing"@),
            }
        }),
{
}

} // verus!
