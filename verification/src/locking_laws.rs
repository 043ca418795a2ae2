//! What the locks of buckets ask for, and how a session of locks ends.
use vstd::prelude::*;

use crate::bucket_lock::AfterRelease;
use crate::bucket_lock::AwaitingClear;
use crate::bucket_lock::AwaitingReply;
use crate::bucket_lock::ClearStage;
use crate::bucket_lock::LockSession;
use crate::bucket_lock::LockStep;
use crate::bucket_lock::ReplyStage;
use crate::error;
use crate::error::AppError;
use crate::held_buckets;
use crate::naming_laws;
use crate::object_path::ObjectPathView;
use crate::request_laws;
use crate::storage_request;
use crate::storage_request::HttpMethod;
use crate::storage_request::Payload;
use crate::storage_request::ReplyKind;
use crate::storage_request::RequestBody;
use crate::storage_request::StorageRequest;
use crate::storage_url;
use crate::text;
use crate::unique_name;
use crate::url_laws;

verus! {

/// The object that locks a bucket.
pub open spec fn lock_object(bucket: Seq<char>) -> ObjectPathView {
    ObjectPathView { bucket, object: ".task-googlecloud-lock"@ }
}

/// The request creates the lock of a bucket with the content, where there is none.
pub open spec fn creates_lock(
    request: StorageRequest,
    upload_base: Seq<char>,
    bucket: Seq<char>,
    content: Seq<char>,
) -> bool {
    &&& request.method == HttpMethod::Post
    &&& request.reply == ReplyKind::BucketLock
    &&& request.body matches RequestBody::Bytes(bytes) && bytes@ == vstd::utf8::encode_utf8(content)
    &&& exists|plain: Seq<char>|
        {
            &&& #[trigger] url_laws::says_bucket(plain, upload_base, bucket)
            &&& url_laws::with_pairs(
                request.url@,
                plain,
                seq![
                    ("uploadType"@, "media"@),
                    ("name"@, ".task-googlecloud-lock"@),
                    ("ifGenerationMatch"@, "0"@),
                ],
            )
        }
}

/// The request reads the content of the lock of a bucket.
pub open spec fn reads_lock(
    request: StorageRequest,
    base: Seq<char>,
    bucket: Seq<char>,
) -> bool {
    &&& request.method == HttpMethod::Get
    &&& request.body is Empty
    &&& request.reply == ReplyKind::Body
    &&& exists|plain: Seq<char>|
        {
            &&& #[trigger] url_laws::says_object(
                plain,
                base,
                bucket,
                ".task-googlecloud-lock"@,
            )
            &&& url_laws::with_pairs(request.url@, plain, seq![("alt"@, "media"@)])
        }
}

/// Acquiring goes on with the lock of the first bucket that is not locked, and with the
/// registration once all are. A lock holds a mark of its own and is only created where
/// there is none.
pub proof fn the_next_lock_is_created_where_there_is_none(session: LockSession, step: LockStep)
    requires
        session.acquires(step),
    ensures
        session.locks@.len() >= session.buckets@.len() <==> step is Register,
        session.locks@.len() < session.buckets@.len() ==> {
            &&& step matches LockStep::Send(awaiting, request)
            &&& awaiting.session == session
            &&& awaiting.stage matches ReplyStage::Creating { token }
            &&& naming_laws::is_mark(token@)
            &&& creates_lock(
                request,
                session.upload_base@,
                session.buckets@[session.locks@.len() as int]@,
                token@,
            )
        },
{
    if session.locks@.len() < session.buckets@.len() {
        let token = (step->Send_0).stage->Creating_token@;
        assert forall|i: int| 0 <= i < token.len() implies '0' <= (#[trigger] token[i]) <= '9' || 'a'
            <= token[i] <= 'f' by {
            assert(unique_name::lower_hex(token[i]));
        }
        url_laws::a_creation_url_reads_as_a_guarded_upload(
            session.upload_base@,
            session.next_lock(),
        );
    }
}

/// The session gives up with a failure.
pub open spec fn gives_up(session: LockSession, error: AppError, step: LockStep) -> bool {
    step == LockStep::ClearInterrupt(
        AwaitingClear { session, stage: ClearStage::Failed { error } },
    )
}

/// The session gives up with a failure and with another one that came on top.
pub open spec fn gives_up_twice(
    session: LockSession,
    error: AppError,
    recovery: AppError,
    step: LockStep,
) -> bool {
    &&& step matches LockStep::ClearInterrupt(awaiting)
    &&& awaiting.session == session
    &&& awaiting.stage matches ClearStage::Failed { error: combined }
    &&& combined matches AppError::Rollback { original, details }
    &&& *original == error
    &&& details@ == recovery.text()
}

/// What becomes of the answer to a request of a session. A lock that was created is
/// added. Status 412 means that another holds it. After any other failure whose request
/// may have arrived, the lock is read, and removed where it holds the mark of this
/// session and only there. A release goes on whatever the answer is.
pub proof fn a_lock_goes_by_its_answer(
    awaiting: AwaitingReply,
    answer: Result<Payload, AppError>,
    step: LockStep,
)
    requires
        awaiting.wf(),
        storage_request::answers(answer, awaiting.expects()),
        awaiting.continues(answer, step),
    ensures
        ({
            let session = awaiting.session;
            let bucket = session.buckets@[session.locks@.len() as int]@;
            match awaiting.stage {
                ReplyStage::Creating { token } => match answer {
                    Ok(payload) => exists|next: LockSession|
                        {
                            &&& #[trigger] next.acquires(step)
                            &&& next.buckets == session.buckets
                            &&& next.locks@.len() == session.locks@.len() + 1
                            &&& next.locks@.drop_last() == session.locks@
                            &&& next.locks@.last().object@ == lock_object(bucket)
                            &&& next.locks@.last().generation
                                == payload->Metadata_0.generation
                        },
                    Err(error) => if error matches AppError::Storage { status, .. } && status
                        == 412 {
                        gives_up(session, AppError::BucketLockConflict(Box::new(error)), step)
                    } else if error is UploadSource || error is Command || error is Interrupted || (
                    error matches AppError::Token(_, reached) && !reached) {
                        gives_up(session, error, step)
                    } else {
                        step == LockStep::ClearInterrupt(
                            AwaitingClear {
                                session,
                                stage: ClearStage::Unacknowledged { token, error },
                            },
                        )
                    },
                },
                ReplyStage::ReadingMarker { token, error } => match answer {
                    Ok(payload) => if payload->Body_0@ == vstd::utf8::encode_utf8(token@) {
                        &&& step matches LockStep::Send(next, request)
                        &&& next.session == session
                        &&& next.stage == (ReplyStage::LookingUpMarker { error })
                        &&& request_laws::reads(
                            request,
                            session.api_base@,
                            lock_object(bucket),
                        )
                    } else {
                        gives_up(session, error, step)
                    },
                    Err(recovery) => gives_up_twice(session, error, recovery, step),
                },
                ReplyStage::LookingUpMarker { error } => match answer {
                    Ok(payload) => {
                        &&& step matches LockStep::Send(next, request)
                        &&& next.session == session
                        &&& next.stage == (ReplyStage::DeletingMarker { error })
                        &&& request_laws::removes(
                            request,
                            session.api_base@,
                            lock_object(bucket),
                            payload->Metadata_0.generation@,
                        )
                    },
                    Err(recovery) => gives_up_twice(session, error, recovery, step),
                },
                ReplyStage::DeletingMarker { error } => match answer {
                    Ok(_) => gives_up(session, error, step),
                    Err(recovery) => gives_up_twice(session, error, recovery, step),
                },
                ReplyStage::Releasing { remaining, errors, after } => {
                    let met = match answer {
                        Ok(_) => errors@,
                        Err(error) => errors@.push(error),
                    };
                    if remaining > 1 {
                        &&& step matches LockStep::ClearInterrupt(next)
                        &&& next.session == session
                        &&& next.stage matches ClearStage::Release {
                            remaining: left,
                            errors: kept,
                            after: end,
                        }
                        &&& left == remaining - 1
                        &&& kept@ == met
                        &&& end == after
                    } else {
                        step matches LockStep::Done(outcome) && session.concludes(
                            after,
                            met,
                            outcome,
                        )
                    }
                },
            }
        }),
{
    let session = awaiting.session;
    if let LockStep::Send(_, request) = step {
        request_laws::plain_requests_name_their_object(
            request,
            session.api_base@,
            session.next_lock(),
            match answer {
                Ok(Payload::Metadata(metadata)) => metadata.generation@,
                _ => Seq::empty(),
            },
        );
    }
    match (awaiting.stage, answer) {
        (ReplyStage::ReadingMarker { error, .. }, Err(recovery)) => {
            a_second_failure_is_added(session, error, recovery, step);
        },
        (ReplyStage::LookingUpMarker { error }, Err(recovery)) => {
            a_second_failure_is_added(session, error, recovery, step);
        },
        (ReplyStage::DeletingMarker { error }, Err(recovery)) => {
            a_second_failure_is_added(session, error, recovery, step);
        },
        _ => {},
    }
}

proof fn a_second_failure_is_added(
    session: LockSession,
    error: AppError,
    recovery: AppError,
    step: LockStep,
)
    requires
        session.fails_twice(error, recovery, step),
    ensures
        gives_up_twice(session, error, recovery, step),
{
    let combined = choose|combined: AppError| #[trigger]
        combined.rollback_of(error, seq![recovery]) && session.fails(combined, step);
    let written = error::texts(seq![recovery]);
    assert(written.len() == 1 && written[0] == recovery.text());
    assert(text::joined(written, "; "@) == recovery.text());
}

/// A session that has cleared its interrupts reads the lock whose creation was not
/// acknowledged, or releases its locks, the last one first, each at the generation at
/// which it was created.
pub proof fn a_cleared_session_goes_on(awaiting: AwaitingClear, interrupted: bool, step: LockStep)
    requires
        awaiting.wf(),
        awaiting.continues(interrupted, step),
    ensures
        ({
            let session = awaiting.session;
            match awaiting.stage {
                ClearStage::Unacknowledged { token, error } => {
                    &&& step matches LockStep::Send(next, request)
                    &&& next.session == session
                    &&& next.stage == (ReplyStage::ReadingMarker { token, error })
                    &&& reads_lock(
                        request,
                        session.api_base@,
                        session.buckets@[session.locks@.len() as int]@,
                    )
                },
                ClearStage::Release { remaining, errors, after } => {
                    let lock = session.locks@[remaining - 1];
                    &&& step matches LockStep::Send(next, request)
                    &&& next.session == session
                    &&& next.stage == (ReplyStage::Releasing { remaining, errors, after })
                    &&& request_laws::removes(
                        request,
                        session.api_base@,
                        lock_object(session.buckets@[remaining - 1]@),
                        lock.generation@,
                    )
                },
                _ => if session.locks@.len() == 0 {
                    step matches LockStep::Done(outcome) && session.concludes(
                        match awaiting.stage {
                            ClearStage::Finished { result, state } => AfterRelease::Finished {
                                result,
                                state,
                                interrupted,
                            },
                            _ => AfterRelease::Failed(awaiting.stage->Failed_error),
                        },
                        Seq::empty(),
                        outcome,
                    )
                } else {
                    &&& step matches LockStep::ClearInterrupt(next)
                    &&& next.session == session
                    &&& next.stage matches ClearStage::Release { remaining, errors, after }
                    &&& remaining == session.locks@.len()
                    &&& errors@.len() == 0
                    &&& match awaiting.stage {
                        ClearStage::Failed { error } => after == AfterRelease::Failed(error),
                        ClearStage::Finished { result, state } => after
                            == (AfterRelease::Finished { result, state, interrupted }),
                        _ => true,
                    }
                },
            }
        }),
{
    let session = awaiting.session;
    match awaiting.stage {
        ClearStage::Unacknowledged { .. } => {
            let plain = storage_url::resource(session.api_base@, session.next_lock());
            let pairs = seq![("alt"@, "media"@)];
            url_laws::an_object_url_reads_as_the_object(session.api_base@, session.next_lock());
            url_laws::a_query_reads_as_its_pairs(plain, pairs);
            assert(pairs.map_values(
                |pair: (Seq<char>, Seq<char>)| storage_url::pair(pair.0, pair.1),
            ) =~= seq![storage_url::pair("alt"@, "media"@)]);
        },
        ClearStage::Release { remaining, .. } => {
            let lock = session.locks@[remaining - 1];
            request_laws::plain_requests_name_their_object(
                step->Send_1,
                session.api_base@,
                lock.object@,
                lock.generation@,
            );
        },
        _ => {},
    }
}

/// A session succeeds only where its operation and its deregistration succeeded, every
/// lock was released and no interrupt was met. A failure keeps its place as the first
/// one, whatever failed in the release.
pub proof fn a_session_succeeds_only_as_a_whole(
    session: LockSession,
    after: AfterRelease,
    errors: Seq<AppError>,
    outcome: Result<(), AppError>,
)
    requires
        session.concludes(after, errors, outcome),
    ensures
        outcome is Ok <==> {
            &&& after matches AfterRelease::Finished { result, state, interrupted }
            &&& result is Ok
            &&& state is Ok
            &&& !interrupted
            &&& errors.len() == 0
        },
        errors.len() == 0 ==> match after {
            AfterRelease::Failed(error) => outcome == Err::<(), AppError>(error),
            AfterRelease::Finished { result, state, interrupted } => {
                &&& state matches Err(error) ==> outcome == Err::<(), AppError>(error)
                &&& state is Ok ==> (result matches Err(error) ==> outcome == Err::<(), AppError>(
                    error,
                ))
                &&& state is Ok && result is Ok && interrupted ==> outcome == Err::<(), AppError>(
                    AppError::Interrupted,
                )
            },
        },
        errors.len() > 0 ==> match after {
            AfterRelease::Failed(error) => outcome matches Err(AppError::Rollback { original, .. })
                && *original == error,
            AfterRelease::Finished { result, state, interrupted } => {
                &&& state matches Err(error) ==> (outcome matches Err(
                    AppError::Rollback { original, .. },
                ) && *original == error)
                &&& state is Ok ==> (result matches Err(error) ==> (outcome matches Err(
                    AppError::Rollback { original, .. },
                ) && *original == error))
                &&& state is Ok && result is Ok ==> outcome matches Err(AppError::Recovery { .. })
            },
        },
{
}

/// Taking buckets out of the held ones takes each out as often as it is named, and leaves
/// all the others.
pub proof fn deregistering_takes_out_what_is_named(
    names: Seq<Seq<char>>,
    buckets: Seq<Seq<char>>,
)
    ensures
        held_buckets::without_buckets(names, buckets).to_multiset() == names.to_multiset().sub(
            buckets.to_multiset(),
        ),
    decreases buckets.len(),
{
    broadcast use vstd::seq_lib::group_to_multiset_ensures;

    if buckets.len() == 0 {
        assert(buckets.to_multiset() =~= vstd::multiset::Multiset::empty());
        assert(names.to_multiset().sub(buckets.to_multiset()) =~= names.to_multiset());
    } else {
        let shorter = buckets.drop_last();
        deregistering_takes_out_what_is_named(names, shorter);
        let left = held_buckets::without_buckets(names, shorter);
        taking_one_out(left, buckets.last());
        assert(buckets =~= shorter.push(buckets.last()));
        assert(buckets.to_multiset() =~= shorter.to_multiset().insert(buckets.last()));
        assert(left.to_multiset().remove(buckets.last()) =~= names.to_multiset().sub(
            buckets.to_multiset(),
        ));
    }
}

proof fn taking_one_out(names: Seq<Seq<char>>, name: Seq<char>)
    ensures
        held_buckets::without_first(names, name).to_multiset() == names.to_multiset().remove(name),
    decreases names.len(),
{
    broadcast use vstd::seq_lib::group_to_multiset_ensures;

    if names.len() == 0 {
        assert(names.to_multiset() =~= vstd::multiset::Multiset::empty());
        assert(names.to_multiset().remove(name) =~= names.to_multiset());
    } else {
        let rest = names.skip(1);
        let first = seq![names[0]];
        assert(names =~= first + rest);
        vstd::seq_lib::lemma_multiset_commutative(first, rest);
        assert(first =~= Seq::<Seq<char>>::empty().push(names[0]));
        assert(first.to_multiset() =~= vstd::multiset::Multiset::singleton(names[0]));
        if names[0] == name {
            assert(rest.to_multiset() =~= names.to_multiset().remove(name));
        } else {
            taking_one_out(rest, name);
            let left = held_buckets::without_first(rest, name);
            vstd::seq_lib::lemma_multiset_commutative(first, left);
            assert((first + left).to_multiset() =~= names.to_multiset().remove(name));
        }
    }
}

} // verus!
