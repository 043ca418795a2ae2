//! Bucket locks.
//!
//! A lock is an object that is created only where it does not exist and deleted
//! only at the generation that was created. Every step here is decided from the
//! replies to earlier steps, so that whoever performs the steps decides nothing.
use vstd::prelude::*;

use crate::error;
use crate::error::AppError;
use crate::object_path::ObjectPath;
use crate::object_path::ObjectPathView;
use crate::storage_operations::BUCKET_LOCK_OBJECT;
use crate::storage_request;
use crate::storage_request::HttpMethod;
use crate::storage_request::Payload;
use crate::storage_request::ReplyKind;
use crate::storage_request::RequestBody;
use crate::storage_request::StorageRequest;
use crate::storage_url;
use crate::text;
use crate::unique_name;

verus! {

/// The status with which Cloud Storage refuses a request whose precondition
/// does not hold.
pub const PRECONDITION_FAILED: u16 = 412;

/// The lock object of a bucket.
pub open spec fn lock_of(bucket: Seq<char>) -> ObjectPathView {
    ObjectPathView { bucket, object: BUCKET_LOCK_OBJECT@ }
}

/// A lock that this run created.
#[derive(Debug)]
pub struct BucketLock {
    pub object: ObjectPath,
    pub generation: String,
}

/// The buckets that are to be locked together, and the locks created so far.
#[derive(Debug)]
pub struct LockSession {
    pub api_base: String,
    pub upload_base: String,
    pub buckets: Vec<String>,
    pub locks: Vec<BucketLock>,
}

/// A request was sent; its reply decides how to go on.
#[derive(Debug)]
pub struct AwaitingReply {
    pub session: LockSession,
    pub stage: ReplyStage,
}

#[derive(Debug)]
pub enum ReplyStage {
    /// The next lock is being created with this token as its contents.
    Creating { token: String },
    /// The creation failed, but may have created the lock: its contents tell
    /// whether it is this run's.
    ReadingMarker { token: String, error: AppError },
    /// The lock is this run's; its generation is being looked up.
    LookingUpMarker { error: AppError },
    DeletingMarker { error: AppError },
    /// The last of the remaining locks is being deleted.
    Releasing { remaining: usize, errors: Vec<AppError>, after: AfterRelease },
}

/// A pending interrupt is to be cleared; whether there was one decides how to
/// go on.
#[derive(Debug)]
pub struct AwaitingClear {
    pub session: LockSession,
    pub stage: ClearStage,
}

#[derive(Debug)]
pub enum ClearStage {
    /// A creation may have succeeded without being acknowledged.
    Unacknowledged { token: String, error: AppError },
    /// A lock could not be acquired or the locks not be registered.
    Failed { error: AppError },
    /// The operation ended with `result`, and deregistration with `state`.
    Finished { result: Result<(), AppError>, state: Result<(), AppError> },
    /// Lock release is rollback work, so a new signal must not abort it.
    Release { remaining: usize, errors: Vec<AppError>, after: AfterRelease },
}

/// What the release of the locks ends.
#[derive(Debug)]
pub enum AfterRelease {
    Failed(AppError),
    Finished { result: Result<(), AppError>, state: Result<(), AppError>, interrupted: bool },
}

/// The locks are held and the session's buckets are to be registered as such.
#[derive(Debug)]
pub struct AwaitingRegistration {
    pub session: LockSession,
}

/// The locks are held and registered: the operation is to be run.
#[derive(Debug)]
pub struct AwaitingOperation {
    pub session: LockSession,
}

/// The operation ended and the session's buckets are to be deregistered.
#[derive(Debug)]
pub struct AwaitingDeregistration {
    pub session: LockSession,
    pub result: Result<(), AppError>,
}

/// What is to be done next.
#[derive(Debug)]
pub enum LockStep {
    /// Every bucket is locked already: run the operation and return its result.
    RunHeld,
    Send(AwaitingReply, StorageRequest),
    ClearInterrupt(AwaitingClear),
    Register(AwaitingRegistration),
    Run(AwaitingOperation),
    Deregister(AwaitingDeregistration),
    /// Return the operation's value where this is `Ok`, else the error.
    Done(Result<(), AppError>),
}

/// The buckets that are not held yet.
pub open spec fn is_missing_bucket(bucket: Seq<char>, buckets: Seq<Seq<char>>, held: Seq<Seq<char>>) -> bool {
    buckets.contains(bucket) && !held.contains(bucket)
}

fn holds(held: &Vec<String>, bucket: &str) -> (is_held: bool)
    ensures
        is_held == text::views(held@).contains(bucket@),
{
    let mut i: usize = 0;
    while i < held.len()
        invariant
            i <= held@.len(),
            forall|k: int| 0 <= k < i ==> text::views(held@)[k] != bucket@,
        decreases held@.len() - i,
    {
        if text::same_text(held[i].as_str(), bucket) {
            assert(text::views(held@)[i as int] == bucket@);
            return true;
        }
        i += 1;
    }
    false
}

/// How a session begins: where every bucket is held, the operation is run as it is;
/// otherwise the buckets that are not held are locked, in order and without
/// repetition.
pub open spec fn begins(
    api_base: Seq<char>,
    upload_base: Seq<char>,
    buckets: Seq<Seq<char>>,
    held: Seq<Seq<char>>,
    step: LockStep,
) -> bool {
    if forall|bucket: Seq<char>| buckets.contains(bucket) ==> #[trigger] held.contains(bucket) {
        step is RunHeld
    } else {
        exists|session: LockSession|
            {
                &&& #[trigger] session.acquires(step)
                &&& session.api_base@ == api_base
                &&& session.upload_base@ == upload_base
                &&& session.locks@.len() == 0
                &&& locks_the_missing(session, buckets, held)
            }
    }
}

/// The session locks the buckets that are not held, each once, in order.
pub open spec fn locks_the_missing(
    session: LockSession,
    buckets: Seq<Seq<char>>,
    held: Seq<Seq<char>>,
) -> bool {
    &&& text::ordered(text::views(session.buckets@))
    &&& forall|bucket: Seq<char>| #[trigger]
        text::views(session.buckets@).contains(bucket) <==> is_missing_bucket(bucket, buckets, held)
}

/// The buckets to lock: those not held yet, in order and without repetition.
pub fn buckets_to_acquire(buckets: &[&str], held: &Vec<String>) -> (missing: Vec<String>)
    ensures
        text::ordered(text::views(missing@)),
        forall|bucket: Seq<char>| #[trigger]
            text::views(missing@).contains(bucket) <==> is_missing_bucket(
                bucket,
                text::slice_views(buckets@),
                text::views(held@),
            ),
        forall|bucket: Seq<char>| #[trigger]
            text::views(missing@).contains(bucket) <==> text::slice_views(buckets@).contains(bucket)
                && !text::views(held@).contains(bucket),
{
    let mut missing: Vec<String> = Vec::new();
    let ghost names = text::slice_views(buckets@);
    let ghost kept = text::views(held@);
    let mut i: usize = 0;
    while i < buckets.len()
        invariant
            i <= buckets@.len(),
            names == text::slice_views(buckets@),
            kept == text::views(held@),
            text::ordered(text::views(missing@)),
            forall|bucket: Seq<char>| #[trigger]
                text::views(missing@).contains(bucket) <==> is_missing_bucket(
                    bucket,
                    names.take(i as int),
                    kept,
                ),
        decreases buckets@.len() - i,
    {
        let bucket = buckets[i];
        let ghost found = text::views(missing@);
        if !holds(held, bucket) {
            text::insert_ordered(&mut missing, bucket);
        }
        proof {
            assert forall|other: Seq<char>| #[trigger]
                text::views(missing@).contains(other) <==> is_missing_bucket(
                    other,
                    names.take(i + 1),
                    kept,
                ) by {
                let earlier = names.take(i as int);
                let later = names.take(i + 1);
                assert(found.contains(other) <==> is_missing_bucket(other, earlier, kept));
                if earlier.contains(other) {
                    let k = choose|k: int| 0 <= k < earlier.len() && earlier[k] == other;
                    assert(later[k] == other);
                }
                if other == bucket@ {
                    assert(later[i as int] == other);
                }
                if later.contains(other) && other != bucket@ {
                    let k = choose|k: int| 0 <= k < later.len() && later[k] == other;
                    assert(earlier[k] == other);
                }
            }
        }
        i += 1;
    }
    assert(names.take(buckets@.len() as int) == names);
    missing
}

impl LockSession {
    /// The locks are those of the first buckets.
    pub open spec fn wf(self) -> bool {
        &&& self.locks@.len() <= self.buckets@.len()
        &&& forall|i: int|
            0 <= i < self.locks@.len() ==> (#[trigger] self.locks@[i]).object@ == lock_of(
                self.buckets@[i]@,
            )
    }

    /// Every bucket is locked.
    pub open spec fn complete(self) -> bool {
        self.wf() && self.locks@.len() == self.buckets@.len()
    }

    /// Some bucket is not locked yet.
    pub open spec fn incomplete(self) -> bool {
        self.wf() && self.locks@.len() < self.buckets@.len()
    }

    /// The lock that is created next.
    pub open spec fn next_lock(self) -> ObjectPathView {
        lock_of(self.buckets@[self.locks@.len() as int]@)
    }

    fn next_lock_path(&self) -> (object: ObjectPath)
        requires
            self.incomplete(),
        ensures
            object@ == self.next_lock(),
    {
        ObjectPath::from_parts(self.buckets[self.locks.len()].as_str(), BUCKET_LOCK_OBJECT)
    }

    /// Goes on acquiring: the next lock is created, holding a fresh token, only
    /// where no lock exists; once all are created they are registered.
    pub open spec fn acquires(self, step: LockStep) -> bool {
        if self.locks@.len() < self.buckets@.len() {
            &&& step matches LockStep::Send(AwaitingReply { session, stage }, request)
            &&& session == self
            &&& stage matches ReplyStage::Creating { token }
            &&& unique_name::is_token(token@)
            &&& request.method == HttpMethod::Post
            &&& request.url@ == storage_url::creation(self.upload_base@, self.next_lock())
            &&& request.body matches RequestBody::Bytes(bytes) && bytes@ == vstd::utf8::encode_utf8(
                token@,
            )
            &&& request.reply == ReplyKind::BucketLock
        } else {
            step == LockStep::Register(AwaitingRegistration { session: self })
        }
    }

    fn acquire(self) -> (step: LockStep)
        requires
            self.wf(),
        ensures
            self.acquires(step),
            step.wf(),
    {
        if self.locks.len() == self.buckets.len() {
            return LockStep::Register(AwaitingRegistration { session: self });
        }
        let object = self.next_lock_path();
        let token = unique_name::fresh_token();
        let request = StorageRequest {
            method: HttpMethod::Post,
            url: storage_url::creation_url(self.upload_base.as_str(), &object),
            body: RequestBody::Bytes(token.as_str().as_bytes_vec()),
            reply: ReplyKind::BucketLock,
        };
        LockStep::Send(
            AwaitingReply { session: self, stage: ReplyStage::Creating { token } },
            request,
        )
    }

    /// Gives up: pending interrupts are cleared so that the locks acquired so
    /// far can be released.
    pub open spec fn fails(self, error: AppError, step: LockStep) -> bool {
        step == LockStep::ClearInterrupt(
            AwaitingClear { session: self, stage: ClearStage::Failed { error } },
        )
    }

    fn fail(self, error: AppError) -> (step: LockStep)
        requires
            self.wf(),
        ensures
            self.fails(error, step),
            step.wf(),
    {
        LockStep::ClearInterrupt(
            AwaitingClear { session: self, stage: ClearStage::Failed { error } },
        )
    }

    /// Gives up with a second failure besides the first.
    pub open spec fn fails_twice(self, error: AppError, recovery: AppError, step: LockStep) -> bool {
        exists|combined: AppError| #[trigger]
            combined.rollback_of(error, seq![recovery]) && self.fails(combined, step)
    }

    fn fail_twice(self, error: AppError, recovery: AppError) -> (step: LockStep)
        requires
            self.wf(),
        ensures
            self.fails_twice(error, recovery, step),
            step.wf(),
    {
        let recoveries: Vec<AppError> = vec![recovery];
        assert(recoveries@ =~= seq![recovery]);
        let combined = AppError::rollback(error, recoveries);
        assert(combined.rollback_of(error, seq![recovery]));
        self.fail(combined)
    }

    /// Releases the first `remaining` locks, last one first, and then ends.
    pub open spec fn releases(
        self,
        remaining: nat,
        errors: Seq<AppError>,
        after: AfterRelease,
        step: LockStep,
    ) -> bool {
        if remaining == 0 {
            step matches LockStep::Done(outcome) && self.concludes(after, errors, outcome)
        } else {
            &&& step matches LockStep::ClearInterrupt(AwaitingClear { session, stage })
            &&& session == self
            &&& stage matches ClearStage::Release { remaining: left, errors: met, after: end }
            &&& left == remaining
            &&& met@ == errors
            &&& end == after
        }
    }

    fn release(self, remaining: usize, errors: Vec<AppError>, after: AfterRelease) -> (step:
        LockStep)
        requires
            self.wf(),
            remaining <= self.locks@.len(),
        ensures
            self.releases(remaining as nat, errors@, after, step),
            step.wf(),
    {
        if remaining == 0 {
            LockStep::Done(self.conclude(after, errors))
        } else {
            LockStep::ClearInterrupt(
                AwaitingClear {
                    session: self,
                    stage: ClearStage::Release { remaining, errors, after },
                },
            )
        }
    }

    /// The URIs of the lock objects.
    pub open spec fn lock_uris(self) -> Seq<Seq<char>> {
        self.locks@.map_values(|lock: BucketLock| lock.object@.uri())
    }

    /// The result of the whole session. Failures to release are never silent:
    /// they are added to an earlier failure, or ask for recovery after a
    /// success.
    pub open spec fn concludes(
        self,
        after: AfterRelease,
        errors: Seq<AppError>,
        outcome: Result<(), AppError>,
    ) -> bool {
        match after {
            AfterRelease::Failed(error) => {
                outcome matches Err(combined) && combined.rollback_of(error, errors)
            },
            AfterRelease::Finished { result, state, interrupted } => match (state, result) {
                (Err(error), _) => outcome matches Err(combined) && combined.rollback_of(
                    error,
                    errors,
                ),
                (Ok(_), Err(error)) => outcome matches Err(combined) && combined.rollback_of(
                    error,
                    errors,
                ),
                (Ok(_), Ok(_)) => if errors.len() > 0 {
                    &&& outcome matches Err(AppError::Recovery { paths, operation, details })
                    &&& paths@ == text::joined(self.lock_uris(), ", "@)
                    &&& operation@ == "release Cloud Storage bucket lock"@
                    &&& details@ == text::joined(error::texts(errors), "; "@)
                } else if interrupted {
                    outcome == Err::<(), AppError>(AppError::Interrupted)
                } else {
                    outcome == Ok::<(), AppError>(())
                },
            },
        }
    }

    fn conclude(&self, after: AfterRelease, errors: Vec<AppError>) -> (outcome: Result<
        (),
        AppError,
    >)
        ensures
            self.concludes(after, errors@, outcome),
    {
        match after {
            AfterRelease::Failed(error) => Err(AppError::rollback(error, errors)),
            AfterRelease::Finished { result, state, interrupted } => {
                if let Err(error) = state {
                    return Err(AppError::rollback(error, errors));
                }
                match result {
                    Err(error) => Err(AppError::rollback(error, errors)),
                    Ok(()) => if errors.len() > 0 {
                        Err(
                            AppError::Recovery {
                                paths: text::join(&self.uris(), ", "),
                                operation: "release Cloud Storage bucket lock".to_string(),
                                details: text::join(&error::error_texts(&errors), "; "),
                            },
                        )
                    } else if interrupted {
                        Err(AppError::Interrupted)
                    } else {
                        Ok(())
                    },
                }
            },
        }
    }

    fn uris(&self) -> (uris: Vec<String>)
        ensures
            text::views(uris@) == self.lock_uris(),
    {
        let mut uris: Vec<String> = Vec::new();
        let mut i: usize = 0;
        while i < self.locks.len()
            invariant
                i <= self.locks@.len(),
                uris@.len() == i,
                forall|k: int|
                    0 <= k < i ==> #[trigger] uris@[k]@ == self.locks@[k].object@.uri(),
            decreases self.locks@.len() - i,
        {
            uris.push(self.locks[i].object.uri());
            i += 1;
        }
        assert(text::views(uris@) =~= self.lock_uris());
        uris
    }

    /// Begins to lock the buckets that are not held yet.
    pub fn start(
        api_base: String,
        upload_base: String,
        buckets: &[&str],
        held: &Vec<String>,
    ) -> (step: LockStep)
        ensures
            step.wf(),
            begins(api_base@, upload_base@, text::slice_views(buckets@), text::views(held@), step),
    {
        let missing = buckets_to_acquire(buckets, held);
        let ghost names = text::slice_views(buckets@);
        let ghost kept = text::views(held@);
        if missing.len() == 0 {
            proof {
                assert forall|bucket: Seq<char>| names.contains(bucket) implies #[trigger] kept.contains(
                    bucket,
                ) by {
                    if !kept.contains(bucket) {
                        assert(is_missing_bucket(bucket, names, kept));
                        assert(text::views(missing@).contains(bucket));
                    }
                }
            }
            return LockStep::RunHeld;
        }
        proof {
            let bucket = text::views(missing@)[0];
            assert(text::views(missing@).contains(bucket));
            assert(is_missing_bucket(bucket, names, kept));
        }
        let session = LockSession { api_base, upload_base, buckets: missing, locks: Vec::new() };
        let step = session.acquire();
        assert(session.acquires(step));
        step
    }
}

impl LockStep {
    /// The locks belong to the first buckets of the session; locks still to be
    /// created exist while one is being created, and all are held while the
    /// operation runs.
    pub open spec fn wf(self) -> bool {
        match self {
            LockStep::RunHeld => true,
            LockStep::Send(awaiting, request) => awaiting.wf() && request.reply
                == awaiting.expects(),
            LockStep::ClearInterrupt(awaiting) => awaiting.wf(),
            LockStep::Register(awaiting) => awaiting.session.complete(),
            LockStep::Run(awaiting) => awaiting.session.complete(),
            LockStep::Deregister(awaiting) => awaiting.session.complete(),
            LockStep::Done(_) => true,
        }
    }
}

impl AwaitingReply {
    pub open spec fn wf(self) -> bool {
        match self.stage {
            ReplyStage::Releasing { remaining, .. } => self.session.wf() && 0 < remaining
                <= self.session.locks@.len(),
            _ => self.session.incomplete(),
        }
    }

    pub open spec fn expects(self) -> ReplyKind {
        match self.stage {
            ReplyStage::Creating { .. } => ReplyKind::BucketLock,
            ReplyStage::LookingUpMarker { .. } => ReplyKind::Metadata,
            _ => ReplyKind::Body,
        }
    }

    /// How a reply is acted on.
    pub open spec fn continues(self, reply: Result<Payload, AppError>, step: LockStep) -> bool {
        match self.stage {
            ReplyStage::Creating { token } => match storage_request::metadata_in(reply) {
                Ok(metadata) => exists|next: LockSession|
                    {
                        &&& #[trigger] next.acquires(step)
                        &&& self.session.with_lock(metadata.generation, next)
                    },
                Err(error) => if error.refusal() == Some(PRECONDITION_FAILED) {
                    self.session.fails(AppError::BucketLockConflict(Box::new(error)), step)
                } else if error.has_reached_storage() {
                    step == LockStep::ClearInterrupt(
                        AwaitingClear {
                            session: self.session,
                            stage: ClearStage::Unacknowledged { token, error },
                        },
                    )
                } else {
                    self.session.fails(error, step)
                },
            },
            ReplyStage::ReadingMarker { token, error } => match storage_request::body_in(reply) {
                Ok(body) => if body@ == vstd::utf8::encode_utf8(token@) {
                    &&& step matches LockStep::Send(awaiting, request)
                    &&& awaiting == (AwaitingReply {
                        session: self.session,
                        stage: ReplyStage::LookingUpMarker { error },
                    })
                    &&& request.looks_up(self.session.api_base@, self.session.next_lock())
                } else {
                    self.session.fails(error, step)
                },
                Err(recovery) => self.session.fails_twice(error, recovery, step),
            },
            ReplyStage::LookingUpMarker { error } => match storage_request::metadata_in(reply) {
                Ok(metadata) => {
                    &&& step matches LockStep::Send(awaiting, request)
                    &&& awaiting == (AwaitingReply {
                        session: self.session,
                        stage: ReplyStage::DeletingMarker { error },
                    })
                    &&& request.deletes(
                        self.session.api_base@,
                        self.session.next_lock(),
                        metadata.generation@,
                    )
                },
                Err(recovery) => self.session.fails_twice(error, recovery, step),
            },
            ReplyStage::DeletingMarker { error } => match reply {
                Ok(_) => self.session.fails(error, step),
                Err(recovery) => self.session.fails_twice(error, recovery, step),
            },
            ReplyStage::Releasing { remaining, errors, after } => self.session.releases(
                (remaining - 1) as nat,
                match reply {
                    Ok(_) => errors@,
                    Err(error) => errors@.push(error),
                },
                after,
                step,
            ),
        }
    }

    /// Acts on the reply to the latest request.
    pub fn resume(self, reply: Result<Payload, AppError>) -> (step: LockStep)
        requires
            self.wf(),
            storage_request::answers(reply, self.expects()),
        ensures
            self.continues(reply, step),
            step.wf(),
    {
        let AwaitingReply { session, stage } = self;
        match stage {
            ReplyStage::Creating { token } => match storage_request::into_metadata(reply) {
                Ok(metadata) => {
                    let object = session.next_lock_path();
                    let LockSession { api_base, upload_base, buckets, locks } = session;
                    let mut locks = locks;
                    locks.push(BucketLock { object, generation: metadata.generation });
                    let next = LockSession { api_base, upload_base, buckets, locks };
                    assert(next.locks@.drop_last() =~= self.session.locks@);
                    assert(self.session.with_lock(metadata.generation, next));
                    let step = next.acquire();
                    assert(next.acquires(step));
                    step
                },
                Err(error) => {
                    let refused = match error.status() {
                        Some(status) => status == PRECONDITION_FAILED,
                        None => false,
                    };
                    if refused {
                        session.fail(AppError::BucketLockConflict(Box::new(error)))
                    } else if error.reached_storage() {
                        LockStep::ClearInterrupt(
                            AwaitingClear {
                                session,
                                stage: ClearStage::Unacknowledged { token, error },
                            },
                        )
                    } else {
                        session.fail(error)
                    }
                },
            },
            ReplyStage::ReadingMarker { token, error } => match storage_request::into_body(reply) {
                Ok(body) => if text::same_bytes(body.as_slice(), token.as_str().as_bytes()) {
                    let object = session.next_lock_path();
                    let request = StorageRequest::look_up(session.api_base.as_str(), &object);
                    LockStep::Send(
                        AwaitingReply { session, stage: ReplyStage::LookingUpMarker { error } },
                        request,
                    )
                } else {
                    session.fail(error)
                },
                Err(recovery) => session.fail_twice(error, recovery),
            },
            ReplyStage::LookingUpMarker { error } => match storage_request::into_metadata(reply) {
                Ok(metadata) => {
                    let object = session.next_lock_path();
                    let request = StorageRequest::delete(
                        session.api_base.as_str(),
                        &object,
                        metadata.generation.as_str(),
                    );
                    LockStep::Send(
                        AwaitingReply { session, stage: ReplyStage::DeletingMarker { error } },
                        request,
                    )
                },
                Err(recovery) => session.fail_twice(error, recovery),
            },
            ReplyStage::DeletingMarker { error } => match reply {
                Ok(_) => session.fail(error),
                Err(recovery) => session.fail_twice(error, recovery),
            },
            ReplyStage::Releasing { remaining, errors, after } => {
                let mut errors = errors;
                if let Err(error) = reply {
                    errors.push(error);
                }
                session.release(remaining - 1, errors, after)
            },
        }
    }
}

impl LockSession {
    /// The session once its next lock was created at the generation.
    pub open spec fn with_lock(self, generation: String, next: LockSession) -> bool {
        &&& next.api_base == self.api_base
        &&& next.upload_base == self.upload_base
        &&& next.buckets == self.buckets
        &&& next.locks@.len() == self.locks@.len() + 1
        &&& next.locks@.drop_last() == self.locks@
        &&& next.locks@.last().object@ == self.next_lock()
        &&& next.locks@.last().generation == generation
    }
}

impl AwaitingClear {
    pub open spec fn wf(self) -> bool {
        match self.stage {
            ClearStage::Unacknowledged { .. } => self.session.incomplete(),
            ClearStage::Failed { .. } => self.session.wf(),
            ClearStage::Finished { .. } => self.session.complete(),
            ClearStage::Release { remaining, .. } => self.session.wf() && 0 < remaining
                <= self.session.locks@.len(),
        }
    }

    /// How to go on once pending interrupts were cleared.
    pub open spec fn continues(self, interrupted: bool, step: LockStep) -> bool {
        match self.stage {
            ClearStage::Unacknowledged { token, error } => {
                &&& step matches LockStep::Send(awaiting, request)
                &&& awaiting == (AwaitingReply {
                    session: self.session,
                    stage: ReplyStage::ReadingMarker { token, error },
                })
                &&& request.is_plain(
                    HttpMethod::Get,
                    storage_url::queried(
                        storage_url::resource(self.session.api_base@, self.session.next_lock()),
                        seq![storage_url::pair("alt"@, "media"@)],
                    ),
                    ReplyKind::Body,
                )
            },
            ClearStage::Failed { error } => self.session.releases(
                self.session.locks@.len(),
                Seq::empty(),
                AfterRelease::Failed(error),
                step,
            ),
            ClearStage::Finished { result, state } => self.session.releases(
                self.session.locks@.len(),
                Seq::empty(),
                AfterRelease::Finished { result, state, interrupted },
                step,
            ),
            ClearStage::Release { remaining, errors, after } => {
                let lock = self.session.locks@[remaining - 1];
                &&& step matches LockStep::Send(awaiting, request)
                &&& awaiting == (AwaitingReply {
                    session: self.session,
                    stage: ReplyStage::Releasing { remaining, errors, after },
                })
                &&& request.deletes(self.session.api_base@, lock.object@, lock.generation@)
            },
        }
    }

    /// Goes on once pending interrupts were cleared; `interrupted` tells
    /// whether there was one.
    pub fn resume(self, interrupted: bool) -> (step: LockStep)
        requires
            self.wf(),
        ensures
            self.continues(interrupted, step),
            step.wf(),
    {
        let AwaitingClear { session, stage } = self;
        match stage {
            ClearStage::Unacknowledged { token, error } => {
                let object = session.next_lock_path();
                let pairs: Vec<String> = vec![storage_url::query_pair("alt", "media")];
                assert(text::views(pairs@) =~= seq![storage_url::pair("alt"@, "media"@)]);
                let request = StorageRequest {
                    method: HttpMethod::Get,
                    url: storage_url::with_query(
                        storage_url::object_url(session.api_base.as_str(), &object),
                        &pairs,
                    ),
                    body: RequestBody::Empty,
                    reply: ReplyKind::Body,
                };
                LockStep::Send(
                    AwaitingReply { session, stage: ReplyStage::ReadingMarker { token, error } },
                    request,
                )
            },
            ClearStage::Failed { error } => {
                let remaining: usize = session.locks.len();
                session.release(remaining, Vec::new(), AfterRelease::Failed(error))
            },
            ClearStage::Finished { result, state } => {
                let remaining: usize = session.locks.len();
                session.release(
                    remaining,
                    Vec::new(),
                    AfterRelease::Finished { result, state, interrupted },
                )
            },
            ClearStage::Release { remaining, errors, after } => {
                let request = StorageRequest::delete(
                    session.api_base.as_str(),
                    &session.locks[remaining - 1].object,
                    session.locks[remaining - 1].generation.as_str(),
                );
                LockStep::Send(
                    AwaitingReply {
                        session,
                        stage: ReplyStage::Releasing { remaining, errors, after },
                    },
                    request,
                )
            },
        }
    }
}

impl AwaitingRegistration {
    /// Runs the operation once the locks are registered as held, or gives up.
    pub fn resume(self, registered: Result<(), AppError>) -> (step: LockStep)
        requires
            self.session.complete(),
        ensures
            step.wf(),
            match registered {
                Ok(()) => step == LockStep::Run(AwaitingOperation { session: self.session }),
                Err(error) => self.session.fails(error, step),
            },
    {
        match registered {
            Ok(()) => LockStep::Run(AwaitingOperation { session: self.session }),
            Err(error) => self.session.fail(error),
        }
    }
}

impl AwaitingOperation {
    /// Goes on once the operation ended: the locks are no longer registered.
    pub fn resume(self, result: Result<(), AppError>) -> (step: LockStep)
        requires
            self.session.complete(),
        ensures
            step.wf(),
            step == LockStep::Deregister(AwaitingDeregistration { session: self.session, result }),
    {
        LockStep::Deregister(AwaitingDeregistration { session: self.session, result })
    }
}

impl AwaitingDeregistration {
    /// Goes on to release the locks, whatever came of the operation.
    pub fn resume(self, state: Result<(), AppError>) -> (step: LockStep)
        requires
            self.session.complete(),
        ensures
            step.wf(),
            step == LockStep::ClearInterrupt(
                AwaitingClear {
                    session: self.session,
                    stage: ClearStage::Finished { result: self.result, state },
                },
            ),
    {
        LockStep::ClearInterrupt(
            AwaitingClear {
                session: self.session,
                stage: ClearStage::Finished { result: self.result, state },
            },
        )
    }
}

} // verus!
