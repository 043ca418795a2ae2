//! What holds of every run of a lock session, whatever Cloud Storage replies.
use vstd::prelude::*;

use crate::bucket_lock;
use crate::bucket_lock::AfterRelease;
use crate::bucket_lock::BucketLock;
use crate::bucket_lock::ClearStage;
use crate::bucket_lock::LockSession;
use crate::bucket_lock::LockStep;
use crate::bucket_lock::ReplyStage;
use crate::error::AppError;
use crate::storage_request;
use crate::storage_request::HttpMethod;
use crate::storage_request::Payload;
use crate::storage_url;
use crate::text;

verus! {

/// What came of a step.
pub enum LockEvent {
    Replied(Result<Payload, AppError>),
    Cleared(bool),
    Registered(Result<(), AppError>),
    Finished(Result<(), AppError>),
    Deregistered(Result<(), AppError>),
}

/// The step that follows from what came of the step before.
pub open spec fn leads_to(step: LockStep, event: LockEvent, next: LockStep) -> bool {
    match (step, event) {
        (LockStep::Send(awaiting, _), LockEvent::Replied(reply)) => {
            &&& storage_request::answers(reply, awaiting.expects())
            &&& awaiting.continues(reply, next)
        },
        (LockStep::ClearInterrupt(awaiting), LockEvent::Cleared(interrupted)) => awaiting.continues(
            interrupted,
            next,
        ),
        (LockStep::Register(awaiting), LockEvent::Registered(registered)) => match registered {
            Ok(()) => next matches LockStep::Run(running) && running.session == awaiting.session,
            Err(error) => awaiting.session.fails(error, next),
        },
        (LockStep::Run(awaiting), LockEvent::Finished(result)) => {
            &&& next matches LockStep::Deregister(ending)
            &&& ending.session == awaiting.session
            &&& ending.result == result
        },
        (LockStep::Deregister(awaiting), LockEvent::Deregistered(state)) => {
            &&& next matches LockStep::ClearInterrupt(clearing)
            &&& clearing.session == awaiting.session
            &&& clearing.stage == (ClearStage::Finished { result: awaiting.result, state })
        },
        _ => false,
    }
}

/// A run of a session, from any step on.
pub open spec fn is_run(steps: Seq<LockStep>, events: Seq<LockEvent>) -> bool {
    &&& steps.len() == events.len() + 1
    &&& forall|i: int|
        0 <= i < events.len() ==> leads_to(#[trigger] steps[i], events[i], steps[i + 1])
}

/// The session that a step belongs to.
pub open spec fn session_of(step: LockStep) -> Option<LockSession> {
    match step {
        LockStep::RunHeld => None,
        LockStep::Send(awaiting, _) => Some(awaiting.session),
        LockStep::ClearInterrupt(awaiting) => Some(awaiting.session),
        LockStep::Register(awaiting) => Some(awaiting.session),
        LockStep::Run(awaiting) => Some(awaiting.session),
        LockStep::Deregister(awaiting) => Some(awaiting.session),
        LockStep::Done(_) => None,
    }
}

/// How many of the session's locks, counted from the first, no deletion was
/// asked for yet.
pub open spec fn unreleased(step: LockStep) -> int {
    match step {
        LockStep::RunHeld => 0,
        LockStep::Done(_) => 0,
        LockStep::Send(awaiting, _) => match awaiting.stage {
            ReplyStage::Releasing { remaining, .. } => remaining - 1,
            _ => awaiting.session.locks@.len() as int,
        },
        LockStep::ClearInterrupt(awaiting) => match awaiting.stage {
            ClearStage::Release { remaining, .. } => remaining as int,
            _ => awaiting.session.locks@.len() as int,
        },
        LockStep::Register(awaiting) => awaiting.session.locks@.len() as int,
        LockStep::Run(awaiting) => awaiting.session.locks@.len() as int,
        LockStep::Deregister(awaiting) => awaiting.session.locks@.len() as int,
    }
}

/// The lock still waits for its deletion.
pub open spec fn is_pending(step: LockStep, api_base: String, lock: BucketLock) -> bool {
    &&& session_of(step) matches Some(session)
    &&& session.api_base == api_base
    &&& exists|i: int|
        0 <= i < unreleased(step) && i < session.locks@.len() && #[trigger] session.locks@[i] == lock
}

/// The step asks for the deletion of the lock, at its generation.
pub open spec fn asks_to_delete(step: LockStep, api_base: String, lock: BucketLock) -> bool {
    step matches LockStep::Send(_, request) && request.deletes(
        api_base@,
        lock.object@,
        lock.generation@,
    )
}

/// A lock is pending where it is one of the unreleased locks of the session.
proof fn unreleased_is_pending(step: LockStep, session: LockSession, i: int)
    requires
        session_of(step) == Some(session),
        0 <= i < unreleased(step),
        i < session.locks@.len(),
    ensures
        is_pending(step, session.api_base, session.locks@[i]),
{
    let lock = session.locks@[i];
    assert(session_of(step).unwrap().locks@[i] == lock);
}

/// The session once a lock was acknowledged.
proof fn session_after_creation(step: LockStep, event: LockEvent, next: LockStep, generation: Seq<char>) -> (grown:
    LockSession)
    requires
        leads_to(step, event, next),
        acknowledges(step, event, generation),
    ensures
        ({
            let session = session_of(step).unwrap();
            &&& session_of(next) == Some(grown)
            &&& unreleased(next) == grown.locks@.len()
            &&& carried(next) is None
            &&& !(next is Done)
            &&& grown.api_base == session.api_base
            &&& grown.locks@.len() == session.locks@.len() + 1
            &&& grown.locks@.drop_last() == session.locks@
            &&& grown.locks@.last().object@ == session.next_lock()
            &&& grown.locks@.last().generation@ == generation
            &&& !(next matches LockStep::Send(awaiting, _) && awaiting.stage is Releasing)
        }),
{
    let awaiting = step->Send_0;
    let metadata = storage_request::metadata_in(event->Replied_0)->Ok_0;
    let grown = choose|grown: LockSession|
        {
            &&& #[trigger] grown.acquires(next)
            &&& awaiting.session.with_lock(metadata.generation, grown)
        };
    assert(grown.acquires(next) && awaiting.session.with_lock(metadata.generation, grown));
    grown
}

/// A pending lock stays pending or its deletion is asked for.
proof fn pending_stays(step: LockStep, event: LockEvent, next: LockStep, api_base: String, lock: BucketLock)
    requires
        leads_to(step, event, next),
        is_pending(step, api_base, lock),
    ensures
        is_pending(next, api_base, lock) || asks_to_delete(next, api_base, lock),
{
    let session = session_of(step).unwrap();
    let i = choose|i: int|
        0 <= i < unreleased(step) && i < session.locks@.len() && #[trigger] session.locks@[i] == lock;
    if is_acknowledgement(step, event) {
        let generation = storage_request::metadata_in(event->Replied_0)->Ok_0.generation@;
        let grown = session_after_creation(step, event, next, generation);
        assert(grown.locks@[i] == grown.locks@.drop_last()[i]);
        unreleased_is_pending(next, grown, i);
    } else if i < unreleased(next) {
        unreleased_is_pending(next, session, i);
    }
}

/// The reply to a step acknowledges the creation of a lock.
pub open spec fn is_acknowledgement(step: LockStep, event: LockEvent) -> bool {
    &&& step matches LockStep::Send(awaiting, _) && awaiting.stage is Creating
    &&& event matches LockEvent::Replied(reply) && reply is Ok && reply->Ok_0 is Metadata
}

proof fn pending_is_deleted(steps: Seq<LockStep>, events: Seq<LockEvent>, at: int, api_base: String, lock: BucketLock) -> (j:
    int)
    requires
        is_run(steps, events),
        steps.last() is Done,
        0 <= at < steps.len(),
        is_pending(steps[at], api_base, lock),
    ensures
        at < j < steps.len(),
        asks_to_delete(steps[j], api_base, lock),
    decreases steps.len() - at,
{
    assert(at < events.len());
    assert(leads_to(steps[at], events[at], steps[at + 1]));
    pending_stays(steps[at], events[at], steps[at + 1], api_base, lock);
    if asks_to_delete(steps[at + 1], api_base, lock) {
        at + 1
    } else {
        pending_is_deleted(steps, events, at + 1, api_base, lock)
    }
}

/// The reply to a step acknowledges the creation of a lock at a generation.
pub open spec fn acknowledges(step: LockStep, event: LockEvent, generation: Seq<char>) -> bool {
    &&& is_acknowledgement(step, event)
    &&& storage_request::metadata_in(event->Replied_0)->Ok_0.generation@ == generation
}

/// A lock whose creation was acknowledged is deleted again, at the generation
/// that was acknowledged, before the session ends: after a success, after a
/// failure of the operation, and after a failure to acquire a later lock.
pub proof fn every_acquired_lock_is_released(
    steps: Seq<LockStep>,
    events: Seq<LockEvent>,
    at: int,
    generation: Seq<char>,
)
    requires
        is_run(steps, events),
        steps.last() is Done,
        0 <= at < events.len(),
        acknowledges(steps[at], events[at], generation),
    ensures
        ({
            let session = session_of(steps[at]).unwrap();
            exists|j: int|
                at < j < steps.len() && #[trigger] steps[j] is Send && (steps[j]->Send_1).deletes(
                    session.api_base@,
                    session.next_lock(),
                    generation,
                )
        }),
{
    assert(leads_to(steps[at], events[at], steps[at + 1]));
    let grown = session_after_creation(steps[at], events[at], steps[at + 1], generation);
    let lock = grown.locks@.last();
    unreleased_is_pending(steps[at + 1], grown, grown.locks@.len() - 1);
    let j = pending_is_deleted(steps, events, at + 1, grown.api_base, lock);
    assert(steps[j] is Send);
}

/// Locks are released in the reverse of the order in which they were acquired:
/// of the locks that are left, a release always deletes the last.
pub proof fn locks_are_released_last_first(step: LockStep, event: LockEvent, next: LockStep)
    requires
        leads_to(step, event, next),
        next matches LockStep::Send(awaiting, _) && awaiting.stage is Releasing,
    ensures
        ({
            let session = session_of(step).unwrap();
            &&& unreleased(next) == unreleased(step) - 1
            &&& session_of(next) == Some(session)
            &&& asks_to_delete(next, session.api_base, session.locks@[unreleased(next)])
        }),
{
    if is_acknowledgement(step, event) {
        let generation = storage_request::metadata_in(event->Replied_0)->Ok_0.generation@;
        let grown = session_after_creation(step, event, next, generation);
    }
}

/// The result of the operation that a step carries on.
pub open spec fn carried(step: LockStep) -> Option<Result<(), AppError>> {
    match step {
        LockStep::Deregister(awaiting) => Some(awaiting.result),
        LockStep::ClearInterrupt(awaiting) => match awaiting.stage {
            ClearStage::Finished { result, .. } => Some(result),
            ClearStage::Release { after, .. } => carried_after(after),
            _ => None,
        },
        LockStep::Send(awaiting, _) => match awaiting.stage {
            ReplyStage::Releasing { after, .. } => carried_after(after),
            _ => None,
        },
        _ => None,
    }
}

/// The result of the operation that the release of the locks ends.
pub open spec fn carried_after(after: AfterRelease) -> Option<Result<(), AppError>> {
    match after {
        AfterRelease::Finished { result, .. } => Some(result),
        AfterRelease::Failed(_) => None,
    }
}

/// A carried result is that of the operation.
proof fn carried_result_was_reported(steps: Seq<LockStep>, events: Seq<LockEvent>, at: int, result: Result<(), AppError>) -> (k:
    int)
    requires
        is_run(steps, events),
        carried(steps[0]) is None,
        0 <= at < steps.len(),
        carried(steps[at]) == Some(result),
    ensures
        0 <= k < at,
        steps[k] is Run,
        events[k] == LockEvent::Finished(result),
    decreases at,
{
    assert(at > 0);
    let before = steps[at - 1];
    assert(leads_to(steps[at - 1], events[at - 1], steps[at]));
    if before is Run {
        at - 1
    } else {
        assert(carried(before) == Some(result)) by {
            carried_result_is_kept(before, events[at - 1], steps[at]);
        }
        carried_result_was_reported(steps, events, at - 1, result)
    }
}

proof fn carried_result_is_kept(step: LockStep, event: LockEvent, next: LockStep)
    requires
        leads_to(step, event, next),
        carried(next) is Some,
        !(step is Run),
    ensures
        carried(step) == carried(next),
{
    if is_acknowledgement(step, event) {
        let generation = storage_request::metadata_in(event->Replied_0)->Ok_0.generation@;
        let grown = session_after_creation(step, event, next, generation);
    }
}

/// A session ends well only from a step that carries a success.
proof fn success_is_carried(step: LockStep, event: LockEvent, next: LockStep)
    requires
        leads_to(step, event, next),
        next matches LockStep::Done(outcome) && outcome is Ok,
    ensures
        carried(step) matches Some(result) && result is Ok,
{
    if is_acknowledgement(step, event) {
        let generation = storage_request::metadata_in(event->Replied_0)->Ok_0.generation@;
        let grown = session_after_creation(step, event, next, generation);
    }
}

/// A session that acquires locks succeeds only where its operation was run and
/// succeeded.
pub proof fn success_is_the_success_of_the_operation(steps: Seq<LockStep>, events: Seq<LockEvent>)
    requires
        is_run(steps, events),
        carried(steps[0]) is None,
        steps.len() > 1,
        steps.last() matches LockStep::Done(outcome) && outcome is Ok,
    ensures
        exists|k: int|
            0 <= k < events.len() && #[trigger] steps[k] is Run && (events[k] matches LockEvent::Finished(
                result,
            ) && result is Ok),
{
    let last = events.len() - 1;
    assert(leads_to(steps[last], events[last], steps[last + 1]));
    success_is_carried(steps[last], events[last], steps[last + 1]);
    let k = carried_result_was_reported(steps, events, last, carried(steps[last]).unwrap());
    assert(steps[k] is Run);
}

/// The operation is run only while the lock of every bucket of the session is
/// held.
pub proof fn the_operation_runs_under_every_lock(step: LockStep)
    requires
        step.wf(),
        step is Run,
    ensures
        ({
            let session = session_of(step).unwrap();
            &&& session.locks@.len() == session.buckets@.len()
            &&& forall|i: int|
                0 <= i < session.buckets@.len() ==> (#[trigger] session.locks@[i]).object@
                    == bucket_lock::lock_of(session.buckets@[i]@)
        }),
{
}

/// How many steps a session can still take: the locks left to create, the
/// recovery of an unacknowledged one, the operation, and two for each release.
pub open spec fn steps_left(step: LockStep) -> int {
    match step {
        LockStep::RunHeld => 0,
        LockStep::Done(_) => 0,
        LockStep::Send(awaiting, _) => {
            let locks = awaiting.session.locks@.len() as int;
            let buckets = awaiting.session.buckets@.len() as int;
            match awaiting.stage {
                ReplyStage::Creating { .. } => 3 * buckets - locks + 6,
                ReplyStage::ReadingMarker { .. } => 2 * locks + 4,
                ReplyStage::LookingUpMarker { .. } => 2 * locks + 3,
                ReplyStage::DeletingMarker { .. } => 2 * locks + 2,
                ReplyStage::Releasing { remaining, .. } => 2 * remaining - 1,
            }
        },
        LockStep::ClearInterrupt(awaiting) => {
            let locks = awaiting.session.locks@.len() as int;
            match awaiting.stage {
                ClearStage::Unacknowledged { .. } => 2 * locks + 5,
                ClearStage::Failed { .. } => 2 * locks + 1,
                ClearStage::Finished { .. } => 2 * locks + 1,
                ClearStage::Release { remaining, .. } => 2 * remaining,
            }
        },
        LockStep::Register(awaiting) => 2 * awaiting.session.locks@.len() as int + 4,
        LockStep::Run(awaiting) => 2 * awaiting.session.locks@.len() as int + 3,
        LockStep::Deregister(awaiting) => 2 * awaiting.session.locks@.len() as int + 2,
    }
}

proof fn every_step_nears_the_end(step: LockStep, event: LockEvent, next: LockStep)
    requires
        leads_to(step, event, next),
        step.wf(),
        next.wf(),
    ensures
        0 <= steps_left(next) < steps_left(step),
{
    if is_acknowledgement(step, event) {
        let awaiting = step->Send_0;
        let metadata = storage_request::metadata_in(event->Replied_0)->Ok_0;
        let grown = choose|grown: LockSession|
            {
                &&& #[trigger] grown.acquires(next)
                &&& awaiting.session.with_lock(metadata.generation, grown)
            };
        assert(grown.acquires(next) && awaiting.session.with_lock(metadata.generation, grown));
    }
}

/// A session comes to its end, whatever Cloud Storage replies: a run is no longer
/// than the steps that were left at its start.
pub proof fn a_session_ends(steps: Seq<LockStep>, events: Seq<LockEvent>)
    requires
        is_run(steps, events),
        forall|i: int| 0 <= i < steps.len() ==> (#[trigger] steps[i]).wf(),
    ensures
        events.len() <= steps_left(steps[0]),
{
    steps_run_out(steps, events, events.len() as int);
}

proof fn steps_run_out(steps: Seq<LockStep>, events: Seq<LockEvent>, at: int)
    requires
        is_run(steps, events),
        forall|i: int| 0 <= i < steps.len() ==> (#[trigger] steps[i]).wf(),
        0 <= at <= events.len(),
    ensures
        0 <= steps_left(steps[at]) <= steps_left(steps[0]) - at,
    decreases at,
{
    if at > 0 {
        steps_run_out(steps, events, at - 1);
        assert(leads_to(steps[at - 1], events[at - 1], steps[at]));
        every_step_nears_the_end(steps[at - 1], events[at - 1], steps[at]);
    } else {
        assert(steps[0].wf());
    }
}

/// The step asks for the creation of the lock of a bucket.
pub open spec fn asks_to_create(step: LockStep, upload_base: Seq<char>, bucket: Seq<char>) -> bool {
    &&& step matches LockStep::Send(awaiting, request)
    &&& awaiting.stage is Creating
    &&& request.method == HttpMethod::Post
    &&& request.url@ == storage_url::creation(upload_base, bucket_lock::lock_of(bucket))
}

/// The step comes before every bucket of the session is locked, or right after.
spec fn is_acquiring(step: LockStep) -> bool {
    step is Register || (step matches LockStep::Send(awaiting, _) && awaiting.stage is Creating)
}

/// While locks are acquired, each step so far created one, in the order of the
/// buckets.
proof fn acquired_so_far(session: LockSession, steps: Seq<LockStep>, events: Seq<LockEvent>, at: int)
    requires
        is_run(steps, events),
        session.locks@.len() == 0,
        session.acquires(steps[0]),
        0 <= at < steps.len(),
        is_acquiring(steps[at]),
    ensures
        ({
            let reached = session_of(steps[at]).unwrap();
            &&& reached.acquires(steps[at])
            &&& reached.locks@.len() == at <= session.buckets@.len()
            &&& reached.buckets == session.buckets
            &&& reached.api_base == session.api_base
            &&& reached.upload_base == session.upload_base
            &&& forall|i: int|
                0 <= i < at ==> {
                    &&& asks_to_create(
                        #[trigger] steps[i],
                        session.upload_base@,
                        session.buckets@[i]@,
                    )
                    &&& acknowledges(steps[i], events[i], reached.locks@[i].generation@)
                    &&& reached.locks@[i].object@ == bucket_lock::lock_of(session.buckets@[i]@)
                }
        }),
    decreases at,
{
    if at > 0 {
        let before = steps[at - 1];
        assert(leads_to(steps[at - 1], events[at - 1], steps[at]));
        assert(is_acknowledgement(before, events[at - 1]));
        acquired_so_far(session, steps, events, at - 1);
        let earlier = session_of(before).unwrap();
        let metadata = storage_request::metadata_in(events[at - 1]->Replied_0)->Ok_0;
        let grown = choose|grown: LockSession|
            {
                &&& #[trigger] grown.acquires(steps[at])
                &&& earlier.with_lock(metadata.generation, grown)
            };
        assert(grown.acquires(steps[at]) && earlier.with_lock(metadata.generation, grown));
        assert(session_of(steps[at]) == Some(grown));
        assert(earlier.acquires(before));
        assert(earlier.locks@.len() < earlier.buckets@.len());
        assert forall|i: int| 0 <= i < at implies {
            &&& asks_to_create(#[trigger] steps[i], session.upload_base@, session.buckets@[i]@)
            &&& acknowledges(steps[i], events[i], grown.locks@[i].generation@)
            &&& grown.locks@[i].object@ == bucket_lock::lock_of(session.buckets@[i]@)
        } by {
            if i < at - 1 {
                assert(grown.locks@[i] == grown.locks@.drop_last()[i]);
            } else {
                assert(grown.locks@[i] == grown.locks@.last());
            }
        }
    }
}

/// The session is about to release its locks, of which so many are left.
spec fn is_releasing(session: LockSession, step: LockStep, left: int) -> bool {
    if left == 0 {
        step is Done
    } else {
        &&& step matches LockStep::ClearInterrupt(awaiting)
        &&& awaiting.session == session
        &&& awaiting.stage matches ClearStage::Release { remaining, .. } && remaining == left
    }
}

proof fn releasing_begins(
    session: LockSession,
    run: LockStep,
    first: LockStep,
    second: LockStep,
    third: LockStep,
    events: (LockEvent, LockEvent, LockEvent),
)
    requires
        run matches LockStep::Run(awaiting) && awaiting.session == session,
        leads_to(run, events.0, first),
        leads_to(first, events.1, second),
        leads_to(second, events.2, third),
    ensures
        is_releasing(session, third, session.locks@.len() as int),
{
}

proof fn one_is_released(
    session: LockSession,
    step: LockStep,
    asked: LockStep,
    next: LockStep,
    events: (LockEvent, LockEvent),
    left: int,
)
    requires
        0 < left <= session.locks@.len(),
        is_releasing(session, step, left),
        leads_to(step, events.0, asked),
        leads_to(asked, events.1, next),
    ensures
        step is ClearInterrupt,
        asks_to_delete(asked, session.api_base, session.locks@[left - 1]),
        is_releasing(session, next, left - 1),
{
}

#[verifier::opaque]
spec fn is_whole_run(steps: Seq<LockStep>, events: Seq<LockEvent>) -> bool {
    is_run(steps, events)
}

proof fn a_step_of_the_run(steps: Seq<LockStep>, events: Seq<LockEvent>, at: int)
    requires
        is_whole_run(steps, events),
        0 <= at < steps.len(),
        steps.last() is Done,
    ensures
        steps[at] is Done || at + 1 < steps.len() && leads_to(steps[at], events[at], steps[at + 1]),
{
    reveal(is_whole_run);
    if at + 1 < steps.len() {
        assert(leads_to(steps[at], events[at], steps[at + 1]));
    }
}

/// How the locks are released after the operation.
proof fn released_so_far(
    session: LockSession,
    steps: Seq<LockStep>,
    events: Seq<LockEvent>,
    run: int,
    count: int,
)
    requires
        is_whole_run(steps, events),
        steps.last() is Done,
        0 <= run < steps.len(),
        steps[run] matches LockStep::Run(awaiting) && awaiting.session == session,
        0 <= count <= session.locks@.len(),
    ensures
        run + 3 + 2 * count < steps.len(),
        is_releasing(session, steps[run + 3 + 2 * count], session.locks@.len() - count),
        forall|j: int|
            0 <= j < count ==> asks_to_delete(
                #[trigger] steps[run + 4 + 2 * j],
                session.api_base,
                session.locks@[session.locks@.len() - 1 - j],
            ) && steps[run + 3 + 2 * j] is ClearInterrupt,
    decreases count,
{
    let n = session.locks@.len() as int;
    if count == 0 {
        a_step_of_the_run(steps, events, run);
        a_step_of_the_run(steps, events, run + 1);
        a_step_of_the_run(steps, events, run + 2);
        releasing_begins(
            session,
            steps[run],
            steps[run + 1],
            steps[run + 2],
            steps[run + 3],
            (events[run], events[run + 1], events[run + 2]),
        );
    } else {
        released_so_far(session, steps, events, run, count - 1);
        let at = run + 3 + 2 * (count - 1);
        a_step_of_the_run(steps, events, at);
        a_step_of_the_run(steps, events, at + 1);
        one_is_released(
            session,
            steps[at],
            steps[at + 1],
            steps[at + 2],
            (events[at], events[at + 1]),
            n - (count - 1),
        );
        assert(at + 1 == run + 4 + 2 * (count - 1));
        assert forall|j: int| 0 <= j < count implies asks_to_delete(
            #[trigger] steps[run + 4 + 2 * j],
            session.api_base,
            session.locks@[n - 1 - j],
        ) && steps[run + 3 + 2 * j] is ClearInterrupt by {
            if j == count - 1 {
                assert(steps[run + 4 + 2 * j] == steps[at + 1]);
            }
        }
    }
}

/// Where the operation of a session is run, the session first asks once for the
/// lock of each of its buckets, in their order, and each is acknowledged. Nothing
/// else is asked before the operation. After it, the session asks once for the
/// deletion of each of these locks, at the generation that was acknowledged, in
/// the reverse order, and ends.
pub proof fn the_locks_enclose_the_operation(
    session: LockSession,
    steps: Seq<LockStep>,
    events: Seq<LockEvent>,
    run: int,
)
    requires
        is_run(steps, events),
        forall|i: int| 0 <= i < steps.len() ==> (#[trigger] steps[i]).wf(),
        session.locks@.len() == 0,
        session.acquires(steps[0]),
        steps.last() is Done,
        0 <= run < steps.len(),
        steps[run] is Run,
    ensures
        ({
            let held = session_of(steps[run]).unwrap();
            let n = session.buckets@.len() as int;
            &&& run == n + 1
            &&& steps.len() == run + 4 + 2 * n
            &&& held.locks@.len() == n
            &&& steps[n] is Register
            &&& forall|i: int|
                0 <= i < n ==> {
                    &&& asks_to_create(
                        #[trigger] steps[i],
                        session.upload_base@,
                        session.buckets@[i]@,
                    )
                    &&& acknowledges(steps[i], events[i], held.locks@[i].generation@)
                    &&& held.locks@[i].object@ == bucket_lock::lock_of(session.buckets@[i]@)
                }
            &&& steps[run + 1] is Deregister
            &&& steps[run + 2] is ClearInterrupt
            &&& forall|j: int|
                0 <= j < n ==> asks_to_delete(
                    #[trigger] steps[run + 4 + 2 * j],
                    session.api_base,
                    held.locks@[n - 1 - j],
                ) && steps[run + 3 + 2 * j] is ClearInterrupt
        }),
{
    assert(run > 0) by {
        assert(steps[0] is Send || steps[0] is Register);
    }
    assert(leads_to(steps[run - 1], events[run - 1], steps[run]));
    if is_acknowledgement(steps[run - 1], events[run - 1]) {
        let generation = storage_request::metadata_in(events[run - 1]->Replied_0)->Ok_0.generation@;
        let grown = session_after_creation(steps[run - 1], events[run - 1], steps[run], generation);
        assert(grown.acquires(steps[run]));
    }
    assert(steps[run - 1] is Register);
    acquired_so_far(session, steps, events, run - 1);
    assert(steps[run].wf());
    let held = session_of(steps[run]).unwrap();
    let n = session.buckets@.len() as int;
    assert(held.locks@.len() == n);
    reveal(is_whole_run);
    released_so_far(held, steps, events, run, n);
    assert(leads_to(steps[run], events[run], steps[run + 1]));
    assert(leads_to(steps[run + 1], events[run + 1], steps[run + 2]));
    let end = run + 3 + 2 * n;
    if end < events.len() {
        assert(leads_to(steps[end], events[end], steps[end + 1]));
    }
}

/// What came of a step is what was asked for, and no interrupt was pending.
pub open spec fn succeeds(event: LockEvent) -> bool {
    match event {
        LockEvent::Replied(reply) => reply is Ok,
        LockEvent::Cleared(interrupted) => !interrupted,
        LockEvent::Registered(registered) => registered is Ok,
        LockEvent::Finished(_) => true,
        LockEvent::Deregistered(state) => state is Ok,
    }
}

/// Where every request succeeds, the locks are acquired one after the other.
proof fn acquisition_goes_on(
    session: LockSession,
    steps: Seq<LockStep>,
    events: Seq<LockEvent>,
    at: int,
)
    requires
        is_run(steps, events),
        forall|i: int| 0 <= i < events.len() ==> succeeds(#[trigger] events[i]),
        steps.last() is Done,
        session.locks@.len() == 0,
        session.acquires(steps[0]),
        0 <= at <= session.buckets@.len(),
    ensures
        at < events.len(),
        is_acquiring(steps[at]),
        steps[at] is Register <==> at == session.buckets@.len(),
    decreases at,
{
    if at > 0 {
        acquisition_goes_on(session, steps, events, at - 1);
        assert(leads_to(steps[at - 1], events[at - 1], steps[at]));
        assert(succeeds(events[at - 1]));
        acquired_so_far(session, steps, events, at - 1);
        let earlier = session_of(steps[at - 1]).unwrap();
        let metadata = storage_request::metadata_in(events[at - 1]->Replied_0)->Ok_0;
        let grown = choose|grown: LockSession|
            {
                &&& #[trigger] grown.acquires(steps[at])
                &&& earlier.with_lock(metadata.generation, grown)
            };
        assert(grown.acquires(steps[at]) && earlier.with_lock(metadata.generation, grown));
    }
    assert(!(steps[at] is Done));
}

proof fn unit_results_are_equal(result: Result<(), AppError>)
    ensures
        result is Ok ==> result == Ok::<(), AppError>(()),
{
    if let Ok(value) = result {
        assert(value == ());
    }
}

/// Where every release succeeds, the result of the operation is kept to the end.
proof fn release_keeps_the_result(
    session: LockSession,
    steps: Seq<LockStep>,
    events: Seq<LockEvent>,
    run: int,
    result: Result<(), AppError>,
    count: int,
)
    requires
        is_run(steps, events),
        forall|i: int| 0 <= i < events.len() ==> succeeds(#[trigger] events[i]),
        steps.last() is Done,
        0 <= run < events.len(),
        steps[run] matches LockStep::Run(awaiting) && awaiting.session == session,
        events[run] == LockEvent::Finished(result),
        0 <= count <= session.locks@.len(),
    ensures
        run + 3 + 2 * count < steps.len(),
        if count == session.locks@.len() {
            steps[run + 3 + 2 * count] == LockStep::Done(result)
        } else {
            releases_next(
                session,
                steps[run + 3 + 2 * count],
                result,
                session.locks@.len() - count,
            )
        },
    decreases count,
{
    let n = session.locks@.len() as int;
    unit_results_are_equal(result);
    if count == 0 {
        assert(leads_to(steps[run], events[run], steps[run + 1]));
        assert(steps[run + 1] is Deregister);
        assert(leads_to(steps[run + 1], events[run + 1], steps[run + 2]));
        assert(succeeds(events[run + 1]));
        unit_results_are_equal(events[run + 1]->Deregistered_0);
        assert(steps[run + 2] is ClearInterrupt);
        assert(leads_to(steps[run + 2], events[run + 2], steps[run + 3]));
        assert(succeeds(events[run + 2]));
    } else {
        release_keeps_the_result(session, steps, events, run, result, count - 1);
        let at = run + 3 + 2 * (count - 1);
        assert(steps[at] is ClearInterrupt);
        assert(leads_to(steps[at], events[at], steps[at + 1]));
        assert(steps[at + 1] is Send);
        assert(leads_to(steps[at + 1], events[at + 1], steps[at + 2]));
        assert(succeeds(events[at + 1]));
        one_release(
            session,
            steps[at],
            events[at],
            steps[at + 1],
            events[at + 1],
            steps[at + 2],
            result,
            n - count + 1,
        );
    }
}

/// A step before a release, where nothing has gone wrong so far.
spec fn releases_next(
    session: LockSession,
    step: LockStep,
    result: Result<(), AppError>,
    left: int,
) -> bool {
    &&& step matches LockStep::ClearInterrupt(awaiting)
    &&& awaiting.session == session
    &&& awaiting.stage matches ClearStage::Release { remaining, errors, after }
    &&& remaining == left
    &&& errors@.len() == 0
    &&& after == (AfterRelease::Finished { result, state: Ok(()), interrupted: false })
}

proof fn one_release(
    session: LockSession,
    step: LockStep,
    event: LockEvent,
    next: LockStep,
    reply: LockEvent,
    last: LockStep,
    result: Result<(), AppError>,
    left: int,
)
    requires
        releases_next(session, step, result, left),
        0 < left <= session.locks@.len(),
        leads_to(step, event, next),
        leads_to(next, reply, last),
        succeeds(reply),
    ensures
        if left == 1 {
            last == LockStep::Done(result)
        } else {
            releases_next(session, last, result, left - 1)
        },
{
    unit_results_are_equal(result);
}

/// Where every request succeeds and no interrupt is pending, a session with a bucket
/// that is not held yet asks once for the lock of each such bucket, in ascending
/// order and only where no lock exists; runs the operation once, after that;
/// and asks once for the deletion of each of these locks, at its generation, in the
/// reverse order. No other request is sent, so a bucket that is held already is
/// neither locked nor released. The result is that of the operation.
pub proof fn the_missing_buckets_are_locked_around_the_operation(
    api_base: Seq<char>,
    upload_base: Seq<char>,
    buckets: Seq<Seq<char>>,
    held: Seq<Seq<char>>,
    steps: Seq<LockStep>,
    events: Seq<LockEvent>,
)
    requires
        is_run(steps, events),
        forall|i: int| 0 <= i < steps.len() ==> (#[trigger] steps[i]).wf(),
        forall|i: int| 0 <= i < events.len() ==> succeeds(#[trigger] events[i]),
        bucket_lock::begins(api_base, upload_base, buckets, held, steps[0]),
        steps.last() is Done,
    ensures
        exists|missing: Seq<Seq<char>>, locks: Seq<BucketLock>, result: Result<(), AppError>| #[trigger]
            locked_around(
                api_base,
                upload_base,
                buckets,
                held,
                steps,
                events,
                missing,
                locks,
                result,
            ),
{
    let session = choose|session: LockSession|
        {
            &&& #[trigger] session.acquires(steps[0])
            &&& session.api_base@ == api_base
            &&& session.upload_base@ == upload_base
            &&& session.locks@.len() == 0
            &&& bucket_lock::locks_the_missing(session, buckets, held)
        };
    assert(!(steps[0] is RunHeld)) by {
        if steps[0] is RunHeld {
            assert(events.len() > 0);
            assert(leads_to(steps[0], events[0], steps[1]));
        }
    }
    assert(session.acquires(steps[0]) && bucket_lock::locks_the_missing(session, buckets, held));
    let (locks, result) = session_is_locked_around(session, buckets, held, steps, events);
}

proof fn session_is_locked_around(
    session: LockSession,
    buckets: Seq<Seq<char>>,
    held: Seq<Seq<char>>,
    steps: Seq<LockStep>,
    events: Seq<LockEvent>,
) -> (found: (Seq<BucketLock>, Result<(), AppError>))
    requires
        is_run(steps, events),
        forall|i: int| 0 <= i < steps.len() ==> (#[trigger] steps[i]).wf(),
        forall|i: int| 0 <= i < events.len() ==> succeeds(#[trigger] events[i]),
        steps.last() is Done,
        session.locks@.len() == 0,
        session.acquires(steps[0]),
        bucket_lock::locks_the_missing(session, buckets, held),
    ensures
        locked_around(
            session.api_base@,
            session.upload_base@,
            buckets,
            held,
            steps,
            events,
            text::views(session.buckets@),
            found.0,
            found.1,
        ),
{
    let n = session.buckets@.len() as int;
    let run = n + 1;
    acquisition_goes_on(session, steps, events, n);
    assert(leads_to(steps[n], events[n], steps[n + 1]));
    assert(succeeds(events[n]));
    the_locks_enclose_the_operation(session, steps, events, run);
    let reached = session_of(steps[run]).unwrap();
    let locks = reached.locks@;
    let missing = text::views(session.buckets@);
    assert(leads_to(steps[run], events[run], steps[run + 1]));
    let result = events[run]->Finished_0;
    release_keeps_the_result(reached, steps, events, run, result, n);
    assert(missing.len() == n);
    assert forall|i: int| 0 <= i < n implies missing[i] == #[trigger] session.buckets@[i]@ by {}
    (locks, result)
}

/// The step asks for the deletion of the lock, at its generation.
pub open spec fn deletes_lock(step: LockStep, api_base: Seq<char>, lock: BucketLock) -> bool {
    step matches LockStep::Send(_, request) && request.deletes(
        api_base,
        lock.object@,
        lock.generation@,
    )
}

/// The whole run of a session that locks the missing buckets: the creations, the
/// operation, the deletions, and the end, step by step.
pub open spec fn locked_around(
    api_base: Seq<char>,
    upload_base: Seq<char>,
    buckets: Seq<Seq<char>>,
    held: Seq<Seq<char>>,
    steps: Seq<LockStep>,
    events: Seq<LockEvent>,
    missing: Seq<Seq<char>>,
    locks: Seq<BucketLock>,
    result: Result<(), AppError>,
) -> bool {
    let n = missing.len() as int;
    let run = n + 1;
    &&& text::ordered(missing)
    &&& forall|bucket: Seq<char>| #[trigger]
        missing.contains(bucket) <==> buckets.contains(bucket) && !held.contains(bucket)
    &&& locks.len() == n
    &&& steps.len() == run + 4 + 2 * n
    &&& forall|i: int|
        0 <= i < n ==> {
            &&& asks_to_create(#[trigger] steps[i], upload_base, missing[i])
            &&& acknowledges(steps[i], events[i], locks[i].generation@)
            &&& locks[i].object@ == bucket_lock::lock_of(missing[i])
        }
    &&& steps[n] is Register
    &&& steps[run] is Run
    &&& events[run] == LockEvent::Finished(result)
    &&& steps[run + 1] is Deregister
    &&& steps[run + 2] is ClearInterrupt
    &&& forall|j: int|
        0 <= j < n ==> deletes_lock(
            #[trigger] steps[run + 4 + 2 * j],
            api_base,
            locks[n - 1 - j],
        ) && steps[run + 3 + 2 * j] is ClearInterrupt
    &&& steps.last() == LockStep::Done(result)
}

/// Where every bucket is held already, the session takes no step of its own: no lock
/// is created or deleted, and the operation is run as it is.
pub proof fn held_buckets_are_left_alone(
    api_base: Seq<char>,
    upload_base: Seq<char>,
    buckets: Seq<Seq<char>>,
    held: Seq<Seq<char>>,
    steps: Seq<LockStep>,
    events: Seq<LockEvent>,
)
    requires
        is_run(steps, events),
        bucket_lock::begins(api_base, upload_base, buckets, held, steps[0]),
        forall|bucket: Seq<char>| buckets.contains(bucket) ==> #[trigger] held.contains(bucket),
    ensures
        steps.len() == 1,
        steps[0] is RunHeld,
{
    if events.len() > 0 {
        assert(leads_to(steps[0], events[0], steps[1]));
    }
}

} // verus!
