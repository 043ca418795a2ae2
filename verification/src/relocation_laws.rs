//! What holds of every relocation, whatever Cloud Storage replies.
use vstd::prelude::*;

use crate::copy_object;
use crate::copy_object::CopyObject;
use crate::error::AppError;
use crate::object_state;
use crate::object_state::ObjectState;
use crate::relocation::Relocation;
use crate::relocation::RelocationStage;
use crate::relocation::RollbackObject;
use crate::storage_request;
use crate::storage_request::HttpMethod;
use crate::storage_request::Payload;
use crate::storage_request::Step;
use crate::storage_request::StorageRequest;
use crate::storage_url;

verus! {

/// A relocation deletes the original only where a lookup just showed the copy at
/// the generation that was copied, and it deletes nothing but the generation of
/// the original that was copied.
pub proof fn the_original_outlives_an_unconfirmed_copy(
    relocation: Relocation,
    reply: Result<Payload, AppError>,
    step: Step<Relocation, String>,
)
    requires
        relocation.continues(reply, step),
        step matches Step::Send(_, request) && request.method == HttpMethod::Delete,
    ensures
        relocation.stage matches RelocationStage::ConfirmingCopy { to_generation }
            && object_state::shows_generation(storage_request::metadata_in(reply), to_generation@),
        (step->Send_1).deletes(
            relocation.api_base@,
            relocation.from@,
            relocation.from_generation@,
        ),
{
    if let RelocationStage::Copying(copy) = relocation.stage {
        copying_only_rewrites(relocation, copy, reply, step);
    }
}

/// While the copy is being made only rewrite requests are sent.
proof fn copying_only_rewrites(
    relocation: Relocation,
    copy: CopyObject,
    reply: Result<Payload, AppError>,
    step: Step<Relocation, String>,
)
    requires
        relocation.continues(reply, step),
        relocation.stage == RelocationStage::Copying(copy),
    ensures
        step matches Step::Send(next, request) ==> {
            &&& request.method != HttpMethod::Delete
            &&& next.stage is Copying || next.stage is ConfirmingCopy
        },
        step matches Step::Done(outcome) ==> outcome is Err,
{
    let copied = choose|copied: Step<CopyObject, String>| #[trigger]
        copy.continues(storage_request::rewrite_in(reply), copied) && match copied {
            Step::Send(next_copy, request) => step == Step::<Relocation, String>::Send(
                relocation.at(RelocationStage::Copying(next_copy)),
                request,
            ),
            Step::Done(Err(error)) => step == Step::<Relocation, String>::Done(Err(error)),
            Step::Done(Ok(to_generation)) => relocation.looks_up(
                step,
                RelocationStage::ConfirmingCopy { to_generation },
                relocation.to@,
            ),
        };
    assert(copy.continues(storage_request::rewrite_in(reply), copied));
}

/// A relocation from its start to its end: the states it goes through, the
/// replies it gets, and what it does on each.
pub open spec fn is_relocation(
    states: Seq<Relocation>,
    replies: Seq<Result<Payload, AppError>>,
    steps: Seq<Step<Relocation, String>>,
) -> bool {
    &&& states.len() > 0
    &&& states.len() == replies.len()
    &&& states.len() == steps.len()
    &&& states[0].stage is Copying
    &&& forall|i: int| 0 <= i < states.len() ==> (#[trigger] states[i]).continues(replies[i], steps[i])
    &&& forall|i: int|
        0 <= i < states.len() - 1 ==> (#[trigger] steps[i] matches Step::Send(next, _) && next
            == states[i + 1])
    &&& steps.last() is Done
}

/// A relocation that succeeds returns the generation of the copy, and its last
/// four replies were: the copy at that generation, the acknowledged deletion of
/// the original, the original missing, and the copy still at that generation.
pub proof fn success_leaves_the_copy_alone(
    states: Seq<Relocation>,
    replies: Seq<Result<Payload, AppError>>,
    steps: Seq<Step<Relocation, String>>,
    generation: String,
)
    requires
        is_relocation(states, replies, steps),
        steps.last() == Step::<Relocation, String>::Done(Ok(generation)),
    ensures
        ({
            let last = states.len() - 1;
            &&& last >= 4
            &&& object_state::shows_generation(
                storage_request::metadata_in(replies[last - 3]),
                generation@,
            )
            &&& steps[last - 3] matches Step::Send(_, request) && request.deletes(
                states[last - 3].api_base@,
                states[last - 3].from@,
                states[last - 3].from_generation@,
            )
            &&& replies[last - 2] is Ok
            &&& object_state::state_in(storage_request::metadata_in(replies[last - 1])) == Ok::<
                ObjectState,
                AppError,
            >(ObjectState::Missing)
            &&& object_state::shows_generation(
                storage_request::metadata_in(replies[last]),
                generation@,
            )
        }),
{
    let last = states.len() - 1;
    assert(states[last].continues(replies[last], steps[last]));
    if let RelocationStage::Copying(copy) = states[last].stage {
        copying_only_rewrites(states[last], copy, replies[last], steps[last]);
    }
    assert(states[last].stage == RelocationStage::ConfirmingRelocation {
        to_generation: generation,
        original: ObjectState::Missing,
    });
    came_from(states, replies, steps, last);
    assert(states[last - 1].stage == RelocationStage::CheckingOriginal {
        to_generation: generation,
    });
    came_from(states, replies, steps, last - 1);
    assert(states[last - 2].stage == RelocationStage::Deleting { to_generation: generation });
    came_from(states, replies, steps, last - 2);
    assert(states[last - 3].stage == RelocationStage::ConfirmingCopy { to_generation: generation });
    came_from(states, replies, steps, last - 3);
}

/// Every stage has one stage that leads to it.
proof fn came_from(
    states: Seq<Relocation>,
    replies: Seq<Result<Payload, AppError>>,
    steps: Seq<Step<Relocation, String>>,
    at: int,
)
    requires
        is_relocation(states, replies, steps),
        0 <= at < states.len(),
        !(states[at].stage is Copying),
    ensures
        at > 0,
        states[at - 1].continues(replies[at - 1], steps[at - 1]),
        steps[at - 1] matches Step::Send(next, _) && next == states[at],
        match states[at].stage {
            RelocationStage::ConfirmingCopy { .. } => states[at - 1].stage is Copying,
            RelocationStage::Deleting { to_generation } => states[at - 1].stage
                == (RelocationStage::ConfirmingCopy { to_generation }),
            RelocationStage::CheckingOriginal { to_generation } => states[at - 1].stage
                == (RelocationStage::Deleting { to_generation }),
            RelocationStage::ConfirmingRelocation { to_generation, .. } => states[at - 1].stage
                == (RelocationStage::CheckingOriginal { to_generation }),
            RelocationStage::Copying(_) => true,
        },
{
    let before = states[at - 1];
    assert(steps[at - 1] is Send);
    assert(before.continues(replies[at - 1], steps[at - 1]));
    if let RelocationStage::Copying(copy) = before.stage {
        copying_only_rewrites(before, copy, replies[at - 1], steps[at - 1]);
    }
}

/// Undoing a move writes only after lookups showed the source missing and the
/// target at the generation that the move made: until then it only reads.
pub proof fn undoing_a_move_reads_before_it_writes(
    rollback: RollbackObject,
    reply: Result<Payload, AppError>,
    step: Step<RollbackObject, String>,
)
    requires
        rollback.continues(reply, step),
    ensures
        rollback is CheckingSource ==> (step matches Step::Send(next, request) ==> {
            &&& request.method == HttpMethod::Get
            &&& next is CheckingTarget
            &&& object_state::state_in(storage_request::metadata_in(reply)) == Ok::<
                ObjectState,
                AppError,
            >(ObjectState::Missing)
        }),
        rollback is CheckingTarget ==> (step matches Step::Send(next, request) ==> {
            object_state::state_in(storage_request::metadata_in(reply)) == Ok::<
                ObjectState,
                AppError,
            >(ObjectState::Present)
        }),
{
}

/// The rewrite of the generation that is relocated, to a name that must not exist
/// yet, from the start or from a token on.
pub open spec fn guarded_rewrite(relocation: Relocation, rewrite_token: Option<Seq<char>>) -> Seq<char> {
    storage_url::queried(
        storage_url::rewrite(relocation.api_base@, relocation.from@, relocation.to@),
        copy_object::rewrite_pairs(
            Some(relocation.from_generation@),
            Some("0"@),
            rewrite_token,
        ),
    )
}

/// Whatever a relocation writes, it reads the generation that is relocated and
/// replaces nothing: every other request of it reads, or deletes the original.
pub proof fn a_relocation_replaces_nothing(
    relocation: Relocation,
    reply: Result<Payload, AppError>,
    step: Step<Relocation, String>,
)
    requires
        relocation.wf(),
        relocation.continues(reply, step),
        step matches Step::Send(_, request) && request.method == HttpMethod::Post,
    ensures
        exists|rewrite_token: Option<Seq<char>>|
            (step->Send_1).url@ == #[trigger] guarded_rewrite(relocation, rewrite_token),
{
    if let RelocationStage::Copying(copy) = relocation.stage {
        let copied = choose|copied: Step<CopyObject, String>| #[trigger]
            copy.continues(storage_request::rewrite_in(reply), copied) && match copied {
                Step::Send(next_copy, request) => step == Step::<Relocation, String>::Send(
                    relocation.at(RelocationStage::Copying(next_copy)),
                    request,
                ),
                Step::Done(Err(error)) => step == Step::<Relocation, String>::Done(Err(error)),
                Step::Done(Ok(to_generation)) => relocation.looks_up(
                    step,
                    RelocationStage::ConfirmingCopy { to_generation },
                    relocation.to@,
                ),
            };
        assert(copy.continues(storage_request::rewrite_in(reply), copied));
        let token = storage_request::rewrite_in(reply)->Ok_0.rewrite_token->Some_0;
        assert((step->Send_1).url@ == guarded_rewrite(relocation, Some(token@)));
    }
}

/// The first request of a relocation replaces nothing either.
pub proof fn a_relocation_starts_guarded(
    relocation: Relocation,
    copy: CopyObject,
    request: StorageRequest,
)
    requires
        relocation.wf(),
        relocation.stage == RelocationStage::Copying(copy),
        copy.requests(request, None),
    ensures
        request.url@ == guarded_rewrite(relocation, None),
{
}

} // verus!
