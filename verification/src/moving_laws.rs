//! How an object is moved, answer by answer.
use vstd::prelude::*;

use crate::copy_object::CopyObject;
use crate::error::AppError;
use crate::object_path::ObjectPath;
use crate::object_path::ObjectPathView;
use crate::object_state::ObjectState;
use crate::relocation;
use crate::relocation::MoveObject;
use crate::relocation::Purpose;
use crate::relocation::Relocation;
use crate::relocation::RelocationStage;
use crate::relocation::RollbackObject;
use crate::request_laws;
use crate::storage_request;
use crate::storage_request::Payload;
use crate::storage_request::Step;
use crate::storage_request::StorageRequest;
use crate::text;

verus! {

/// The conditions of a copy that replaces nothing and takes one generation.
pub open spec fn guards(generation: Seq<char>) -> Seq<(Seq<char>, Seq<char>)> {
    seq![
        ("sourceGeneration"@, generation),
        ("ifSourceGenerationMatch"@, generation),
        ("ifGenerationMatch"@, "0"@),
    ]
}

/// The request begins to copy one generation of an object to a name that nothing has.
pub open spec fn begins_to_copy(
    request: StorageRequest,
    base: Seq<char>,
    from: ObjectPathView,
    to: ObjectPathView,
    generation: Seq<char>,
) -> bool {
    request_laws::copies(request, base, from, to, guards(generation))
}

/// The answer shows the object at the generation.
pub open spec fn shows(answer: Result<Payload, AppError>, generation: Seq<char>) -> bool {
    answer matches Ok(Payload::Metadata(metadata)) && metadata.generation@ == generation
}

/// A failure after a request, in which a missing token is marked as such.
pub open spec fn later(error: AppError) -> AppError {
    match error {
        AppError::Token(cause, _) => AppError::Token(cause, true),
        _ => error,
    }
}

/// Only an operator can resolve what became of the copy.
pub open spec fn asks_for_recovery(
    relocation: Relocation,
    generation: Seq<char>,
    step: Step<Relocation, String>,
) -> bool {
    &&& step matches Step::Done(Err(AppError::Recovery { paths, operation, details }))
    &&& paths@ == text::quoted("gs://"@ + relocation.to.bucket@ + "/"@ + relocation.to.object@)
    &&& operation@ == match relocation.purpose {
        Purpose::Move => "move object"@,
        Purpose::Rollback => "rollback object"@,
    }
    &&& ("Expected generation "@ + generation + "; "@).is_prefix_of(details@)
}

/// The relocation waits for its next answer, after the request.
pub open spec fn waits(
    relocation: Relocation,
    stage: RelocationStage,
    step: Step<Relocation, String>,
) -> bool {
    step matches Step::Send(next, _) && next == (Relocation { stage, ..relocation })
}

/// What a relocation makes of an answer. A copy goes on until it is finished, is looked
/// up at its generation, and only then the original is removed, at the generation that
/// was copied. The relocation ends with the generation of the copy where the original is
/// then missing and the copy still there.
pub open spec fn relocates(
    relocation: Relocation,
    answer: Result<Payload, AppError>,
    step: Step<Relocation, String>,
) -> bool {
    let base = relocation.api_base@;
    let from = relocation.from@;
    let to = relocation.to@;
    match relocation.stage {
        RelocationStage::Copying(_) => match answer {
            Err(error) => step matches Step::Done(Err(told)) && (told == error || told == later(
                error,
            )),
            Ok(payload) => {
                let rewrite = payload->Rewrite_0;
                if rewrite.done && rewrite.generation is Some {
                    &&& waits(
                        relocation,
                        RelocationStage::ConfirmingCopy { to_generation: rewrite.generation->0 },
                        step,
                    )
                    &&& request_laws::reads(step->Send_1, base, to)
                } else if !rewrite.done && rewrite.rewrite_token is Some {
                    &&& step matches Step::Send(next, request)
                    &&& next.stage is Copying
                    &&& next == (Relocation { stage: next.stage, ..relocation })
                    &&& request_laws::copies(
                        request,
                        base,
                        from,
                        to,
                        guards(relocation.from_generation@).push(
                            ("rewriteToken"@, rewrite.rewrite_token->0@),
                        ),
                    )
                } else {
                    step matches Step::Done(Err(AppError::StorageResponse(_)))
                }
            },
        },
        RelocationStage::ConfirmingCopy { to_generation } => if shows(answer, to_generation@) {
            &&& waits(relocation, RelocationStage::Deleting { to_generation }, step)
            &&& request_laws::removes(step->Send_1, base, from, relocation.from_generation@)
        } else {
            asks_for_recovery(relocation, to_generation@, step)
        },
        RelocationStage::Deleting { to_generation } => match answer {
            Ok(_) => {
                &&& waits(relocation, RelocationStage::CheckingOriginal { to_generation }, step)
                &&& request_laws::reads(step->Send_1, base, from)
            },
            Err(error) => step == Step::<Relocation, String>::Done(Err(later(error))),
        },
        RelocationStage::CheckingOriginal { to_generation } => if answer is Ok
            || request_laws::says_missing(answer) {
            &&& waits(
                relocation,
                RelocationStage::ConfirmingRelocation {
                    to_generation,
                    original: if answer is Ok {
                        ObjectState::Present
                    } else {
                        ObjectState::Missing
                    },
                },
                step,
            )
            &&& request_laws::reads(step->Send_1, base, to)
        } else {
            step == Step::<Relocation, String>::Done(Err(later(answer->Err_0)))
        },
        RelocationStage::ConfirmingRelocation { to_generation, original } => if !shows(
            answer,
            to_generation@,
        ) {
            asks_for_recovery(relocation, to_generation@, step)
        } else if original == ObjectState::Missing {
            step == Step::<Relocation, String>::Done(Ok(to_generation))
        } else {
            let uri = "gs://"@ + relocation.from.bucket@ + "/"@ + relocation.from.object@;
            step matches Step::Done(Err(AppError::Message(message))) && message@
                == match relocation.purpose {
                Purpose::Move => "Source object remains after moving "@ + uri,
                Purpose::Rollback => "Rollback target remains: "@ + uri,
            }
        },
    }
}

/// Every step of a relocation follows from the answer before it.
pub proof fn a_relocation_goes_by_its_answers(
    relocation: Relocation,
    answer: Result<Payload, AppError>,
    step: Step<Relocation, String>,
)
    requires
        relocation.wf(),
        storage_request::answers(answer, relocation.expects()),
        relocation.continues(answer, step),
    ensures
        relocates(relocation, answer, step),
{
    let base = relocation.api_base@;
    if let Step::Send(_, request) = step {
        request_laws::plain_requests_name_their_object(
            request,
            base,
            relocation.from@,
            relocation.from_generation@,
        );
        request_laws::plain_requests_name_their_object(
            request,
            base,
            relocation.to@,
            relocation.from_generation@,
        );
    }
    if let RelocationStage::Copying(copy) = relocation.stage {
        let rewrite = storage_request::rewrite_in(answer);
        let copied = choose|copied: Step<CopyObject, String>| #[trigger]
            copy.continues(rewrite, copied) && match copied {
                Step::Send(next_copy, request) => step == Step::<Relocation, String>::Send(
                    relocation.at(RelocationStage::Copying(next_copy)),
                    request,
                ),
                Step::Done(Err(error)) => step == Step::<Relocation, String>::Done(Err(error)),
                Step::Done(Ok(to_generation)) => relocation.looks_up(
                    step,
                    RelocationStage::ConfirmingCopy { to_generation },
                    relocation.to@,
                ),
            };
        if let Step::Send(next_copy, request) = copied {
            let token = rewrite->Ok_0.rewrite_token->0@;
            request_laws::every_copy_request_carries_its_conditions(
                next_copy,
                request,
                Some(token),
            );
            assert(request_laws::copy_pairs(next_copy, Some(token)) =~= guards(
                relocation.from_generation@,
            ).push(("rewriteToken"@, token)));
        }
    }
}

/// The relocation begins with the copy of the generation to a name that nothing has.
pub proof fn a_relocation_begins_with_its_copy(
    relocation: Relocation,
    copy: CopyObject,
    request: StorageRequest,
)
    requires
        relocation.wf(),
        relocation.stage == RelocationStage::Copying(copy),
        copy.requests(request, None),
    ensures
        begins_to_copy(
            request,
            relocation.api_base@,
            relocation.from@,
            relocation.to@,
            relocation.from_generation@,
        ),
{
    request_laws::every_copy_request_carries_its_conditions(copy, request, None);
    assert(request_laws::copy_pairs(copy, None) =~= guards(relocation.from_generation@));
}

/// A move whose generation is not known takes the one that its source has, and is then a
/// relocation from the source to the target. Where the source cannot be looked up it ends
/// with that failure.
pub proof fn a_move_goes_by_its_answers(
    moving: MoveObject,
    answer: Result<Payload, AppError>,
    step: Step<MoveObject, String>,
)
    requires
        moving.wf(),
        storage_request::answers(answer, moving.expects()),
        moving.continues(answer, step),
    ensures
        match moving {
            MoveObject::LookingUp { api_base, source, target } => match answer {
                Ok(payload) => {
                    &&& step matches Step::Send(MoveObject::Relocating(relocation), request)
                    &&& relocation.purpose == Purpose::Move
                    &&& relocation.from == source
                    &&& relocation.to == target
                    &&& relocation.api_base == api_base
                    &&& relocation.from_generation@ == payload->Metadata_0.generation@
                    &&& begins_to_copy(
                        request,
                        api_base@,
                        source@,
                        target@,
                        payload->Metadata_0.generation@,
                    )
                },
                Err(error) => step == Step::<MoveObject, String>::Done(Err(error)),
            },
            MoveObject::Relocating(relocation) => exists|inner: Step<Relocation, String>|
                #[trigger] relocates(relocation, answer, inner) && match inner {
                    Step::Send(next, request) => step == Step::<MoveObject, String>::Send(
                        MoveObject::Relocating(next),
                        request,
                    ),
                    Step::Done(outcome) => step == Step::<MoveObject, String>::Done(outcome),
                },
        },
{
    match moving {
        MoveObject::LookingUp { .. } => {
            if let Step::Send(MoveObject::Relocating(relocation), request) = step {
                a_relocation_begins_with_its_copy(
                    relocation,
                    relocation.stage->Copying_0,
                    request,
                );
            }
        },
        MoveObject::Relocating(relocation) => {
            let inner = choose|inner: Step<Relocation, String>| #[trigger]
                relocation.continues(answer, inner) && match inner {
                    Step::Send(next, request) => step == Step::<MoveObject, String>::Send(
                        MoveObject::Relocating(next),
                        request,
                    ),
                    Step::Done(outcome) => step == Step::<MoveObject, String>::Done(outcome),
                };
            a_relocation_goes_by_its_answers(relocation, answer, inner);
        },
    }
}

/// The undoing of a move looks whether the source is missing and whether the target is
/// there at its generation. Only where both hold it relocates the target, at that
/// generation, back to the source.
pub proof fn a_rollback_goes_by_its_answers(
    rollback: RollbackObject,
    answer: Result<Payload, AppError>,
    step: Step<RollbackObject, String>,
)
    requires
        rollback.wf(),
        storage_request::answers(answer, rollback.expects()),
        rollback.continues(answer, step),
    ensures
        match rollback {
            RollbackObject::CheckingSource { api_base, source, target, target_generation } =>
                if request_laws::says_missing(answer) {
                &&& step matches Step::Send(next, request)
                &&& next == (RollbackObject::CheckingTarget {
                    api_base,
                    source,
                    target,
                    target_generation,
                })
                &&& request_laws::reads_generation(
                    request,
                    api_base@,
                    target@,
                    target_generation@,
                )
            } else if answer is Ok {
                step matches Step::Done(Err(AppError::Message(_)))
            } else {
                step == Step::<RollbackObject, String>::Done(Err(answer->Err_0))
            },
            RollbackObject::CheckingTarget { api_base, source, target, target_generation } =>
                if answer is Ok {
                &&& step matches Step::Send(RollbackObject::Relocating(relocation), request)
                &&& relocation.purpose == Purpose::Rollback
                &&& relocation.from == target
                &&& relocation.to == source
                &&& relocation.api_base == api_base
                &&& relocation.from_generation == target_generation
                &&& begins_to_copy(request, api_base@, target@, source@, target_generation@)
            } else if request_laws::says_missing(answer) {
                step matches Step::Done(Err(AppError::Message(_)))
            } else {
                step == Step::<RollbackObject, String>::Done(Err(answer->Err_0))
            },
            RollbackObject::Relocating(relocation) => exists|inner: Step<Relocation, String>|
                #[trigger] relocates(relocation, answer, inner) && match inner {
                    Step::Send(next, request) => step == Step::<RollbackObject, String>::Send(
                        RollbackObject::Relocating(next),
                        request,
                    ),
                    Step::Done(outcome) => step == Step::<RollbackObject, String>::Done(outcome),
                },
        },
{
    match rollback {
        RollbackObject::CheckingSource { api_base, target, target_generation, .. } => {
            if let Step::Send(_, request) = step {
                request_laws::plain_requests_name_their_object(
                    request,
                    api_base@,
                    target@,
                    target_generation@,
                );
            }
        },
        RollbackObject::CheckingTarget { .. } => {
            if let Step::Send(RollbackObject::Relocating(relocation), request) = step {
                a_relocation_begins_with_its_copy(
                    relocation,
                    relocation.stage->Copying_0,
                    request,
                );
            }
        },
        RollbackObject::Relocating(relocation) => {
            let inner = choose|inner: Step<Relocation, String>| #[trigger]
                relocation.continues(answer, inner) && match inner {
                    Step::Send(next, request) => step == Step::<RollbackObject, String>::Send(
                        RollbackObject::Relocating(next),
                        request,
                    ),
                    Step::Done(outcome) => step == Step::<RollbackObject, String>::Done(outcome),
                };
            a_relocation_goes_by_its_answers(relocation, answer, inner);
        },
    }
}

/// A move with a known generation begins with the copy of that generation, one without
/// with a look at its source.
pub proof fn a_move_begins_as_it_is_told(
    started: (Relocation, StorageRequest),
    base: String,
    source: ObjectPath,
    target: ObjectPath,
    generation: Seq<char>,
)
    requires
        relocation::begins_move(started, base, source, target, generation),
    ensures
        begins_to_copy(started.1, base@, source@, target@, generation),
        started.0.from == source,
        started.0.to == target,
{
    a_relocation_begins_with_its_copy(started.0, started.0.stage->Copying_0, started.1);
}

} // verus!
