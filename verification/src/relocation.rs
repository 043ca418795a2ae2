//! Moving an object, and moving it back.
//!
//! Cloud Storage has no atomic move, so an object is copied, the copy is
//! confirmed, the original is deleted at the generation that was copied, and
//! both are looked up once more.
use vstd::prelude::*;

use crate::copy_object::CopyObject;
use crate::error::AppError;
use crate::object_path::ObjectPath;
use crate::object_path::ObjectPathView;
use crate::object_state;
use crate::object_state::ObjectState;
use crate::storage_request;
use crate::storage_request::Payload;
use crate::storage_request::ReplyKind;
use crate::storage_request::Step;
use crate::storage_request::StorageRequest;

verus! {

/// Why an object is relocated.
#[derive(Clone, Copy, Debug, PartialEq, Eq, Structural)]
pub enum Purpose {
    Move,
    Rollback,
}

impl Purpose {
    /// The operation that a recovery error names.
    pub open spec fn operation(self) -> Seq<char> {
        match self {
            Purpose::Move => "move object"@,
            Purpose::Rollback => "rollback object"@,
        }
    }

    fn operation_text(self) -> (operation: &'static str)
        ensures
            operation@ == self.operation(),
    {
        match self {
            Purpose::Move => "move object",
            Purpose::Rollback => "rollback object",
        }
    }

    /// The complaint about an original that is still there after its deletion.
    pub open spec fn leftover(self, from: ObjectPathView) -> Seq<char> {
        match self {
            Purpose::Move => "Source object remains after moving "@ + from.uri(),
            Purpose::Rollback => "Rollback target remains: "@ + from.uri(),
        }
    }

    fn leftover_text(self, from: &ObjectPath) -> (complaint: String)
        ensures
            complaint@ == self.leftover(from@),
    {
        match self {
            Purpose::Move => "Source object remains after moving ".to_string().concat(
                from.uri().as_str(),
            ),
            Purpose::Rollback => "Rollback target remains: ".to_string().concat(
                from.uri().as_str(),
            ),
        }
    }
}

/// A relocation that is waiting for the reply to its latest request.
#[derive(Debug)]
pub struct Relocation {
    pub api_base: String,
    pub purpose: Purpose,
    pub from: ObjectPath,
    pub to: ObjectPath,
    /// The generation of the original that is copied, and the only one deleted.
    pub from_generation: String,
    pub stage: RelocationStage,
}

#[derive(Debug)]
pub enum RelocationStage {
    Copying(CopyObject),
    /// The copy was made at this generation.
    ConfirmingCopy { to_generation: String },
    /// The copy was confirmed.
    Deleting { to_generation: String },
    /// The original was deleted.
    CheckingOriginal { to_generation: String },
    /// The original was looked up after its deletion.
    ConfirmingRelocation { to_generation: String, original: ObjectState },
}

impl Relocation {
    /// The kind of reply that the relocation is waiting for.
    pub open spec fn expects(self) -> ReplyKind {
        match self.stage {
            RelocationStage::Copying(_) => ReplyKind::Rewrite,
            RelocationStage::Deleting { .. } => ReplyKind::Body,
            _ => ReplyKind::Metadata,
        }
    }

    /// The copy at the heart of the relocation: of one generation of the
    /// original, to a name that must not exist yet.
    pub open spec fn is_own_copy(self, copy: CopyObject) -> bool {
        &&& copy.api_base@ == self.api_base@
        &&& copy.source@ == self.from@
        &&& copy.target@ == self.to@
        &&& copy.source_generation matches Some(generation) && generation@ == self.from_generation@
        &&& copy.destination_generation matches Some(generation) && generation@ == "0"@
    }

    /// Whether the stage belongs to this relocation.
    pub open spec fn wf(self) -> bool {
        self.stage matches RelocationStage::Copying(copy) ==> self.is_own_copy(copy)
    }

    /// The relocation at another stage.
    pub open spec fn at(self, stage: RelocationStage) -> Relocation {
        Relocation { stage, ..self }
    }

    /// Begins a relocation with a copy that neither reads another generation of
    /// the original nor replaces anything.
    pub fn start(
        api_base: String,
        purpose: Purpose,
        from: ObjectPath,
        to: ObjectPath,
        from_generation: String,
    ) -> (started: (Self, StorageRequest))
        ensures
            started.0.wf(),
            started.0 == (Relocation {
                api_base,
                purpose,
                from,
                to,
                from_generation,
                stage: started.0.stage,
            }),
            started.0.stage matches RelocationStage::Copying(copy) && !copy.request_sent
                && copy.requests(started.1, None),
    {
        let (copy, request) = CopyObject::start(
            api_base.clone(),
            from.clone(),
            to.clone(),
            Some(from_generation.clone()),
            Some("0".to_string()),
        );
        (
            Relocation {
                api_base,
                purpose,
                from,
                to,
                from_generation,
                stage: RelocationStage::Copying(copy),
            },
            request,
        )
    }

    /// The relocation asks for the current metadata of an object.
    pub open spec fn looks_up(
        self,
        step: Step<Relocation, String>,
        stage: RelocationStage,
        object: ObjectPathView,
    ) -> bool {
        &&& step matches Step::Send(next, request)
        &&& next == self.at(stage)
        &&& request.looks_up(self.api_base@, object)
    }

    /// What a relocation does on a reply.
    pub open spec fn continues(
        self,
        reply: Result<Payload, AppError>,
        step: Step<Relocation, String>,
    ) -> bool {
        match self.stage {
            RelocationStage::Copying(copy) => exists|copied: Step<CopyObject, String>| #[trigger]
                copy.continues(storage_request::rewrite_in(reply), copied) && match copied {
                    Step::Send(next_copy, request) => step == Step::<Relocation, String>::Send(
                        self.at(RelocationStage::Copying(next_copy)),
                        request,
                    ),
                    Step::Done(Err(error)) => step == Step::<Relocation, String>::Done(Err(error)),
                    Step::Done(Ok(to_generation)) => self.looks_up(
                        step,
                        RelocationStage::ConfirmingCopy { to_generation },
                        self.to@,
                    ),
                },
            RelocationStage::ConfirmingCopy { to_generation } => {
                let lookup = storage_request::metadata_in(reply);
                if object_state::shows_generation(lookup, to_generation@) {
                    &&& step matches Step::Send(next, request)
                    &&& next == self.at(RelocationStage::Deleting { to_generation })
                    &&& request.deletes(self.api_base@, self.from@, self.from_generation@)
                } else {
                    self.rejects_copy(step, to_generation@, reply)
                }
            },
            RelocationStage::Deleting { to_generation } => match reply {
                Ok(_) => self.looks_up(
                    step,
                    RelocationStage::CheckingOriginal { to_generation },
                    self.from@,
                ),
                Err(error) => step == Step::<Relocation, String>::Done(Err(error.after_request())),
            },
            RelocationStage::CheckingOriginal { to_generation } => match object_state::state_in(
                storage_request::metadata_in(reply),
            ) {
                Ok(original) => self.looks_up(
                    step,
                    RelocationStage::ConfirmingRelocation { to_generation, original },
                    self.to@,
                ),
                Err(error) => step == Step::<Relocation, String>::Done(Err(error.after_request())),
            },
            RelocationStage::ConfirmingRelocation { to_generation, original } => {
                let lookup = storage_request::metadata_in(reply);
                if !object_state::shows_generation(lookup, to_generation@) {
                    self.rejects_copy(step, to_generation@, reply)
                } else if original == ObjectState::Missing {
                    step == Step::<Relocation, String>::Done(Ok(to_generation))
                } else {
                    &&& step matches Step::Done(Err(AppError::Message(message)))
                    &&& message@ == self.purpose.leftover(self.from@)
                }
            },
        }
    }

    /// The copy is not where it was made, which only an operator can resolve.
    pub open spec fn rejects_copy(
        self,
        step: Step<Relocation, String>,
        to_generation: Seq<char>,
        reply: Result<Payload, AppError>,
    ) -> bool {
        &&& step matches Step::Done(Err(error))
        &&& object_state::not_at_generation(
            error,
            self.to@,
            to_generation,
            self.purpose.operation(),
            storage_request::metadata_in(reply),
        )
    }

    /// Continues a relocation with the reply to its latest request.
    pub fn resume(self, reply: Result<Payload, AppError>) -> (step: Step<Relocation, String>)
        requires
            self.wf(),
            storage_request::answers(reply, self.expects()),
        ensures
            self.continues(reply, step),
            step matches Step::Send(next, request) ==> next.wf() && request.reply == next.expects(),
    {
        let Relocation { api_base, purpose, from, to, from_generation, stage } = self;
        match stage {
            RelocationStage::Copying(copy) => {
                let copied = copy.resume(storage_request::into_rewrite(reply));
                assert(copy.continues(storage_request::rewrite_in(reply), copied));
                match copied {
                    Step::Send(next_copy, request) => Step::Send(
                        Relocation {
                            api_base,
                            purpose,
                            from,
                            to,
                            from_generation,
                            stage: RelocationStage::Copying(next_copy),
                        },
                        request,
                    ),
                    Step::Done(Err(error)) => Step::Done(Err(error)),
                    Step::Done(Ok(to_generation)) => {
                        let request = StorageRequest::look_up(api_base.as_str(), &to);
                        Step::Send(
                            Relocation {
                                api_base,
                                purpose,
                                from,
                                to,
                                from_generation,
                                stage: RelocationStage::ConfirmingCopy { to_generation },
                            },
                            request,
                        )
                    },
                }
            },
            RelocationStage::ConfirmingCopy { to_generation } => {
                match object_state::confirm_object_generation(
                    &to,
                    to_generation.as_str(),
                    purpose.operation_text(),
                    storage_request::into_metadata(reply),
                ) {
                    Ok(()) => {
                        let request = StorageRequest::delete(
                            api_base.as_str(),
                            &from,
                            from_generation.as_str(),
                        );
                        Step::Send(
                            Relocation {
                                api_base,
                                purpose,
                                from,
                                to,
                                from_generation,
                                stage: RelocationStage::Deleting { to_generation },
                            },
                            request,
                        )
                    },
                    Err(error) => Step::Done(Err(error)),
                }
            },
            RelocationStage::Deleting { to_generation } => match reply {
                Ok(_) => {
                    let request = StorageRequest::look_up(api_base.as_str(), &from);
                    Step::Send(
                        Relocation {
                            api_base,
                            purpose,
                            from,
                            to,
                            from_generation,
                            stage: RelocationStage::CheckingOriginal { to_generation },
                        },
                        request,
                    )
                },
                Err(error) => Step::Done(Err(error.mark_reached_storage())),
            },
            RelocationStage::CheckingOriginal { to_generation } => {
                match object_state::object_state(storage_request::into_metadata(reply)) {
                    Ok(original) => {
                        let request = StorageRequest::look_up(api_base.as_str(), &to);
                        Step::Send(
                            Relocation {
                                api_base,
                                purpose,
                                from,
                                to,
                                from_generation,
                                stage: RelocationStage::ConfirmingRelocation {
                                    to_generation,
                                    original,
                                },
                            },
                            request,
                        )
                    },
                    Err(error) => Step::Done(Err(error.mark_reached_storage())),
                }
            },
            RelocationStage::ConfirmingRelocation { to_generation, original } => {
                match object_state::confirm_object_generation(
                    &to,
                    to_generation.as_str(),
                    purpose.operation_text(),
                    storage_request::into_metadata(reply),
                ) {
                    Ok(()) => if original == ObjectState::Missing {
                        Step::Done(Ok(to_generation))
                    } else {
                        Step::Done(Err(AppError::Message(purpose.leftover_text(&from))))
                    },
                    Err(error) => Step::Done(Err(error)),
                }
            },
        }
    }
}

/// A move that is waiting for the reply to its latest request.
#[derive(Debug)]
pub enum MoveObject {
    /// The generation to move is being looked up.
    LookingUp { api_base: String, source: ObjectPath, target: ObjectPath },
    Relocating(Relocation),
}

/// The relocation from the source to the target of a move.
pub open spec fn begins_move(
    started: (Relocation, StorageRequest),
    api_base: String,
    source: ObjectPath,
    target: ObjectPath,
    source_generation: Seq<char>,
) -> bool {
    &&& started.0.wf()
    &&& started.0.api_base == api_base
    &&& started.0.purpose == Purpose::Move
    &&& started.0.from == source
    &&& started.0.to == target
    &&& started.0.from_generation@ == source_generation
    &&& started.0.stage matches RelocationStage::Copying(copy) && !copy.request_sent
        && copy.requests(started.1, None)
}

impl MoveObject {
    pub open spec fn expects(self) -> ReplyKind {
        match self {
            MoveObject::LookingUp { .. } => ReplyKind::Metadata,
            MoveObject::Relocating(relocation) => relocation.expects(),
        }
    }

    pub open spec fn wf(self) -> bool {
        self matches MoveObject::Relocating(relocation) ==> relocation.wf()
    }

    /// Begins a move, of the expected generation where there is one, else of
    /// the generation that a lookup shows.
    pub fn start(
        api_base: String,
        source: ObjectPath,
        target: ObjectPath,
        expected_source_generation: Option<&str>,
    ) -> (started: (Self, StorageRequest))
        ensures
            started.0.wf(),
            started.1.reply == started.0.expects(),
            match expected_source_generation {
                Some(generation) => {
                    &&& started.0 matches MoveObject::Relocating(relocation)
                    &&& begins_move(
                        (relocation, started.1),
                        api_base,
                        source,
                        target,
                        generation@,
                    )
                },
                None => {
                    &&& started.0 == (MoveObject::LookingUp { api_base, source, target })
                    &&& started.1.looks_up(api_base@, source@)
                },
            },
    {
        match expected_source_generation {
            Some(generation) => {
                let (relocation, request) = Relocation::start(
                    api_base,
                    Purpose::Move,
                    source,
                    target,
                    generation.to_string(),
                );
                (MoveObject::Relocating(relocation), request)
            },
            None => {
                let request = StorageRequest::look_up(api_base.as_str(), &source);
                (MoveObject::LookingUp { api_base, source, target }, request)
            },
        }
    }

    /// What a move does on a reply.
    pub open spec fn continues(
        self,
        reply: Result<Payload, AppError>,
        step: Step<MoveObject, String>,
    ) -> bool {
        match self {
            MoveObject::LookingUp { api_base, source, target } => match storage_request::metadata_in(
                reply,
            ) {
                Ok(metadata) => {
                    &&& step matches Step::Send(MoveObject::Relocating(relocation), request)
                    &&& begins_move(
                        (relocation, request),
                        api_base,
                        source,
                        target,
                        metadata.generation@,
                    )
                },
                Err(error) => step == Step::<MoveObject, String>::Done(Err(error)),
            },
            MoveObject::Relocating(relocation) => exists|inner: Step<Relocation, String>| #[trigger]
                relocation.continues(reply, inner) && match inner {
                    Step::Send(next, request) => step == Step::<MoveObject, String>::Send(
                        MoveObject::Relocating(next),
                        request,
                    ),
                    Step::Done(outcome) => step == Step::<MoveObject, String>::Done(outcome),
                },
        }
    }

    /// Continues a move with the reply to its latest request.
    pub fn resume(self, reply: Result<Payload, AppError>) -> (step: Step<MoveObject, String>)
        requires
            self.wf(),
            storage_request::answers(reply, self.expects()),
        ensures
            self.continues(reply, step),
            step matches Step::Send(next, request) ==> next.wf() && request.reply == next.expects(),
    {
        match self {
            MoveObject::LookingUp { api_base, source, target } => {
                match storage_request::into_metadata(reply) {
                    Ok(metadata) => {
                        let (relocation, request) = Relocation::start(
                            api_base,
                            Purpose::Move,
                            source,
                            target,
                            metadata.generation,
                        );
                        Step::Send(MoveObject::Relocating(relocation), request)
                    },
                    Err(error) => Step::Done(Err(error)),
                }
            },
            MoveObject::Relocating(relocation) => {
                let inner = relocation.resume(reply);
                assert(relocation.continues(reply, inner));
                match inner {
                    Step::Send(next, request) => Step::Send(MoveObject::Relocating(next), request),
                    Step::Done(outcome) => Step::Done(outcome),
                }
            },
        }
    }
}

/// The undoing of a move, waiting for the reply to its latest request.
#[derive(Debug)]
pub enum RollbackObject {
    /// The source must be missing.
    CheckingSource {
        api_base: String,
        source: ObjectPath,
        target: ObjectPath,
        target_generation: String,
    },
    /// The target must be present at the generation that the move made.
    CheckingTarget {
        api_base: String,
        source: ObjectPath,
        target: ObjectPath,
        target_generation: String,
    },
    Relocating(Relocation),
}

/// The objects are not as the move left them, so undoing it could destroy what
/// another writer owns.
pub open spec fn disowned(
    step: Step<RollbackObject, String>,
    source: ObjectPathView,
    target: ObjectPathView,
) -> bool {
    &&& step matches Step::Done(Err(AppError::Message(message)))
    &&& message@ == "Rollback ownership check failed for "@ + source.uri() + " and "@ + target.uri()
}

fn disown(source: &ObjectPath, target: &ObjectPath) -> (step: Step<RollbackObject, String>)
    ensures
        disowned(step, source@, target@),
{
    Step::Done(
        Err(
            AppError::Message(
                "Rollback ownership check failed for ".to_string().concat(
                    source.uri().as_str(),
                ).concat(" and ").concat(target.uri().as_str()),
            ),
        ),
    )
}

impl RollbackObject {
    pub open spec fn expects(self) -> ReplyKind {
        match self {
            RollbackObject::Relocating(relocation) => relocation.expects(),
            _ => ReplyKind::Metadata,
        }
    }

    pub open spec fn wf(self) -> bool {
        self matches RollbackObject::Relocating(relocation) ==> relocation.wf()
    }

    /// Begins to undo a move.
    pub fn start(api_base: String, source: ObjectPath, target: ObjectPath, target_generation: String) -> (started:
        (Self, StorageRequest))
        ensures
            started.0 == (RollbackObject::CheckingSource {
                api_base,
                source,
                target,
                target_generation,
            }),
            started.1.looks_up(api_base@, source@),
    {
        let request = StorageRequest::look_up(api_base.as_str(), &source);
        (
            RollbackObject::CheckingSource { api_base, source, target, target_generation },
            request,
        )
    }

    /// What the undoing does on a reply.
    pub open spec fn continues(
        self,
        reply: Result<Payload, AppError>,
        step: Step<RollbackObject, String>,
    ) -> bool {
        match self {
            RollbackObject::CheckingSource { api_base, source, target, target_generation } => {
                match object_state::state_in(storage_request::metadata_in(reply)) {
                    Ok(ObjectState::Missing) => {
                        &&& step matches Step::Send(next, request)
                        &&& next == (RollbackObject::CheckingTarget {
                            api_base,
                            source,
                            target,
                            target_generation,
                        })
                        &&& request.looks_up_generation(api_base@, target@, target_generation@)
                    },
                    Ok(ObjectState::Present) => disowned(step, source@, target@),
                    Err(error) => step == Step::<RollbackObject, String>::Done(Err(error)),
                }
            },
            RollbackObject::CheckingTarget { api_base, source, target, target_generation } => {
                match object_state::state_in(storage_request::metadata_in(reply)) {
                    Ok(ObjectState::Present) => {
                        &&& step matches Step::Send(RollbackObject::Relocating(relocation), request)
                        &&& begins_rollback(
                            (relocation, request),
                            api_base,
                            source,
                            target,
                            target_generation,
                        )
                    },
                    Ok(ObjectState::Missing) => disowned(step, source@, target@),
                    Err(error) => step == Step::<RollbackObject, String>::Done(Err(error)),
                }
            },
            RollbackObject::Relocating(relocation) => exists|inner: Step<Relocation, String>|
                #[trigger] relocation.continues(reply, inner) && match inner {
                    Step::Send(next, request) => step == Step::<RollbackObject, String>::Send(
                        RollbackObject::Relocating(next),
                        request,
                    ),
                    Step::Done(outcome) => step == Step::<RollbackObject, String>::Done(outcome),
                },
        }
    }

    /// Continues the undoing with the reply to its latest request.
    pub fn resume(self, reply: Result<Payload, AppError>) -> (step: Step<RollbackObject, String>)
        requires
            self.wf(),
            storage_request::answers(reply, self.expects()),
        ensures
            self.continues(reply, step),
            step matches Step::Send(next, request) ==> next.wf() && request.reply == next.expects(),
    {
        match self {
            RollbackObject::CheckingSource { api_base, source, target, target_generation } => {
                match object_state::object_state(storage_request::into_metadata(reply)) {
                    Ok(ObjectState::Missing) => {
                        let request = StorageRequest::look_up_generation(
                            api_base.as_str(),
                            &target,
                            target_generation.as_str(),
                        );
                        Step::Send(
                            RollbackObject::CheckingTarget {
                                api_base,
                                source,
                                target,
                                target_generation,
                            },
                            request,
                        )
                    },
                    Ok(ObjectState::Present) => disown(&source, &target),
                    Err(error) => Step::Done(Err(error)),
                }
            },
            RollbackObject::CheckingTarget { api_base, source, target, target_generation } => {
                match object_state::object_state(storage_request::into_metadata(reply)) {
                    Ok(ObjectState::Present) => {
                        let (relocation, request) = Relocation::start(
                            api_base,
                            Purpose::Rollback,
                            target,
                            source,
                            target_generation,
                        );
                        Step::Send(RollbackObject::Relocating(relocation), request)
                    },
                    Ok(ObjectState::Missing) => disown(&source, &target),
                    Err(error) => Step::Done(Err(error)),
                }
            },
            RollbackObject::Relocating(relocation) => {
                let inner = relocation.resume(reply);
                assert(relocation.continues(reply, inner));
                match inner {
                    Step::Send(next, request) => Step::Send(
                        RollbackObject::Relocating(next),
                        request,
                    ),
                    Step::Done(outcome) => Step::Done(outcome),
                }
            },
        }
    }
}

/// The relocation from the target of a move back to its source.
pub open spec fn begins_rollback(
    started: (Relocation, StorageRequest),
    api_base: String,
    source: ObjectPath,
    target: ObjectPath,
    target_generation: String,
) -> bool {
    &&& started.0.wf()
    &&& started.0.api_base == api_base
    &&& started.0.purpose == Purpose::Rollback
    &&& started.0.from == target
    &&& started.0.to == source
    &&& started.0.from_generation == target_generation
    &&& started.0.stage matches RelocationStage::Copying(copy) && !copy.request_sent
        && copy.requests(started.1, None)
}

} // verus!
