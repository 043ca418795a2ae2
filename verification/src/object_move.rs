//! One remote change, with the confirmation that a failure asks for.
use vstd::prelude::*;

use crate::error::AppError;
use crate::interrupt::InterruptFlag;
use crate::object_path::ObjectPath;
use crate::session::Answer;
use crate::session::Asked;
use crate::session::Call;
use crate::session::Session;
use crate::session::Told;
use crate::storage;
use crate::storage::StorageClient;
use crate::upload_source::UploadSourceIdentity;

verus! {

/// The change that is asked for.
pub enum Request {
    Move { source: ObjectPath, target: ObjectPath, expected_source_generation: Option<String> },
    Upload { file: String, target: ObjectPath, identity: Option<UploadSourceIdentity> },
}

/// The content of an optional string.
pub open spec fn content(text: Option<String>) -> Option<Seq<char>> {
    match text {
        Some(text) => Some(text@),
        None => None,
    }
}

impl View for Request {
    type V = Asked;

    open spec fn view(&self) -> Asked {
        match *self {
            Request::Move { source, target, expected_source_generation } => Asked::Move {
                source: source@,
                target: target@,
                expected_source_generation: content(expected_source_generation),
            },
            Request::Upload { file, target, identity } => Asked::Upload {
                file: file@,
                target: target@,
                identity,
            },
        }
    }
}

/// How far an attempt at a change is.
pub enum AttemptStage {
    /// The interrupt flag is looked at before anything is asked.
    Looking,
    /// The change is asked for.
    Asking,
    /// The change failed by an interrupt. The flag is lowered, so that it does not
    /// stop the confirmation as well.
    Clearing(AppError),
    /// The change failed. A failed request may have changed remote state, so the
    /// storage is asked to confirm that it did not.
    Confirming(AppError),
}

/// An attempt at one change.
pub struct Attempt {
    pub request: Request,
    pub stage: AttemptStage,
}

/// What an [`Attempt`] has before it.
pub struct AttemptView {
    pub request: Asked,
    pub stage: AttemptStage,
}

impl View for Attempt {
    type V = AttemptView;

    open spec fn view(&self) -> AttemptView {
        AttemptView { request: self.request@, stage: self.stage }
    }
}

/// What comes next in an attempt.
pub enum AttemptStep {
    /// The attempt asks.
    Ask(Attempt),
    /// The attempt is over, with the generation of the target or the failure.
    Done(Result<String, AppError>),
}

pub enum AttemptStepView {
    Ask(AttemptView),
    Done(Result<Seq<char>, AppError>),
}

impl View for AttemptStep {
    type V = AttemptStepView;

    open spec fn view(&self) -> AttemptStepView {
        match *self {
            AttemptStep::Ask(attempt) => AttemptStepView::Ask(attempt@),
            AttemptStep::Done(outcome) => AttemptStepView::Done(storage::generation_in(outcome)),
        }
    }
}

/// The confirmation that the failure of a change asks for.
pub open spec fn confirmation(request: Asked, failure: AppError) -> Asked {
    match request {
        Asked::Move { source, target, .. } => Asked::ConfirmMove { source, target, failure },
        Asked::Upload { target, .. } => Asked::ConfirmWrite { target, failure },
        _ => request,
    }
}

/// A failure that is passed on as it is. A lock conflict sent nothing, and a move
/// that the storage already undid carries the new generation of the source,
/// which another confirmation would hide.
pub open spec fn passed_on(request: Asked, failure: AppError) -> bool {
    failure.lock_conflict() || request is Move && failure.restored_generation() is Some
}

/// The error that a confirmation leaves: the failure itself where it was
/// confirmed, else what the confirmation found.
pub open spec fn settled_with(failure: AppError, confirmed: Result<(), AppError>) -> AppError {
    match confirmed {
        Ok(_) => failure,
        Err(recovery) => recovery,
    }
}

impl AttemptView {
    /// An attempt that has asked nothing yet.
    pub open spec fn at(request: Asked) -> AttemptView {
        AttemptView { request, stage: AttemptStage::Looking }
    }

    pub open spec fn wf(self) -> bool {
        self.request is Move || self.request is Upload
    }

    /// What the attempt asks next.
    pub open spec fn asks(self) -> Asked {
        match self.stage {
            AttemptStage::Looking => Asked::Look,
            AttemptStage::Asking => self.request,
            AttemptStage::Clearing(_) => Asked::Clear,
            AttemptStage::Confirming(failure) => confirmation(self.request, failure),
        }
    }

    /// What follows from the answer. An interrupt that is seen before the change is
    /// asked for ends the attempt, as does success. Every failure that is not
    /// passed on is confirmed first.
    pub open spec fn next(self, told: Told) -> AttemptStepView {
        match self.stage {
            AttemptStage::Looking => if told->Flag_0 {
                AttemptStepView::Done(Err(AppError::Interrupted))
            } else {
                AttemptStepView::Ask(AttemptView { stage: AttemptStage::Asking, ..self })
            },
            AttemptStage::Asking => match told->Generation_0 {
                Ok(generation) => AttemptStepView::Done(Ok(generation)),
                Err(failure) => if passed_on(self.request, failure) {
                    AttemptStepView::Done(Err(failure))
                } else if failure.stopped_by_interrupt() {
                    AttemptStepView::Ask(
                        AttemptView { stage: AttemptStage::Clearing(failure), ..self },
                    )
                } else {
                    AttemptStepView::Ask(
                        AttemptView { stage: AttemptStage::Confirming(failure), ..self },
                    )
                },
            },
            AttemptStage::Clearing(failure) => AttemptStepView::Ask(
                AttemptView { stage: AttemptStage::Confirming(failure), ..self },
            ),
            AttemptStage::Confirming(failure) => AttemptStepView::Done(
                Err(settled_with(failure, told->Outcome_0)),
            ),
        }
    }

    /// How many answers the attempt can still take.
    pub open spec fn left(self) -> nat {
        match self.stage {
            AttemptStage::Looking => 4,
            AttemptStage::Asking => 3,
            AttemptStage::Clearing(_) => 2,
            AttemptStage::Confirming(_) => 1,
        }
    }
}

impl AttemptStepView {
    /// What comes after the calls, where the attempt makes these calls.
    pub open spec fn after(self, calls: Seq<Call>) -> Option<AttemptStepView>
        decreases calls.len(),
    {
        if calls.len() == 0 {
            Some(self)
        } else {
            match self.after(calls.drop_last()) {
                Some(AttemptStepView::Ask(attempt)) => if attempt.asks() == calls.last().asked
                    && attempt.asks().fits(calls.last().told) {
                    Some(attempt.next(calls.last().told))
                } else {
                    None
                },
                _ => None,
            }
        }
    }
}

impl Attempt {
    pub fn new(request: Request) -> (attempt: Attempt)
        ensures
            attempt@ == AttemptView::at(request@),
            attempt@.wf(),
    {
        Attempt { request, stage: AttemptStage::Looking }
    }

    /// Asks what the attempt asks next.
    pub fn ask<S: StorageClient>(&self, session: &mut Session<'_, S>) -> (answer: Answer)
        requires
            old(session).wf(),
            old(session).interrupt() is Some,
            self@.wf(),
        ensures
            old(session).called(self@.asks(), answer@, *final(session)),
            self@.asks().fits(answer@),
    {
        match &self.stage {
            AttemptStage::Looking => Answer::Flag(session.look()),
            AttemptStage::Clearing(_) => Answer::Flag(session.clear()),
            AttemptStage::Asking => match &self.request {
                Request::Move { source, target, expected_source_generation } => {
                    let expected: Option<&str> = match expected_source_generation {
                        Some(generation) => Some(generation.as_str()),
                        None => None,
                    };
                    Answer::Generation(session.move_object(source, target, expected))
                },
                Request::Upload { file, target, identity } => Answer::Generation(
                    session.upload_file(file.as_str(), target, *identity),
                ),
            },
            AttemptStage::Confirming(failure) => match &self.request {
                Request::Move { source, target, .. } => Answer::Outcome(
                    session.confirm_move(source, target, failure),
                ),
                Request::Upload { target, .. } => Answer::Outcome(
                    session.confirm_write(target, failure),
                ),
            },
        }
    }

    /// What follows from the answer.
    pub fn resume(self, answer: Answer) -> (step: AttemptStep)
        requires
            self@.wf(),
            self@.asks().fits(answer@),
        ensures
            step@ == self@.next(answer@),
            step matches AttemptStep::Ask(attempt) ==> attempt@.wf(),
    {
        let Attempt { request, stage } = self;
        match (stage, answer) {
            (AttemptStage::Looking, Answer::Flag(raised)) => if raised {
                AttemptStep::Done(Err(AppError::Interrupted))
            } else {
                AttemptStep::Ask(Attempt { request, stage: AttemptStage::Asking })
            },
            (AttemptStage::Asking, Answer::Generation(outcome)) => match outcome {
                Ok(generation) => AttemptStep::Done(Ok(generation)),
                Err(failure) => {
                    let restored = match &request {
                        Request::Move { .. } => failure.restored_move_generation().is_some(),
                        Request::Upload { .. } => false,
                    };
                    if restored || failure.is_bucket_lock_conflict() {
                        AttemptStep::Done(Err(failure))
                    } else if failure.is_interrupted() {
                        AttemptStep::Ask(
                            Attempt { request, stage: AttemptStage::Clearing(failure) },
                        )
                    } else {
                        AttemptStep::Ask(
                            Attempt { request, stage: AttemptStage::Confirming(failure) },
                        )
                    }
                },
            },
            (AttemptStage::Clearing(failure), _) => AttemptStep::Ask(
                Attempt { request, stage: AttemptStage::Confirming(failure) },
            ),
            (AttemptStage::Confirming(failure), Answer::Outcome(confirmed)) => match confirmed {
                Ok(()) => AttemptStep::Done(Err(failure)),
                Err(recovery) => AttemptStep::Done(Err(recovery)),
            },
            (stage, _) => AttemptStep::Ask(Attempt { request, stage }),
        }
    }
}

/// Carries an attempt out.
pub fn attempt<S: StorageClient>(session: &mut Session<'_, S>, request: Request) -> (outcome: Result<
    String,
    AppError,
>)
    requires
        old(session).wf(),
        old(session).interrupt() is Some,
    ensures
        final(session).belongs(old(session).storage(), old(session).interrupt(), old(session).held()),
        exists|calls: Seq<Call>|
            {
                &&& final(session).calls() == old(session).calls() + calls
                &&& #[trigger] AttemptStepView::Ask(AttemptView::at(request@)).after(calls) == Some(
                    AttemptStepView::Done(storage::generation_in(outcome)),
                )
            },
{
    let ghost start = AttemptStepView::Ask(AttemptView::at(request@));
    let ghost earlier = session.calls();
    let ghost mut calls: Seq<Call> = Seq::empty();
    let mut attempt = Attempt::new(request);
    assert(earlier + calls =~= earlier);
    loop
        invariant
            session.belongs(old(session).storage(), old(session).interrupt(), old(session).held()),
            session.interrupt() is Some,
            earlier == old(session).calls(),
            session.calls() == earlier + calls,
            start == AttemptStepView::Ask(AttemptView::at(request@)),
            start.after(calls) == Some(AttemptStepView::Ask(attempt@)),
            attempt@.wf(),
        decreases attempt@.left(),
    {
        let answer = attempt.ask(session);
        proof {
            let call = Call { asked: attempt@.asks(), told: answer@ };
            assert(calls.push(call).drop_last() =~= calls);
            assert(earlier + calls.push(call) =~= (earlier + calls).push(call));
            calls = calls.push(call);
        }
        match attempt.resume(answer) {
            AttemptStep::Done(outcome) => {
                return outcome;
            },
            AttemptStep::Ask(next) => {
                attempt = next;
            },
        }
    }
}

/// An attempt at the change, in a session of its own, has the outcome.
pub open spec fn attempt_gives<S: StorageClient>(
    storage: S,
    interrupt: InterruptFlag,
    request: Asked,
    outcome: Result<Seq<char>, AppError>,
) -> bool {
    exists|session: Session<S>|
        {
            &&& #[trigger] session.belongs(storage, Some(interrupt), None)
            &&& AttemptStepView::Ask(AttemptView::at(request)).after(session.calls()) == Some(
                AttemptStepView::Done(outcome),
            )
        }
}

/// Executes one remote move and confirms object state when the request fails.
///
/// A failed HTTP response is not enough to prove that copy/delete did not run,
/// so the confirmation path distinguishes a safe retry from manual recovery.
pub fn execute<S: StorageClient>(
    storage: &S,
    interrupt: &InterruptFlag,
    source: &ObjectPath,
    target: &ObjectPath,
    expected_source_generation: Option<&str>,
) -> (outcome: Result<String, AppError>)
    ensures
        attempt_gives(
            *storage,
            *interrupt,
            Asked::Move {
                source: source@,
                target: target@,
                expected_source_generation: storage::optional(expected_source_generation),
            },
            storage::generation_in(outcome),
        ),
{
    let expected_source_generation: Option<String> = match expected_source_generation {
        Some(generation) => Some(generation.to_string()),
        None => None,
    };
    let mut session = Session::new(storage, interrupt);
    attempt(
        &mut session,
        Request::Move { source: source.clone(), target: target.clone(), expected_source_generation },
    )
}

/// Uploads one local file and applies the same post-failure confirmation rules
/// as a remote move.
pub fn execute_upload<S: StorageClient>(
    storage: &S,
    interrupt: &InterruptFlag,
    source: &str,
    target: &ObjectPath,
) -> (outcome: Result<String, AppError>)
    ensures
        attempt_gives(
            *storage,
            *interrupt,
            Asked::Upload { file: source@, target: target@, identity: None },
            storage::generation_in(outcome),
        ),
{
    execute_upload_with_identity(storage, interrupt, source, target, None)
}

/// Uploads one local file, provided it is still the one that was discovered.
pub fn execute_upload_with_identity<S: StorageClient>(
    storage: &S,
    interrupt: &InterruptFlag,
    source: &str,
    target: &ObjectPath,
    expected_source: Option<UploadSourceIdentity>,
) -> (outcome: Result<String, AppError>)
    ensures
        attempt_gives(
            *storage,
            *interrupt,
            Asked::Upload { file: source@, target: target@, identity: expected_source },
            storage::generation_in(outcome),
        ),
{
    let mut session = Session::new(storage, interrupt);
    attempt(
        &mut session,
        Request::Upload {
            file: source.to_string(),
            target: target.clone(),
            identity: expected_source,
        },
    )
}

} // verus!
