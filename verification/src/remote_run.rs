//! A transaction of remote changes, one call after another.
//!
//! Every change is staged first. Once all are staged, every change is finalized.
//! Where anything fails, or an interrupt is seen after a change, the interrupt flag
//! is lowered and everything that was done is undone.
use vstd::prelude::*;

use crate::error::AppError;
use crate::normalize::PlannedMove;
use crate::object_move::Attempt;
use crate::object_move::AttemptStep;
use crate::object_move::AttemptStepView;
use crate::object_move::AttemptView;
use crate::object_move::Request;
use crate::object_path::ObjectPathView;
use crate::session::Answer;
use crate::session::Asked;
use crate::session::Call;
use crate::session::Session;
use crate::session::Told;
use crate::storage::StorageClient;
use crate::transaction;
use crate::transaction::ChangeView;
use crate::transaction::RemoteChange;
use crate::transaction::RemoteTransaction;
use crate::undoing::UndoStep;
use crate::undoing::UndoStepView;
use crate::undoing::Undoing;
use crate::undoing::UndoingView;
use crate::upload::PlannedUpload;

verus! {

/// One entry of the plan of a transaction.
pub enum Planned {
    /// A line to show before what follows.
    Line(String),
    Move(PlannedMove),
    Upload(PlannedUpload),
}

#[verifier::ext_equal]
pub enum PlannedView {
    Line(Seq<char>),
    Move { source: ObjectPathView, target: ObjectPathView, temporary: ObjectPathView },
    Upload { file: Seq<char>, staging: ObjectPathView, target: ObjectPathView },
}

impl View for Planned {
    type V = PlannedView;

    open spec fn view(&self) -> PlannedView {
        match *self {
            Planned::Line(line) => PlannedView::Line(line@),
            Planned::Move(planned) => PlannedView::Move {
                source: planned.source@,
                target: planned.target@,
                temporary: planned.temporary@,
            },
            Planned::Upload(planned) => PlannedView::Upload {
                file: planned.file@,
                staging: planned.staging@,
                target: planned.target@,
            },
        }
    }
}

pub open spec fn plan_views(plan: Seq<Planned>) -> Seq<PlannedView> {
    plan.map_values(|planned: Planned| planned@)
}

impl PlannedView {
    /// The call that stages the change: a move to the temporary name, or an upload
    /// under the staging name.
    pub open spec fn staging(self) -> Asked {
        match self {
            PlannedView::Line(line) => Asked::Report(line),
            PlannedView::Move { source, temporary, .. } => Asked::Move {
                source,
                target: temporary,
                expected_source_generation: None,
            },
            PlannedView::Upload { file, staging, .. } => Asked::Upload {
                file,
                target: staging,
                identity: None,
            },
        }
    }

    /// The change once it is staged.
    pub open spec fn staged(self, generation: Seq<char>) -> ChangeView {
        match self {
            PlannedView::Move { source, temporary, .. } => ChangeView {
                source,
                target: temporary,
                generation,
            },
            PlannedView::Upload { staging, target, .. } => ChangeView {
                source: staging,
                target,
                generation,
            },
            PlannedView::Line(_) => arbitrary(),
        }
    }
}

/// How far a transaction is.
pub enum RunStage {
    /// A line is shown.
    Reporting,
    /// A change is staged.
    Staging(Attempt),
    /// The interrupt flag is looked at after a change was staged.
    Staged,
    /// A change is finalized.
    Finalizing(Attempt),
    /// The interrupt flag is looked at after a change was finalized.
    Finalized,
    /// The transaction failed. The interrupt flag is lowered, so that it does not
    /// stop the undoing.
    Clearing(AppError),
    /// The transaction failed, and is undone.
    Undoing(AppError, Undoing),
}

pub enum RunStageView {
    Reporting,
    Staging(AttemptView),
    Staged,
    Finalizing(AttemptView),
    Finalized,
    Clearing(AppError),
    Undoing(AppError, UndoingView),
}

impl View for RunStage {
    type V = RunStageView;

    open spec fn view(&self) -> RunStageView {
        match *self {
            RunStage::Reporting => RunStageView::Reporting,
            RunStage::Staging(attempt) => RunStageView::Staging(attempt@),
            RunStage::Staged => RunStageView::Staged,
            RunStage::Finalizing(attempt) => RunStageView::Finalizing(attempt@),
            RunStage::Finalized => RunStageView::Finalized,
            RunStage::Clearing(failure) => RunStageView::Clearing(failure),
            RunStage::Undoing(failure, undoing) => RunStageView::Undoing(failure, undoing@),
        }
    }
}

/// A transaction under way.
pub struct RemoteRun {
    /// Whether the changes are uploads, and not moves.
    pub uploads: bool,
    pub plan: Vec<Planned>,
    /// How many entries of the plan are dealt with.
    pub at: usize,
    /// What was done.
    pub done: RemoteTransaction,
    pub stage: RunStage,
}

/// What a [`RemoteRun`] has behind and before it.
#[verifier::ext_equal]
pub struct RunView {
    pub uploads: bool,
    pub plan: Seq<PlannedView>,
    pub at: int,
    pub staged: Seq<ChangeView>,
    pub finalized: Seq<ChangeView>,
    pub stage: RunStageView,
}

impl View for RemoteRun {
    type V = RunView;

    open spec fn view(&self) -> RunView {
        RunView {
            uploads: self.uploads,
            plan: plan_views(self.plan@),
            at: self.at as int,
            staged: transaction::change_views(self.done.staged@),
            finalized: transaction::change_views(self.done.finalized@),
            stage: self.stage@,
        }
    }
}

/// What comes next in a transaction.
pub enum RunStep {
    Ask(RemoteRun),
    Done(Result<(), AppError>),
}

pub enum RunStepView {
    Ask(RunView),
    /// The transaction is over: why it failed, where it did, and what went wrong
    /// in the undoing.
    Done(Option<AppError>, Seq<AppError>),
}

/// The result of a transaction: success, or its failure together with what went
/// wrong in the undoing.
pub open spec fn ends(
    failure: Option<AppError>,
    errors: Seq<AppError>,
    result: Result<(), AppError>,
) -> bool {
    match failure {
        None => result is Ok,
        Some(failure) => result matches Err(error) && error.rollback_of(failure, errors),
    }
}

impl RunStepView {
    /// The executable step of this view.
    pub open spec fn is(self, step: RunStep) -> bool {
        match (self, step) {
            (RunStepView::Ask(view), RunStep::Ask(run)) => run@ == view,
            (RunStepView::Done(failure, errors), RunStep::Done(result)) => ends(
                failure,
                errors,
                result,
            ),
            _ => false,
        }
    }

    /// Before anything is done.
    pub open spec fn start(uploads: bool, plan: Seq<PlannedView>) -> RunStepView {
        RunView {
            uploads,
            plan,
            at: 0,
            staged: Seq::empty(),
            finalized: Seq::empty(),
            stage: RunStageView::Staged,
        }.stage_next()
    }

    /// What comes after the calls, where the transaction makes these calls.
    pub open spec fn after(self, calls: Seq<Call>) -> Option<RunStepView>
        decreases calls.len(),
    {
        if calls.len() == 0 {
            Some(self)
        } else {
            match self.after(calls.drop_last()) {
                Some(RunStepView::Ask(run)) => if run.asks() == calls.last().asked
                    && run.asks().fits(calls.last().told) {
                    Some(run.next(calls.last().told))
                } else {
                    None
                },
                _ => None,
            }
        }
    }

    /// The transaction makes the calls, and has the result.
    pub open spec fn gives(self, calls: Seq<Call>, result: Result<(), AppError>) -> bool {
        match self.after(calls) {
            Some(RunStepView::Done(failure, errors)) => ends(failure, errors, result),
            _ => false,
        }
    }
}

/// The plan holds changes of one kind, and lines only among uploads.
pub open spec fn plannable(uploads: bool, plan: Seq<PlannedView>) -> bool {
    forall|i: int|
        0 <= i < plan.len() ==> if uploads {
            !((#[trigger] plan[i]) is Move)
        } else {
            plan[i] is Move
        }
}

impl RunView {
    pub open spec fn wf(self) -> bool {
        &&& plannable(self.uploads, self.plan)
        &&& 0 <= self.at <= self.plan.len()
        &&& self.staged.len() <= self.at
        &&& !self.uploads ==> self.staged.len() == self.at
        &&& self.finalized.len() <= self.staged.len()
        &&& match self.stage {
            RunStageView::Reporting => self.at < self.plan.len() && self.plan[self.at] is Line,
            RunStageView::Staging(attempt) => self.at < self.plan.len()
                && !(self.plan[self.at] is Line) && attempt.wf(),
            RunStageView::Finalizing(attempt) => self.finalized.len() < self.staged.len()
                && attempt.wf(),
            RunStageView::Undoing(_, undoing) => undoing.wf(),
            _ => true,
        }
    }

    /// Where the staged change is to stand in the end.
    pub open spec fn final_target(self, i: int) -> ObjectPathView {
        if self.uploads {
            self.staged[i].target
        } else {
            self.plan[i]->Move_target
        }
    }

    /// The call that finalizes a staged change.
    pub open spec fn finalization(self, i: int) -> Asked {
        Asked::Move {
            source: if self.uploads {
                self.staged[i].source
            } else {
                self.staged[i].target
            },
            target: self.final_target(i),
            expected_source_generation: Some(self.staged[i].generation),
        }
    }

    /// What follows while changes are staged: the next entry of the plan, and after
    /// the last one the finalizing.
    pub open spec fn stage_next(self) -> RunStepView {
        if self.at == self.plan.len() {
            self.finalize_next()
        } else {
            match self.plan[self.at] {
                PlannedView::Line(_) => RunStepView::Ask(
                    RunView { stage: RunStageView::Reporting, ..self },
                ),
                planned => RunStepView::Ask(
                    RunView {
                        stage: RunStageView::Staging(AttemptView::at(planned.staging())),
                        ..self
                    },
                ),
            }
        }
    }

    /// What follows while changes are finalized: the next one, or success.
    pub open spec fn finalize_next(self) -> RunStepView {
        if self.finalized.len() == self.staged.len() {
            RunStepView::Done(None, Seq::empty())
        } else {
            RunStepView::Ask(
                RunView {
                    stage: RunStageView::Finalizing(
                        AttemptView::at(self.finalization(self.finalized.len() as int)),
                    ),
                    ..self
                },
            )
        }
    }

    /// What follows a failure.
    pub open spec fn fail(self, failure: AppError) -> RunStepView {
        RunStepView::Ask(RunView { stage: RunStageView::Clearing(failure), ..self })
    }

    /// The staged changes once a finalization failed: where the storage undid the
    /// move itself, the staged object has the restored generation now.
    pub open spec fn restored(self, failure: AppError) -> Seq<ChangeView> {
        let i = self.finalized.len() as int;
        match failure.restored_generation() {
            Some(generation) => self.staged.update(i, ChangeView { generation, ..self.staged[i] }),
            None => self.staged,
        }
    }

    /// What follows from a step of the undoing.
    pub open spec fn undo_next(self, failure: AppError, step: UndoStepView) -> RunStepView {
        match step {
            UndoStepView::Ask(undoing) => RunStepView::Ask(
                RunView { stage: RunStageView::Undoing(failure, undoing), ..self },
            ),
            UndoStepView::Done(errors) => RunStepView::Done(Some(failure), errors),
        }
    }

    /// What the transaction asks next.
    pub open spec fn asks(self) -> Asked {
        match self.stage {
            RunStageView::Reporting => self.plan[self.at].staging(),
            RunStageView::Staging(attempt) => attempt.asks(),
            RunStageView::Staged => Asked::Look,
            RunStageView::Finalizing(attempt) => attempt.asks(),
            RunStageView::Finalized => Asked::Look,
            RunStageView::Clearing(_) => Asked::Clear,
            RunStageView::Undoing(_, undoing) => undoing.asks(),
        }
    }

    /// What follows from the answer.
    pub open spec fn next(self, told: Told) -> RunStepView {
        match self.stage {
            RunStageView::Reporting => RunView { at: self.at + 1, ..self }.stage_next(),
            RunStageView::Staging(attempt) => match attempt.next(told) {
                AttemptStepView::Ask(attempt) => RunStepView::Ask(
                    RunView { stage: RunStageView::Staging(attempt), ..self },
                ),
                AttemptStepView::Done(Ok(generation)) => RunStepView::Ask(
                    RunView {
                        at: self.at + 1,
                        staged: self.staged.push(self.plan[self.at].staged(generation)),
                        stage: RunStageView::Staged,
                        ..self
                    },
                ),
                AttemptStepView::Done(Err(failure)) => self.fail(failure),
            },
            RunStageView::Staged => if told->Flag_0 {
                self.fail(AppError::Interrupted)
            } else {
                self.stage_next()
            },
            RunStageView::Finalizing(attempt) => match attempt.next(told) {
                AttemptStepView::Ask(attempt) => RunStepView::Ask(
                    RunView { stage: RunStageView::Finalizing(attempt), ..self },
                ),
                AttemptStepView::Done(Ok(generation)) => {
                    let i = self.finalized.len() as int;
                    RunStepView::Ask(
                        RunView {
                            finalized: self.finalized.push(
                                ChangeView {
                                    source: self.staged[i].source,
                                    target: self.final_target(i),
                                    generation,
                                },
                            ),
                            stage: RunStageView::Finalized,
                            ..self
                        },
                    )
                },
                AttemptStepView::Done(Err(failure)) => RunView {
                    staged: self.restored(failure),
                    ..self
                }.fail(failure),
            },
            RunStageView::Finalized => if told->Flag_0 {
                self.fail(AppError::Interrupted)
            } else {
                self.finalize_next()
            },
            RunStageView::Clearing(failure) => self.undo_next(
                failure,
                UndoStepView::start(
                    self.uploads,
                    transaction::undo_order(self.staged, self.finalized),
                ),
            ),
            RunStageView::Undoing(failure, undoing) => self.undo_next(failure, undoing.next(told)),
        }
    }

    /// How many parts the transaction still has before it: staging, finalizing,
    /// lowering the flag, and undoing.
    pub open spec fn parts_left(self) -> int {
        match self.stage {
            RunStageView::Reporting | RunStageView::Staging(_) | RunStageView::Staged => 3,
            RunStageView::Finalizing(_) | RunStageView::Finalized => 2,
            RunStageView::Clearing(_) => 1,
            RunStageView::Undoing(..) => 0,
        }
    }

    /// How many entries the part still has before it.
    pub open spec fn entries_left(self) -> int {
        match self.stage {
            RunStageView::Reporting | RunStageView::Staging(_) | RunStageView::Staged =>
                self.plan.len() - self.at,
            RunStageView::Finalizing(_) | RunStageView::Finalized => self.staged.len()
                - self.finalized.len(),
            RunStageView::Clearing(_) => 0,
            RunStageView::Undoing(_, undoing) => undoing.left(),
        }
    }

    /// How many answers the entry can still take.
    pub open spec fn answers_left(self) -> int {
        match self.stage {
            RunStageView::Staging(attempt) => attempt.left() as int,
            RunStageView::Finalizing(attempt) => attempt.left() as int,
            RunStageView::Staged | RunStageView::Finalized => 5,
            _ => 0,
        }
    }
}

impl RemoteRun {
    /// Before anything is done.
    pub fn start(uploads: bool, plan: Vec<Planned>) -> (step: RunStep)
        requires
            plannable(uploads, plan_views(plan@)),
        ensures
            RunStepView::start(uploads, plan_views(plan@)).is(step),
            step matches RunStep::Ask(run) ==> run@.wf(),
    {
        let run = RemoteRun {
            uploads,
            plan,
            at: 0,
            done: RemoteTransaction::new(),
            stage: RunStage::Staged,
        };
        assert(run@.staged =~= Seq::empty());
        assert(run@.finalized =~= Seq::empty());
        run.stage_next()
    }

    fn stage_next(self) -> (step: RunStep)
        requires
            self@.wf(),
        ensures
            self@.stage_next().is(step),
            step matches RunStep::Ask(run) ==> run@.wf(),
    {
        if self.at == self.plan.len() {
            return self.finalize_next();
        }
        assert(self@.plan[self@.at] == self.plan@[self.at as int]@);
        let stage = match &self.plan[self.at] {
            Planned::Line(_) => RunStage::Reporting,
            Planned::Move(planned) => RunStage::Staging(
                Attempt::new(
                    Request::Move {
                        source: planned.source.clone(),
                        target: planned.temporary.clone(),
                        expected_source_generation: None,
                    },
                ),
            ),
            Planned::Upload(planned) => RunStage::Staging(
                Attempt::new(
                    Request::Upload {
                        file: planned.file.clone(),
                        target: planned.staging.clone(),
                        identity: None,
                    },
                ),
            ),
        };
        let RemoteRun { uploads, plan, at, done, stage: _ } = self;
        RunStep::Ask(RemoteRun { uploads, plan, at, done, stage })
    }

    fn finalize_next(self) -> (step: RunStep)
        requires
            self@.wf(),
        ensures
            self@.finalize_next().is(step),
            step matches RunStep::Ask(run) ==> run@.wf(),
    {
        let i: usize = self.done.finalized.len();
        if i == self.done.staged.len() {
            return RunStep::Done(Ok(()));
        }
        let change = &self.done.staged[i];
        assert(self@.staged[i as int] == change@);
        assert(self@.plan[i as int] == self.plan@[i as int]@);
        let generation = Some(change.generation.clone());
        let request = match &self.plan[i] {
            Planned::Move(planned) if !self.uploads => Request::Move {
                source: change.target.clone(),
                target: planned.target.clone(),
                expected_source_generation: generation,
            },
            _ => Request::Move {
                source: change.source.clone(),
                target: change.target.clone(),
                expected_source_generation: generation,
            },
        };
        let attempt = Attempt::new(request);
        let RemoteRun { uploads, plan, at, done, stage: _ } = self;
        RunStep::Ask(RemoteRun { uploads, plan, at, done, stage: RunStage::Finalizing(attempt) })
    }

    fn fail(self, failure: AppError) -> (step: RunStep)
        requires
            self@.wf(),
        ensures
            self@.fail(failure).is(step),
            step matches RunStep::Ask(run) ==> run@.wf(),
    {
        let RemoteRun { uploads, plan, at, done, stage: _ } = self;
        RunStep::Ask(RemoteRun { uploads, plan, at, done, stage: RunStage::Clearing(failure) })
    }

    fn undo_next(self, failure: AppError, step: UndoStep) -> (next: RunStep)
        requires
            self@.wf(),
            step matches UndoStep::Ask(undoing) ==> undoing@.wf(),
        ensures
            self@.undo_next(failure, step@).is(next),
            next matches RunStep::Ask(run) ==> run@.wf(),
    {
        match step {
            UndoStep::Ask(undoing) => {
                let RemoteRun { uploads, plan, at, done, stage: _ } = self;
                RunStep::Ask(
                    RemoteRun { uploads, plan, at, done, stage: RunStage::Undoing(failure, undoing) },
                )
            },
            UndoStep::Done(errors) => RunStep::Done(Err(AppError::rollback(failure, errors))),
        }
    }

    /// Asks what the transaction asks next.
    pub fn ask<S: StorageClient, R: Fn(&str)>(
        &self,
        session: &mut Session<'_, S>,
        report: &R,
    ) -> (answer: Answer)
        requires
            old(session).wf(),
            old(session).interrupt() is Some,
            self@.wf(),
            forall|line: &str| #[trigger] report.requires((line,)),
        ensures
            old(session).called(self@.asks(), answer@, *final(session)),
            self@.asks().fits(answer@),
            self@.asks() matches Asked::Report(line) ==> reported(*report, line),
    {
        match &self.stage {
            RunStage::Reporting => {
                assert(self@.plan[self@.at] == self.plan@[self.at as int]@);
                if let Planned::Line(line) = &self.plan[self.at] {
                    session.report(report, line.as_str());
                    assert(reported(*report, line@));
                }
                Answer::Nothing
            },
            RunStage::Staging(attempt) => attempt.ask(session),
            RunStage::Finalizing(attempt) => attempt.ask(session),
            RunStage::Staged | RunStage::Finalized => Answer::Flag(session.look()),
            RunStage::Clearing(_) => Answer::Flag(session.clear()),
            RunStage::Undoing(_, undoing) => undoing.ask(session),
        }
    }

    /// What follows from the answer.
    pub fn resume(self, answer: Answer) -> (step: RunStep)
        requires
            self@.wf(),
            self@.asks().fits(answer@),
        ensures
            self@.next(answer@).is(step),
            step matches RunStep::Ask(run) ==> run@.wf(),
    {
        let ghost before = self@;
        let RemoteRun { uploads, plan, at, done, stage } = self;
        let count: usize = plan.len();
        assert(at <= count);
        match stage {
            RunStage::Reporting => {
                let run = RemoteRun { uploads, plan, at: at + 1, done, stage: RunStage::Staged };
                run.stage_next()
            },
            RunStage::Staging(attempt) => match attempt.resume(answer) {
                AttemptStep::Ask(attempt) => RunStep::Ask(
                    RemoteRun { uploads, plan, at, done, stage: RunStage::Staging(attempt) },
                ),
                AttemptStep::Done(Ok(generation)) => {
                    let mut done = done;
                    assert(before.plan[before.at] == plan@[at as int]@);
                    match &plan[at] {
                        Planned::Move(planned) => done.stage(
                            RemoteChange {
                                source: planned.source.clone(),
                                target: planned.temporary.clone(),
                                generation,
                            },
                        ),
                        Planned::Upload(planned) => done.stage(
                            RemoteChange {
                                source: planned.staging.clone(),
                                target: planned.target.clone(),
                                generation,
                            },
                        ),
                        Planned::Line(_) => {},
                    }
                    assert(transaction::change_views(done.staged@) =~= before.staged.push(
                        before.plan[before.at].staged(generation@),
                    ));
                    RunStep::Ask(
                        RemoteRun { uploads, plan, at: at + 1, done, stage: RunStage::Staged },
                    )
                },
                AttemptStep::Done(Err(failure)) => {
                    let run = RemoteRun { uploads, plan, at, done, stage: RunStage::Staged };
                    run.fail(failure)
                },
            },
            RunStage::Staged => {
                let run = RemoteRun { uploads, plan, at, done, stage: RunStage::Staged };
                if let Answer::Flag(true) = answer {
                    run.fail(AppError::Interrupted)
                } else {
                    run.stage_next()
                }
            },
            RunStage::Finalizing(attempt) => match attempt.resume(answer) {
                AttemptStep::Ask(attempt) => RunStep::Ask(
                    RemoteRun { uploads, plan, at, done, stage: RunStage::Finalizing(attempt) },
                ),
                AttemptStep::Done(Ok(generation)) => {
                    let mut done = done;
                    let i: usize = done.finalized.len();
                    assert(before.staged[i as int] == done.staged@[i as int]@);
                    assert(before.plan[i as int] == plan@[i as int]@);
                    let target = match &plan[i] {
                        Planned::Move(planned) if !uploads => planned.target.clone(),
                        _ => done.staged[i].target.clone(),
                    };
                    let source = done.staged[i].source.clone();
                    let ghost change = ChangeView {
                        source: source@,
                        target: target@,
                        generation: generation@,
                    };
                    done.finalized.push(RemoteChange { source, target, generation });
                    assert(transaction::change_views(done.finalized@) =~= before.finalized.push(
                        change,
                    ));
                    RunStep::Ask(
                        RemoteRun { uploads, plan, at, done, stage: RunStage::Finalized },
                    )
                },
                AttemptStep::Done(Err(failure)) => {
                    let mut done = done;
                    let i: usize = done.finalized.len();
                    assert(before.staged[i as int] == done.staged@[i as int]@);
                    let restored: Option<String> = match failure.restored_move_generation() {
                        Some(generation) => Some(generation.to_string()),
                        None => None,
                    };
                    if let Some(generation) = restored {
                        let mut change = done.staged[i].clone();
                        change.generation = generation;
                        done.staged.set(i, change);
                    }
                    assert(transaction::change_views(done.staged@) =~= before.restored(failure));
                    let run = RemoteRun { uploads, plan, at, done, stage: RunStage::Finalized };
                    run.fail(failure)
                },
            },
            RunStage::Finalized => {
                let run = RemoteRun { uploads, plan, at, done, stage: RunStage::Finalized };
                if let Answer::Flag(true) = answer {
                    run.fail(AppError::Interrupted)
                } else {
                    run.finalize_next()
                }
            },
            RunStage::Clearing(failure) => {
                let order = transaction::undo_list(
                    done.staged.as_slice(),
                    done.finalized.as_slice(),
                );
                let step = Undoing::start(uploads, order);
                let run = RemoteRun { uploads, plan, at, done, stage: RunStage::Staged };
                run.undo_next(failure, step)
            },
            RunStage::Undoing(failure, undoing) => {
                let step = undoing.resume(answer);
                let run = RemoteRun { uploads, plan, at, done, stage: RunStage::Staged };
                run.undo_next(failure, step)
            },
        }
    }
}

/// The line was handed to the report.
pub open spec fn reported<R: Fn(&str)>(report: R, line: Seq<char>) -> bool {
    exists|text: &str| text@ == line && #[trigger] report.ensures((text,), ())
}

/// Every line among the calls was handed to the report.
pub open spec fn all_reported<R: Fn(&str)>(report: R, calls: Seq<Call>) -> bool {
    forall|i: int|
        0 <= i < calls.len() ==> ((#[trigger] calls[i]).asked matches Asked::Report(line)
            ==> reported(report, line))
}

/// Carries a transaction out.
pub fn carry_out<S: StorageClient, R: Fn(&str)>(
    session: &mut Session<'_, S>,
    uploads: bool,
    plan: Vec<Planned>,
    report: &R,
) -> (result: Result<(), AppError>)
    requires
        old(session).wf(),
        old(session).interrupt() is Some,
        plannable(uploads, plan_views(plan@)),
        forall|line: &str| #[trigger] report.requires((line,)),
    ensures
        final(session).belongs(old(session).storage(), old(session).interrupt(), old(session).held()),
        exists|calls: Seq<Call>|
            {
                &&& final(session).calls() == old(session).calls() + calls
                &&& #[trigger] RunStepView::start(uploads, plan_views(plan@)).gives(calls, result)
                &&& all_reported(*report, calls)
            },
{
    let ghost start = RunStepView::start(uploads, plan_views(plan@));
    let ghost mut view = start;
    let ghost earlier = session.calls();
    let ghost mut calls: Seq<Call> = Seq::empty();
    assert(earlier + calls =~= earlier);
    let mut step = RemoteRun::start(uploads, plan);
    loop
        invariant
            session.belongs(old(session).storage(), old(session).interrupt(), old(session).held()),
            session.interrupt() is Some,
            earlier == old(session).calls(),
            session.calls() == earlier + calls,
            start == RunStepView::start(uploads, plan_views(plan@)),
            start.after(calls) == Some(view),
            view.is(step),
            step matches RunStep::Ask(run) ==> run@.wf(),
            forall|line: &str| #[trigger] report.requires((line,)),
            all_reported(*report, calls),
        decreases
            match view {
                RunStepView::Ask(run) => run.parts_left() + 1,
                RunStepView::Done(..) => 0,
            },
            match view {
                RunStepView::Ask(run) => run.entries_left(),
                RunStepView::Done(..) => 0,
            },
            match view {
                RunStepView::Ask(run) => run.answers_left(),
                RunStepView::Done(..) => 0,
            },
    {
        match step {
            RunStep::Done(result) => {
                assert(start.gives(calls, result));
                return result;
            },
            RunStep::Ask(run) => {
                let answer = run.ask(session, report);
                proof {
                    let call = Call { asked: run@.asks(), told: answer@ };
                    let grown = calls.push(call);
                    assert(grown.drop_last() =~= calls);
                    assert(earlier + grown =~= (earlier + calls).push(call));
                    assert(all_reported(*report, grown));
                    calls = grown;
                    view = run@.next(answer@);
                }
                step = run.resume(answer);
            },
        }
    }
}

} // verus!
