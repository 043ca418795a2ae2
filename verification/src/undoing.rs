//! Undoing the changes of a transaction, one call after another.
use vstd::prelude::*;

use crate::error::AppError;
use crate::session::Answer;
use crate::session::Asked;
use crate::session::Call;
use crate::session::Session;
use crate::session::Told;
use crate::storage;
use crate::storage::StorageClient;
use crate::transaction;
use crate::transaction::ChangeView;
use crate::transaction::RemoteChange;
use crate::transaction::Undo;
use crate::transaction::UndoView;

verus! {

/// Changes that are being undone.
///
/// A move is undone by moving the object back. An upload that was finalized is
/// moved back to its staging name and removed there, at the generation under
/// which it came back; one that was only staged is removed.
pub struct Undoing {
    /// Whether the changes are uploads, and not moves.
    pub uploads: bool,
    /// The changes to undo, in order.
    pub order: Vec<Undo>,
    /// How many of them are undone.
    pub done: usize,
    /// The generation under which the upload that is being undone came back.
    pub removing: Option<String>,
    /// What went wrong so far.
    pub errors: Vec<AppError>,
}

/// What an [`Undoing`] has before it.
#[verifier::ext_equal]
pub struct UndoingView {
    pub uploads: bool,
    pub order: Seq<UndoView>,
    pub done: int,
    pub removing: Option<Seq<char>>,
    pub errors: Seq<AppError>,
}

impl View for Undoing {
    type V = UndoingView;

    open spec fn view(&self) -> UndoingView {
        UndoingView {
            uploads: self.uploads,
            order: transaction::undo_views(self.order@),
            done: self.done as int,
            removing: match self.removing {
                Some(generation) => Some(generation@),
                None => None,
            },
            errors: self.errors@,
        }
    }
}

/// What comes next in the undoing.
pub enum UndoStep {
    Ask(Undoing),
    /// All is undone, but for these failures.
    Done(Vec<AppError>),
}

pub enum UndoStepView {
    Ask(UndoingView),
    Done(Seq<AppError>),
}

impl View for UndoStep {
    type V = UndoStepView;

    open spec fn view(&self) -> UndoStepView {
        match *self {
            UndoStep::Ask(undoing) => UndoStepView::Ask(undoing@),
            UndoStep::Done(errors) => UndoStepView::Done(errors@),
        }
    }
}

/// Moving a change back.
pub open spec fn move_back(change: ChangeView) -> Asked {
    Asked::RollBack { source: change.source, target: change.target, generation: change.generation }
}

impl UndoingView {
    pub open spec fn wf(self) -> bool {
        &&& 0 <= self.done < self.order.len()
        &&& self.removing is Some ==> self.uploads && self.order[self.done] is Finalized
    }

    /// What the undoing asks next.
    pub open spec fn asks(self) -> Asked {
        let change = self.order[self.done].change();
        match self.removing {
            Some(generation) => Asked::CleanUp { target: change.source, generation },
            None => if self.uploads && self.order[self.done] is Staged {
                Asked::CleanUp { target: change.source, generation: change.generation }
            } else {
                move_back(change)
            },
        }
    }

    /// What follows once the change is undone, or could not be: the next change.
    pub open spec fn advance(self, errors: Seq<AppError>) -> UndoStepView {
        if self.done + 1 == self.order.len() {
            UndoStepView::Done(errors)
        } else {
            UndoStepView::Ask(
                UndoingView { done: self.done + 1, removing: None, errors, ..self },
            )
        }
    }

    /// What follows from the answer. A failure stops nothing.
    pub open spec fn next(self, told: Told) -> UndoStepView {
        match told {
            Told::Generation(Ok(generation)) => if self.uploads {
                UndoStepView::Ask(UndoingView { removing: Some(generation), ..self })
            } else {
                self.advance(self.errors)
            },
            Told::Generation(Err(error)) => self.advance(self.errors.push(error)),
            Told::Outcome(Err(error)) => self.advance(self.errors.push(error)),
            _ => self.advance(self.errors),
        }
    }

    /// How many answers the undoing can still take.
    pub open spec fn left(self) -> int {
        2 * (self.order.len() - self.done) - if self.removing is Some {
            1int
        } else {
            0
        }
    }
}

impl UndoStepView {
    /// Before anything is undone.
    pub open spec fn start(uploads: bool, order: Seq<UndoView>) -> UndoStepView {
        if order.len() == 0 {
            UndoStepView::Done(Seq::empty())
        } else {
            UndoStepView::Ask(
                UndoingView { uploads, order, done: 0, removing: None, errors: Seq::empty() },
            )
        }
    }

    /// What comes after the calls, where the undoing makes these calls.
    pub open spec fn after(self, calls: Seq<Call>) -> Option<UndoStepView>
        decreases calls.len(),
    {
        if calls.len() == 0 {
            Some(self)
        } else {
            match self.after(calls.drop_last()) {
                Some(UndoStepView::Ask(undoing)) => if undoing.asks() == calls.last().asked
                    && undoing.asks().fits(calls.last().told) {
                    Some(undoing.next(calls.last().told))
                } else {
                    None
                },
                _ => None,
            }
        }
    }
}

impl Undoing {
    /// Before anything is undone.
    pub fn start(uploads: bool, order: Vec<Undo>) -> (step: UndoStep)
        ensures
            step@ == UndoStepView::start(uploads, transaction::undo_views(order@)),
            step matches UndoStep::Ask(undoing) ==> undoing@.wf(),
    {
        if order.len() == 0 {
            UndoStep::Done(Vec::new())
        } else {
            let undoing = Undoing { uploads, order, done: 0, removing: None, errors: Vec::new() };
            assert(undoing@.errors =~= Seq::empty());
            UndoStep::Ask(undoing)
        }
    }

    /// Asks what the undoing asks next.
    pub fn ask<S: StorageClient>(&self, session: &mut Session<'_, S>) -> (answer: Answer)
        requires
            old(session).wf(),
            self@.wf(),
        ensures
            old(session).called(self@.asks(), answer@, *final(session)),
            self@.asks().fits(answer@),
    {
        assert(self@.order[self@.done] == self.order@[self.done as int]@);
        match (&self.removing, &self.order[self.done]) {
            (Some(generation), Undo::Finalized(change)) => Answer::Outcome(
                session.cleanup_object(&change.source, generation.as_str()),
            ),
            (None, Undo::Staged(change)) if self.uploads => Answer::Outcome(
                session.cleanup_object(&change.source, change.generation.as_str()),
            ),
            (_, Undo::Finalized(change)) | (_, Undo::Staged(change)) => Answer::Generation(
                session.rollback_object(
                    &change.source,
                    &change.target,
                    change.generation.as_str(),
                ),
            ),
        }
    }

    /// Turns to the next change.
    fn advance(self) -> (step: UndoStep)
        requires
            self@.wf(),
        ensures
            step@ == self@.advance(self@.errors),
            step matches UndoStep::Ask(undoing) ==> undoing@.wf(),
    {
        assert(self@.order.len() == self.order@.len());
        let Undoing { uploads, order, done, removing: _, errors } = self;
        let count: usize = order.len();
        if done + 1 == count {
            UndoStep::Done(errors)
        } else {
            UndoStep::Ask(Undoing { uploads, order, done: done + 1, removing: None, errors })
        }
    }

    /// What follows from the answer.
    pub fn resume(self, answer: Answer) -> (step: UndoStep)
        requires
            self@.wf(),
            self@.asks().fits(answer@),
        ensures
            step@ == self@.next(answer@),
            step matches UndoStep::Ask(undoing) ==> undoing@.wf(),
    {
        let mut undoing = self;
        match answer {
            Answer::Generation(Ok(generation)) => if undoing.uploads {
                undoing.removing = Some(generation);
                UndoStep::Ask(undoing)
            } else {
                undoing.advance()
            },
            Answer::Generation(Err(error)) | Answer::Outcome(Err(error)) => {
                undoing.errors.push(error);
                assert(undoing@ =~= UndoingView { errors: self@.errors.push(error), ..self@ });
                undoing.advance()
            },
            _ => undoing.advance(),
        }
    }
}

/// Undoes the changes: the finalized ones first, followed by those only staged,
/// each group last one first.
pub fn undo<S: StorageClient>(
    session: &mut Session<'_, S>,
    uploads: bool,
    staged: &[RemoteChange],
    finalized: &[RemoteChange],
) -> (errors: Vec<AppError>)
    requires
        old(session).wf(),
    ensures
        final(session).belongs(old(session).storage(), old(session).interrupt(), old(session).held()),
        exists|calls: Seq<Call>|
            {
                &&& final(session).calls() == old(session).calls() + calls
                &&& #[trigger] undone_by(
                    uploads,
                    transaction::change_views(staged@),
                    transaction::change_views(finalized@),
                    calls,
                    errors@,
                )
            },
{
    let order = transaction::undo_list(staged, finalized);
    let ghost start = UndoStepView::start(uploads, transaction::undo_views(order@));
    let ghost earlier = session.calls();
    let ghost mut calls: Seq<Call> = Seq::empty();
    assert(earlier + calls =~= earlier);
    let mut step = Undoing::start(uploads, order);
    let ghost changes = (
        transaction::change_views(staged@),
        transaction::change_views(finalized@),
    );
    loop
        invariant
            session.belongs(old(session).storage(), old(session).interrupt(), old(session).held()),
            earlier == old(session).calls(),
            session.calls() == earlier + calls,
            changes == (
                transaction::change_views(staged@),
                transaction::change_views(finalized@),
            ),
            start == UndoStepView::start(uploads, transaction::undo_order(changes.0, changes.1)),
            start.after(calls) == Some(step@),
            step matches UndoStep::Ask(undoing) ==> undoing@.wf(),
        decreases
            match step@ {
                UndoStepView::Ask(undoing) => undoing.left() + 1,
                UndoStepView::Done(_) => 0,
            },
    {
        match step {
            UndoStep::Done(errors) => {
                assert(undone_by(uploads, changes.0, changes.1, calls, errors@));
                return errors;
            },
            UndoStep::Ask(undoing) => {
                let answer = undoing.ask(session);
                proof {
                    let call = Call { asked: undoing@.asks(), told: answer@ };
                    assert(calls.push(call).drop_last() =~= calls);
                    assert(earlier + calls.push(call) =~= (earlier + calls).push(call));
                    calls = calls.push(call);
                }
                step = undoing.resume(answer);
            },
        }
    }
}

/// The calls undo the changes, but for the failures.
pub open spec fn undone_by(
    uploads: bool,
    staged: Seq<ChangeView>,
    finalized: Seq<ChangeView>,
    calls: Seq<Call>,
    errors: Seq<AppError>,
) -> bool {
    UndoStepView::start(uploads, transaction::undo_order(staged, finalized)).after(calls) == Some(
        UndoStepView::Done(errors),
    )
}

/// Undoing the changes, in a session of its own, leaves the failures.
pub open spec fn undoing_gives<S: StorageClient>(
    storage: S,
    uploads: bool,
    staged: Seq<ChangeView>,
    finalized: Seq<ChangeView>,
    errors: Seq<AppError>,
) -> bool {
    exists|session: Session<S>|
        {
            &&& #[trigger] session.belongs(storage, None, None)
            &&& undone_by(uploads, staged, finalized, session.calls(), errors)
        }
}

/// Moves back what a transaction of moves did.
pub fn rollback_moves<S: StorageClient>(
    storage: &S,
    staged: &[RemoteChange],
    finalized: &[RemoteChange],
) -> (errors: Vec<AppError>)
    ensures
        undoing_gives(
            *storage,
            false,
            transaction::change_views(staged@),
            transaction::change_views(finalized@),
            errors@,
        ),
{
    let mut session = Session::uninterrupted(storage);
    undo(&mut session, false, staged, finalized)
}

/// Removes what a transaction of uploads left in Cloud Storage.
pub fn rollback_remote<S: StorageClient>(
    storage: &S,
    staged: &[RemoteChange],
    finalized: &[RemoteChange],
) -> (errors: Vec<AppError>)
    ensures
        undoing_gives(
            *storage,
            true,
            transaction::change_views(staged@),
            transaction::change_views(finalized@),
            errors@,
        ),
{
    let mut session = Session::uninterrupted(storage);
    undo(&mut session, true, staged, finalized)
}

} // verus!
