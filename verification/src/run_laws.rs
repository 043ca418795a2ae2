//! What holds of every transaction of remote changes, whatever the storage answers.
use vstd::prelude::*;

use crate::error::AppError;
use crate::object_move;
use crate::object_move::AttemptStage;
use crate::object_move::AttemptStepView;
use crate::object_move::AttemptView;
use crate::object_path::ObjectPathView;
use crate::remote_run;
use crate::remote_run::PlannedView;
use crate::remote_run::RunStageView;
use crate::remote_run::RunStepView;
use crate::remote_run::RunView;
use crate::session::Asked;
use crate::session::Call;
use crate::session::Told;
use crate::transaction;
use crate::transaction::ChangeView;
use crate::undoing;
use crate::undoing::UndoStepView;
use crate::undoing::UndoingView;

verus! {

/// A look at the interrupt flag.
pub open spec fn look(raised: bool) -> Call {
    Call { asked: Asked::Look, told: Told::Flag(raised) }
}

/// The lowering of the interrupt flag.
pub open spec fn clear(raised: bool) -> Call {
    Call { asked: Asked::Clear, told: Told::Flag(raised) }
}

/// A change that was asked for, with its answer.
pub open spec fn change_call(request: Asked, answer: Result<Seq<char>, AppError>) -> Call {
    Call { asked: request, told: Told::Generation(answer) }
}

/// The calls of an attempt that succeeds: the flag is not raised, and the change is
/// asked for once.
pub open spec fn succeeded(request: Asked, generation: Seq<char>) -> Seq<Call> {
    seq![look(false), change_call(request, Ok(generation))]
}

/// The calls of an attempt that fails.
pub open spec fn failed(request: Asked, calls: Seq<Call>, failure: AppError) -> bool {
    ||| failure == AppError::Interrupted && calls == seq![look(true)]
    ||| {
        &&& object_move::passed_on(request, failure)
        &&& calls == seq![look(false), change_call(request, Err(failure))]
    }
    ||| exists|met: AppError, confirmed: Result<(), AppError>, raised: bool|
        {
            &&& !object_move::passed_on(request, met)
            &&& failure == #[trigger] object_move::settled_with(met, confirmed)
            &&& calls == (if met.stopped_by_interrupt() {
                seq![look(false), change_call(request, Err(met)), #[trigger] clear(raised)]
            } else {
                seq![look(false), change_call(request, Err(met))]
            }).push(
                Call {
                    asked: object_move::confirmation(request, met),
                    told: Told::Outcome(confirmed),
                },
            )
        }
}

/// An attempt that is over asked for its change at most once. It asked for nothing
/// where the interrupt flag was raised, and for no confirmation after a success.
/// Where the change failed by an interrupt, the flag was lowered before the
/// confirmation.
pub proof fn a_change_is_asked_for_once(
    request: Asked,
    calls: Seq<Call>,
    outcome: Result<Seq<char>, AppError>,
)
    requires
        request is Move || request is Upload,
        AttemptStepView::Ask(AttemptView::at(request)).after(calls) == Some(
            AttemptStepView::Done(outcome),
        ),
    ensures
        match outcome {
            Ok(generation) => calls == succeeded(request, generation),
            Err(failure) => failed(request, calls, failure),
        },
{
    let start = AttemptStepView::Ask(AttemptView::at(request));
    let earlier = calls.drop_last();
    assert(calls.len() > 0);
    attempt_so_far(request, earlier);
    assert(calls =~= earlier.push(calls.last()));
    let attempt = start.after(earlier)->0->Ask_0;
    match attempt.stage {
        AttemptStage::Looking => {
            assert(calls =~= seq![look(true)]);
        },
        AttemptStage::Asking => {
            match outcome {
                Ok(generation) => {
                    assert(calls =~= succeeded(request, generation));
                },
                Err(failure) => {
                    assert(calls =~= seq![look(false), change_call(request, Err(failure))]);
                },
            }
        },
        AttemptStage::Clearing(_) => {},
        AttemptStage::Confirming(met) => {
            let confirmed = calls.last().told->Outcome_0;
            let raised = if met.stopped_by_interrupt() {
                earlier.last().told->Flag_0
            } else {
                false
            };
            assert(outcome == Err::<Seq<char>, AppError>(
                object_move::settled_with(met, confirmed),
            ));
            assert(clear(raised).asked is Clear);
            if met.stopped_by_interrupt() {
                assert(earlier =~= seq![
                    look(false),
                    change_call(request, Err(met)),
                    clear(raised),
                ]);
            }
        },
    }
}

proof fn attempt_so_far(request: Asked, calls: Seq<Call>)
    requires
        request is Move || request is Upload,
    ensures
        AttemptStepView::Ask(AttemptView::at(request)).after(calls) matches Some(
            AttemptStepView::Ask(attempt),
        ) ==> {
            &&& attempt.request == request
            &&& match attempt.stage {
                AttemptStage::Looking => calls == Seq::<Call>::empty(),
                AttemptStage::Asking => calls == seq![look(false)],
                AttemptStage::Clearing(met) => {
                    &&& calls == seq![look(false), change_call(request, Err(met))]
                    &&& !object_move::passed_on(request, met)
                    &&& met.stopped_by_interrupt()
                },
                AttemptStage::Confirming(met) => {
                    &&& !object_move::passed_on(request, met)
                    &&& if met.stopped_by_interrupt() {
                        exists|raised: bool|
                            calls == seq![
                                look(false),
                                change_call(request, Err(met)),
                                #[trigger] clear(raised),
                            ]
                    } else {
                        calls == seq![look(false), change_call(request, Err(met))]
                    }
                },
            }
        },
    decreases calls.len(),
{
    let start = AttemptStepView::Ask(AttemptView::at(request));
    if calls.len() > 0 {
        let earlier = calls.drop_last();
        attempt_so_far(request, earlier);
        assert(calls =~= earlier.push(calls.last()));
        if let Some(AttemptStepView::Ask(attempt)) = start.after(calls) {
            let before = start.after(earlier)->0->Ask_0;
            match before.stage {
                AttemptStage::Looking => {
                    assert(calls =~= seq![look(false)]);
                },
                AttemptStage::Asking => {
                    let met = calls.last().told->Generation_0->Err_0;
                    assert(calls =~= seq![look(false), change_call(request, Err(met))]);
                },
                AttemptStage::Clearing(met) => {
                    let raised = calls.last().told->Flag_0;
                    assert(calls =~= seq![
                        look(false),
                        change_call(request, Err(met)),
                        clear(raised),
                    ]);
                },
                AttemptStage::Confirming(_) => {},
            }
        }
    } else {
        assert(calls =~= Seq::<Call>::empty());
    }
}

/// The changes are those that staging the plan makes.
pub open spec fn staging_of(plan: Seq<PlannedView>, staged: Seq<ChangeView>) -> bool
    decreases plan.len(),
{
    if plan.len() == 0 {
        staged.len() == 0
    } else if plan.last() is Line {
        staging_of(plan.drop_last(), staged)
    } else {
        &&& staged.len() > 0
        &&& staged.last() == plan.last().staged(staged.last().generation)
        &&& staging_of(plan.drop_last(), staged.drop_last())
    }
}

/// The calls that stage the plan, entry after entry: each line is shown, and each
/// change is asked for once and followed by a look at the flag, which is not
/// raised.
pub open spec fn staging_calls(plan: Seq<PlannedView>, staged: Seq<ChangeView>) -> Seq<Call>
    decreases plan.len(),
{
    if plan.len() == 0 {
        Seq::empty()
    } else if plan.last() is Line {
        staging_calls(plan.drop_last(), staged).push(
            Call { asked: plan.last().staging(), told: Told::Nothing },
        )
    } else {
        (staging_calls(plan.drop_last(), staged.drop_last()) + succeeded(
            plan.last().staging(),
            staged.last().generation,
        )).push(look(false))
    }
}

/// Where a staged change is to stand in the end.
pub open spec fn final_target(
    uploads: bool,
    plan: Seq<PlannedView>,
    staged: Seq<ChangeView>,
    i: int,
) -> ObjectPathView {
    if uploads {
        staged[i].target
    } else {
        plan[i]->Move_target
    }
}

/// The call that finalizes a staged change.
pub open spec fn finalization(
    uploads: bool,
    plan: Seq<PlannedView>,
    staged: Seq<ChangeView>,
    i: int,
) -> Asked {
    Asked::Move {
        source: if uploads {
            staged[i].source
        } else {
            staged[i].target
        },
        target: final_target(uploads, plan, staged, i),
        expected_source_generation: Some(staged[i].generation),
    }
}

/// The changes are those that finalizing the first staged changes makes.
pub open spec fn finalizing_of(
    uploads: bool,
    plan: Seq<PlannedView>,
    staged: Seq<ChangeView>,
    finalized: Seq<ChangeView>,
) -> bool {
    &&& finalized.len() <= staged.len()
    &&& forall|i: int|
        0 <= i < finalized.len() ==> (#[trigger] finalized[i]).source == staged[i].source
            && finalized[i].target == final_target(uploads, plan, staged, i)
}

/// The calls that finalize the first staged changes, in order, each asked for once
/// and followed by a look at the flag, which is not raised.
pub open spec fn finalizing_calls(
    uploads: bool,
    plan: Seq<PlannedView>,
    staged: Seq<ChangeView>,
    finalized: Seq<ChangeView>,
) -> Seq<Call>
    decreases finalized.len(),
{
    if finalized.len() == 0 {
        Seq::empty()
    } else {
        (finalizing_calls(uploads, plan, staged, finalized.drop_last()) + succeeded(
            finalization(uploads, plan, staged, finalized.len() - 1),
            finalized.last().generation,
        )).push(look(false))
    }
}

/// The staged changes once the finalization of one failed.
pub open spec fn restored(
    staged: Seq<ChangeView>,
    i: int,
    failure: AppError,
) -> Seq<ChangeView> {
    match failure.restored_generation() {
        Some(generation) => staged.update(i, ChangeView { generation, ..staged[i] }),
        None => staged,
    }
}

/// The calls are these, but for the last one, a look at the flag, which is raised.
pub open spec fn interrupted_at_the_end(calls: Seq<Call>, these: Seq<Call>) -> bool {
    &&& these.len() > 0
    &&& calls == these.drop_last().push(look(true))
}

/// The calls of a transaction up to its failure: staging an entry fails, or is
/// followed by an interrupt, and nothing is finalized; or all is staged, and
/// finalizing a change fails, or is followed by an interrupt. After it the staged
/// and the finalized changes stand.
pub open spec fn stops(
    uploads: bool,
    plan: Seq<PlannedView>,
    calls: Seq<Call>,
    failure: AppError,
    staged: Seq<ChangeView>,
    finalized: Seq<ChangeView>,
) -> bool {
    ||| exists|at: int, attempt: Seq<Call>|
        {
            &&& 0 <= at < plan.len()
            &&& !(plan[at] is Line)
            &&& finalized.len() == 0
            &&& staging_of(plan.take(at), staged)
            &&& #[trigger] failed(plan[at].staging(), attempt, failure)
            &&& calls == staging_calls(plan.take(at), staged) + attempt
        }
    ||| exists|at: int|
        {
            &&& 0 < at <= plan.len()
            &&& !(plan[at - 1] is Line)
            &&& finalized.len() == 0
            &&& staging_of(plan.take(at), staged)
            &&& failure == AppError::Interrupted
            &&& interrupted_at_the_end(calls, #[trigger] staging_calls(plan.take(at), staged))
        }
    ||| exists|kept: Seq<ChangeView>, attempt: Seq<Call>|
        {
            &&& staging_of(plan, kept)
            &&& finalizing_of(uploads, plan, kept, finalized)
            &&& finalized.len() < kept.len()
            &&& #[trigger] failed(
                finalization(uploads, plan, kept, finalized.len() as int),
                attempt,
                failure,
            )
            &&& staged == restored(kept, finalized.len() as int, failure)
            &&& calls == staging_calls(plan, kept) + finalizing_calls(
                uploads,
                plan,
                kept,
                finalized,
            ) + attempt
        }
    ||| {
        &&& staging_of(plan, staged)
        &&& finalizing_of(uploads, plan, staged, finalized)
        &&& finalized.len() > 0
        &&& failure == AppError::Interrupted
        &&& interrupted_at_the_end(
            calls,
            staging_calls(plan, staged) + finalizing_calls(uploads, plan, staged, finalized),
        )
    }
}

/// The calls of a transaction that succeeds: the whole plan is staged, and all of
/// it is finalized after that.
pub open spec fn completes(
    uploads: bool,
    plan: Seq<PlannedView>,
    calls: Seq<Call>,
    staged: Seq<ChangeView>,
    finalized: Seq<ChangeView>,
) -> bool {
    &&& staging_of(plan, staged)
    &&& finalizing_of(uploads, plan, staged, finalized)
    &&& finalized.len() == staged.len()
    &&& calls == staging_calls(plan, staged) + finalizing_calls(uploads, plan, staged, finalized)
}

/// The calls of a transaction that fails: those up to the failure, the lowering of
/// the interrupt flag, and those that undo what was done.
pub open spec fn fails(
    uploads: bool,
    plan: Seq<PlannedView>,
    calls: Seq<Call>,
    failure: AppError,
    errors: Seq<AppError>,
    done: Seq<Call>,
    raised: bool,
    undo: Seq<Call>,
    staged: Seq<ChangeView>,
    finalized: Seq<ChangeView>,
) -> bool {
    &&& calls == done.push(clear(raised)) + undo
    &&& stops(uploads, plan, done, failure, staged, finalized)
    &&& undoing::undone_by(uploads, staged, finalized, undo, errors)
}

/// The transaction fails, and is undone.
pub open spec fn is_undone(
    uploads: bool,
    plan: Seq<PlannedView>,
    calls: Seq<Call>,
    failure: AppError,
    errors: Seq<AppError>,
) -> bool {
    exists|
        done: Seq<Call>,
        raised: bool,
        undo: Seq<Call>,
        staged: Seq<ChangeView>,
        finalized: Seq<ChangeView>,
    | #[trigger]
        fails(
            uploads,
            plan,
            calls,
            failure,
            errors,
            done,
            raised,
            undo,
            staged,
            finalized,
        )
}

/// The transaction succeeds.
pub open spec fn is_completed(uploads: bool, plan: Seq<PlannedView>, calls: Seq<Call>) -> bool {
    exists|staged: Seq<ChangeView>, finalized: Seq<ChangeView>| #[trigger]
        completes(uploads, plan, calls, staged, finalized)
}

/// Every transaction that is over either stages its whole plan and finalizes all of
/// it after that, or makes its calls up to a failure, lowers the interrupt flag,
/// and undoes what was done, and makes no other call.
pub proof fn a_transaction_is_completed_or_undone(
    uploads: bool,
    plan: Seq<PlannedView>,
    calls: Seq<Call>,
    failure: Option<AppError>,
    errors: Seq<AppError>,
)
    requires
        remote_run::plannable(uploads, plan),
        RunStepView::start(uploads, plan).after(calls) == Some(RunStepView::Done(failure, errors)),
    ensures
        match failure {
            None => errors.len() == 0 && is_completed(uploads, plan, calls),
            Some(failure) => is_undone(uploads, plan, calls, failure, errors),
        },
{
    run_so_far(uploads, plan, calls);
}

/// How the calls led to the step.
spec fn stands(uploads: bool, plan: Seq<PlannedView>, calls: Seq<Call>, step: RunStepView) -> bool {
    match step {
        RunStepView::Done(failure, errors) => match failure {
            None => errors.len() == 0 && is_completed(uploads, plan, calls),
            Some(failure) => is_undone(uploads, plan, calls, failure, errors),
        },
        RunStepView::Ask(run) => {
            &&& run.uploads == uploads
            &&& run.plan == plan
            &&& run.wf()
            &&& match run.stage {
                RunStageView::Reporting => staged_all(run, calls),
                RunStageView::Staging(attempt) => exists|before: Seq<Call>, made: Seq<Call>|
                    {
                        &&& calls == before + made
                        &&& staged_all(run, before)
                        &&& #[trigger] attempted(
                            plan[run.at].staging(),
                            made,
                            attempt,
                        )
                        &&& #[trigger] before.len() >= 0
                    },
                RunStageView::Staged => {
                    &&& run.at > 0
                    &&& !(plan[run.at - 1] is Line)
                    &&& staged_all(run, calls.push(look(false)))
                },
                RunStageView::Finalizing(attempt) => exists|before: Seq<Call>, made: Seq<Call>|
                    {
                        &&& calls == before + made
                        &&& finalized_all(run, before)
                        &&& run.finalized.len() < run.staged.len()
                        &&& #[trigger] attempted(
                            finalization(uploads, plan, run.staged, run.finalized.len() as int),
                            made,
                            attempt,
                        )
                        &&& #[trigger] before.len() >= 0
                    },
                RunStageView::Finalized => {
                    &&& run.finalized.len() > 0
                    &&& finalized_all(run, calls.push(look(false)))
                },
                RunStageView::Clearing(failure) => stops(
                    uploads,
                    plan,
                    calls,
                    failure,
                    run.staged,
                    run.finalized,
                ),
                RunStageView::Undoing(failure, undoing) => exists|
                    done: Seq<Call>,
                    raised: bool,
                    undo: Seq<Call>,
                |
                    {
                        &&& calls == #[trigger] done.push(clear(raised)) + undo
                        &&& stops(uploads, plan, done, failure, run.staged, run.finalized)
                        &&& #[trigger] undo_start(run).after(undo) == Some(
                            UndoStepView::Ask(undoing),
                        )
                    },
            }
        },
    }
}

spec fn undo_start(run: RunView) -> UndoStepView {
    UndoStepView::start(run.uploads, transaction::undo_order(run.staged, run.finalized))
}

spec fn attempted(request: Asked, made: Seq<Call>, attempt: AttemptView) -> bool {
    AttemptStepView::Ask(AttemptView::at(request)).after(made) == Some(AttemptStepView::Ask(attempt))
}

/// The plan is staged so far.
spec fn staged_all(run: RunView, calls: Seq<Call>) -> bool {
    &&& run.finalized.len() == 0
    &&& staging_of(run.plan.take(run.at), run.staged)
    &&& calls == staging_calls(run.plan.take(run.at), run.staged)
}

/// The plan is staged, and finalized so far.
spec fn finalized_all(run: RunView, calls: Seq<Call>) -> bool {
    &&& run.at == run.plan.len()
    &&& staging_of(run.plan, run.staged)
    &&& finalizing_of(run.uploads, run.plan, run.staged, run.finalized)
    &&& calls == staging_calls(run.plan, run.staged) + finalizing_calls(
        run.uploads,
        run.plan,
        run.staged,
        run.finalized,
    )
}

proof fn before_an_attempt(request: Asked, calls: Seq<Call>)
    ensures
        attempted(request, Seq::empty(), AttemptView::at(request)),
        calls == calls + Seq::<Call>::empty(),
{
    assert(calls =~= calls + Seq::<Call>::empty());
}

/// Where the plan is staged so far, the next entry follows.
proof fn after_staging(run: RunView, calls: Seq<Call>)
    requires
        remote_run::plannable(run.uploads, run.plan),
        0 <= run.at <= run.plan.len(),
        run.staged.len() <= run.at,
        !run.uploads ==> run.staged.len() == run.at,
        staged_all(run, calls),
    ensures
        stands(run.uploads, run.plan, calls, run.stage_next()),
{
    if run.at == run.plan.len() {
        assert(run.plan.take(run.at) =~= run.plan);
        assert(run.finalized =~= Seq::empty());
        assert(calls =~= calls + finalizing_calls(
            run.uploads,
            run.plan,
            run.staged,
            run.finalized,
        ));
        after_finalizing(run, calls);
    } else if !(run.plan[run.at] is Line) {
        before_an_attempt(run.plan[run.at].staging(), calls);
        assert(calls.len() >= 0);
    }
}

/// Where the plan is staged, and finalized so far, the next change follows.
proof fn after_finalizing(run: RunView, calls: Seq<Call>)
    requires
        remote_run::plannable(run.uploads, run.plan),
        run.staged.len() <= run.at,
        !run.uploads ==> run.staged.len() == run.at,
        finalized_all(run, calls),
    ensures
        stands(run.uploads, run.plan, calls, run.finalize_next()),
{
    if run.finalized.len() == run.staged.len() {
        assert(completes(run.uploads, run.plan, calls, run.staged, run.finalized));
    } else {
        before_an_attempt(
            finalization(run.uploads, run.plan, run.staged, run.finalized.len() as int),
            calls,
        );
        assert(calls.len() >= 0);
    }
}

proof fn run_so_far(uploads: bool, plan: Seq<PlannedView>, calls: Seq<Call>)
    requires
        remote_run::plannable(uploads, plan),
    ensures
        RunStepView::start(uploads, plan).after(calls) matches Some(step) ==> stands(
            uploads,
            plan,
            calls,
            step,
        ),
    decreases calls.len(),
{
    let start = RunStepView::start(uploads, plan);
    if calls.len() == 0 {
        let run = RunView {
            uploads,
            plan,
            at: 0,
            staged: Seq::empty(),
            finalized: Seq::empty(),
            stage: RunStageView::Staged,
        };
        assert(plan.take(0) =~= Seq::empty());
        assert(calls =~= Seq::empty());
        after_staging(run, calls);
    } else {
        let earlier = calls.drop_last();
        run_so_far(uploads, plan, earlier);
        if start.after(calls) is Some {
            let run = start.after(earlier)->0->Ask_0;
            assert(calls =~= earlier.push(calls.last()));
            one_more(uploads, plan, earlier, run, calls.last());
        }
    }
}

proof fn one_more(
    uploads: bool,
    plan: Seq<PlannedView>,
    earlier: Seq<Call>,
    run: RunView,
    call: Call,
)
    requires
        remote_run::plannable(uploads, plan),
        stands(uploads, plan, earlier, RunStepView::Ask(run)),
        run.asks() == call.asked,
        run.asks().fits(call.told),
    ensures
        stands(uploads, plan, earlier.push(call), run.next(call.told)),
{
    let calls = earlier.push(call);
    match run.stage {
        RunStageView::Reporting => {
            let next = RunView { at: run.at + 1, ..run };
            assert(plan.take(run.at + 1).drop_last() =~= plan.take(run.at));
            assert(plan.take(run.at + 1).last() == plan[run.at]);
            after_staging(next, calls);
        },
        RunStageView::Staging(attempt) => {
            staging_goes_on(uploads, plan, earlier, run, attempt, call);
        },
        RunStageView::Staged => {
            if call.told->Flag_0 {
                let these = staging_calls(plan.take(run.at), run.staged);
                assert(these.drop_last() =~= earlier);
                assert(interrupted_at_the_end(calls, these));
            } else {
                assert(call == look(false));
                after_staging(run, calls);
            }
        },
        RunStageView::Finalizing(attempt) => {
            finalizing_goes_on(uploads, plan, earlier, run, attempt, call);
        },
        RunStageView::Finalized => {
            if call.told->Flag_0 {
                let these = staging_calls(plan, run.staged) + finalizing_calls(
                    uploads,
                    plan,
                    run.staged,
                    run.finalized,
                );
                assert(these.drop_last() =~= earlier);
                assert(interrupted_at_the_end(calls, these));
            } else {
                assert(call == look(false));
                after_finalizing(run, calls);
            }
        },
        RunStageView::Clearing(failure) => {
            undoing_starts(uploads, plan, earlier, run, failure, call);
        },
        RunStageView::Undoing(failure, undoing) => {
            undoing_goes_on(uploads, plan, earlier, run, failure, undoing, call);
        },
    }
}

/// The step that follows from a step of the undoing.
proof fn after_undoing(
    uploads: bool,
    plan: Seq<PlannedView>,
    calls: Seq<Call>,
    run: RunView,
    failure: AppError,
    done: Seq<Call>,
    raised: bool,
    undo: Seq<Call>,
    step: UndoStepView,
)
    requires
        run.uploads == uploads,
        run.plan == plan,
        run.wf(),
        calls == done.push(clear(raised)) + undo,
        stops(uploads, plan, done, failure, run.staged, run.finalized),
        undo_start(run).after(undo) == Some(step),
        step matches UndoStepView::Ask(undoing) ==> undoing.wf(),
    ensures
        stands(uploads, plan, calls, run.undo_next(failure, step)),
{
    match step {
        UndoStepView::Done(errors) => {
            assert(fails(
                uploads,
                plan,
                calls,
                failure,
                errors,
                done,
                raised,
                undo,
                run.staged,
                run.finalized,
            ));
        },
        UndoStepView::Ask(undoing) => {
            let next = RunView { stage: RunStageView::Undoing(failure, undoing), ..run };
            assert(undo_start(next) == undo_start(run));
            assert(undo_start(next).after(undo) == Some(UndoStepView::Ask(undoing)));
            assert(calls == done.push(clear(raised)) + undo);
        },
    }
}

proof fn undoing_starts(
    uploads: bool,
    plan: Seq<PlannedView>,
    earlier: Seq<Call>,
    run: RunView,
    failure: AppError,
    call: Call,
)
    requires
        run.stage == RunStageView::Clearing(failure),
        stands(uploads, plan, earlier, RunStepView::Ask(run)),
        run.asks() == call.asked,
        run.asks().fits(call.told),
    ensures
        stands(uploads, plan, earlier.push(call), run.next(call.told)),
{
    let raised = call.told->Flag_0;
    let undo = Seq::<Call>::empty();
    assert(call == clear(raised));
    assert(earlier.push(call) =~= earlier.push(clear(raised)) + undo);
    assert(undo_start(run).after(undo) == Some(undo_start(run)));
    after_undoing(
        uploads,
        plan,
        earlier.push(call),
        run,
        failure,
        earlier,
        raised,
        undo,
        undo_start(run),
    );
}

proof fn undoing_goes_on(
    uploads: bool,
    plan: Seq<PlannedView>,
    earlier: Seq<Call>,
    run: RunView,
    failure: AppError,
    undoing: UndoingView,
    call: Call,
)
    requires
        run.stage == RunStageView::Undoing(failure, undoing),
        stands(uploads, plan, earlier, RunStepView::Ask(run)),
        run.asks() == call.asked,
        run.asks().fits(call.told),
    ensures
        stands(uploads, plan, earlier.push(call), run.next(call.told)),
{
    let (done, raised, undo) = choose|done: Seq<Call>, raised: bool, undo: Seq<Call>|
        {
            &&& earlier == #[trigger] done.push(clear(raised)) + undo
            &&& stops(uploads, plan, done, failure, run.staged, run.finalized)
            &&& #[trigger] undo_start(run).after(undo) == Some(UndoStepView::Ask(undoing))
        };
    let grown = undo.push(call);
    assert(grown.drop_last() =~= undo);
    assert(earlier.push(call) =~= done.push(clear(raised)) + grown);
    assert(undo_start(run).after(grown) == Some(undoing.next(call.told)));
    after_undoing(
        uploads,
        plan,
        earlier.push(call),
        run,
        failure,
        done,
        raised,
        grown,
        undoing.next(call.told),
    );
}

proof fn staging_goes_on(
    uploads: bool,
    plan: Seq<PlannedView>,
    earlier: Seq<Call>,
    run: RunView,
    attempt: AttemptView,
    call: Call,
)
    requires
        remote_run::plannable(uploads, plan),
        run.stage == RunStageView::Staging(attempt),
        stands(uploads, plan, earlier, RunStepView::Ask(run)),
        run.asks() == call.asked,
        run.asks().fits(call.told),
    ensures
        stands(uploads, plan, earlier.push(call), run.next(call.told)),
{
    let calls = earlier.push(call);
    let request = plan[run.at].staging();
    let (before, made) = choose|before: Seq<Call>, made: Seq<Call>|
        {
            &&& earlier == before + made
            &&& staged_all(run, before)
            &&& #[trigger] attempted(request, made, attempt)
            &&& #[trigger] before.len() >= 0
        };
    let grown = made.push(call);
    assert(grown.drop_last() =~= made);
    assert(calls =~= before + grown);
    attempt_so_far(request, made);
    match attempt.next(call.told) {
        AttemptStepView::Ask(next) => {
            assert(attempted(request, grown, next));
            assert(before.len() >= 0);
        },
        AttemptStepView::Done(outcome) => {
            a_change_is_asked_for_once(request, grown, outcome);
            match outcome {
                Ok(generation) => {
                    let change = plan[run.at].staged(generation);
                    let staged = run.staged.push(change);
                    assert(plan.take(run.at + 1).drop_last() =~= plan.take(run.at));
                    assert(plan.take(run.at + 1).last() == plan[run.at]);
                    assert(staged.drop_last() =~= run.staged);
                    assert(change.generation == generation);
                    assert(calls.push(look(false)) =~= staging_calls(plan.take(run.at + 1), staged));
                },
                Err(failure) => {
                    assert(failed(request, grown, failure));
                    assert(stops(uploads, plan, calls, failure, run.staged, run.finalized));
                },
            }
        },
    }
}

proof fn finalizing_goes_on(
    uploads: bool,
    plan: Seq<PlannedView>,
    earlier: Seq<Call>,
    run: RunView,
    attempt: AttemptView,
    call: Call,
)
    requires
        remote_run::plannable(uploads, plan),
        run.stage == RunStageView::Finalizing(attempt),
        stands(uploads, plan, earlier, RunStepView::Ask(run)),
        run.asks() == call.asked,
        run.asks().fits(call.told),
    ensures
        stands(uploads, plan, earlier.push(call), run.next(call.told)),
{
    let calls = earlier.push(call);
    let i = run.finalized.len() as int;
    let request = finalization(uploads, plan, run.staged, i);
    let (before, made) = choose|before: Seq<Call>, made: Seq<Call>|
        {
            &&& earlier == before + made
            &&& finalized_all(run, before)
            &&& #[trigger] attempted(request, made, attempt)
            &&& #[trigger] before.len() >= 0
        };
    let grown = made.push(call);
    assert(grown.drop_last() =~= made);
    assert(calls =~= before + grown);
    attempt_so_far(request, made);
    match attempt.next(call.told) {
        AttemptStepView::Ask(next) => {
            assert(attempted(request, grown, next));
            assert(before.len() >= 0);
        },
        AttemptStepView::Done(outcome) => {
            a_change_is_asked_for_once(request, grown, outcome);
            match outcome {
                Ok(generation) => {
                    let change = ChangeView {
                        source: run.staged[i].source,
                        target: run.final_target(i),
                        generation,
                    };
                    let finalized = run.finalized.push(change);
                    assert(finalized.drop_last() =~= run.finalized);
                    assert(finalizing_of(uploads, plan, run.staged, finalized)) by {
                        assert forall|k: int| 0 <= k < finalized.len() implies (
                        #[trigger] finalized[k]).source == run.staged[k].source
                            && finalized[k].target == final_target(uploads, plan, run.staged, k) by {
                            if k < i {
                                assert(finalized[k] == run.finalized[k]);
                            }
                        }
                    }
                    assert(calls.push(look(false)) =~= staging_calls(plan, run.staged)
                        + finalizing_calls(uploads, plan, run.staged, finalized));
                },
                Err(failure) => {
                    assert(failed(request, grown, failure));
                    assert(run.restored(failure) == restored(run.staged, i, failure));
                    assert(stops(
                        uploads,
                        plan,
                        calls,
                        failure,
                        run.restored(failure),
                        run.finalized,
                    ));
                },
            }
        },
    }
}

} // verus!
