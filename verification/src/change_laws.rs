//! When a change fails, what is undone, and when a transaction succeeds.
use vstd::prelude::*;

use crate::error::AppError;
use crate::error;
use crate::error_laws;
use crate::interrupt::InterruptFlag;
use crate::object_move::AttemptStage;
use crate::object_move::AttemptStepView;
use crate::object_move::AttemptView;
use crate::record::TransactionCall;
use crate::remote_run;
use crate::remote_run::PlannedView;
use crate::remote_run::RunStepView;
use crate::run_laws;
use crate::session::Asked;
use crate::session::Call;
use crate::session::Told;
use crate::text;
use crate::transaction::RemoteTransaction;
use crate::transaction;
use crate::transaction::ChangeView;
use crate::transaction::RemoteChange;
use crate::transaction::UndoView;
use crate::undoing::UndoingView;

verus! {

/// Whether the failure of a change needs no confirmation: another held the lock, or a
/// move was already undone and tells under which generation.
pub open spec fn speaks_for_itself(request: Asked, failure: AppError) -> bool {
    ||| error_laws::first_failure(failure) is BucketLockConflict
    ||| request is Move && error_laws::first_failure(failure) is InterruptedAfterMoveRollback
}

/// Whether an interrupt stopped the change or the retrieval of its token.
pub open spec fn was_interrupted(failure: AppError) -> bool {
    ||| error_laws::token_failure(failure) is Interrupted
    ||| error_laws::token_failure(failure) is InterruptedAfterMoveRollback
    ||| error_laws::token_failure(failure) is InterruptedAfterRequest
}

/// A change that succeeds is over. One that fails is confirmed, after the interrupt flag
/// was lowered where an interrupt stopped it, unless its failure speaks for itself. A
/// confirmed failure is the failure of the change, and otherwise it is what the
/// confirmation found.
pub proof fn a_failed_change_is_confirmed(attempt: AttemptView, told: Told)
    requires
        attempt.wf(),
        attempt.asks().fits(told),
    ensures
        match attempt.stage {
            AttemptStage::Looking => {
                &&& attempt.asks() is Look
                &&& told == Told::Flag(true) ==> attempt.next(told) == AttemptStepView::Done(
                    Err(AppError::Interrupted),
                )
                &&& told == Told::Flag(false) ==> attempt.next(told) == AttemptStepView::Ask(
                    AttemptView { stage: AttemptStage::Asking, ..attempt },
                )
            },
            AttemptStage::Asking => {
                &&& attempt.asks() == attempt.request
                &&& told matches Told::Generation(answer) && match answer {
                    Ok(generation) => attempt.next(told) == AttemptStepView::Done(Ok(generation)),
                    Err(failure) => attempt.next(told) == if speaks_for_itself(
                        attempt.request,
                        failure,
                    ) {
                        AttemptStepView::Done(Err(failure))
                    } else if was_interrupted(failure) {
                        AttemptStepView::Ask(
                            AttemptView { stage: AttemptStage::Clearing(failure), ..attempt },
                        )
                    } else {
                        AttemptStepView::Ask(
                            AttemptView { stage: AttemptStage::Confirming(failure), ..attempt },
                        )
                    },
                }
            },
            AttemptStage::Clearing(failure) => {
                &&& attempt.asks() is Clear
                &&& attempt.next(told) == AttemptStepView::Ask(
                    AttemptView { stage: AttemptStage::Confirming(failure), ..attempt },
                )
            },
            AttemptStage::Confirming(failure) => {
                &&& match attempt.request {
                    Asked::Move { source, target, .. } => attempt.asks() == (Asked::ConfirmMove {
                        source,
                        target,
                        failure,
                    }),
                    Asked::Upload { target, .. } => attempt.asks() == (Asked::ConfirmWrite {
                        target,
                        failure,
                    }),
                    _ => true,
                }
                &&& told matches Told::Outcome(confirmed) && match confirmed {
                    Ok(_) => attempt.next(told) == AttemptStepView::Done(Err(failure)),
                    Err(recovery) => attempt.next(told) == AttemptStepView::Done(Err(recovery)),
                }
            },
        },
{
    if let Told::Generation(Err(failure)) = told {
        error_laws::a_failure_is_known_through_its_rollbacks(failure);
        error_laws::an_interruption_is_known_through_its_token(failure);
    }
}

/// The answer is no failure, and no interrupt was seen.
pub open spec fn is_good(call: Call) -> bool {
    match call.told {
        Told::Generation(answer) => answer is Ok,
        Told::Outcome(answer) => answer is Ok,
        Told::Flag(raised) => !raised,
        _ => true,
    }
}

/// A transaction fails only where a call of it fails or an interrupt is seen. Where every
/// answer is good, the whole plan is staged and all of it finalized.
pub proof fn a_transaction_without_failures_succeeds(
    uploads: bool,
    plan: Seq<PlannedView>,
    calls: Seq<Call>,
    failure: Option<AppError>,
    errors: Seq<AppError>,
)
    requires
        remote_run::plannable(uploads, plan),
        RunStepView::start(uploads, plan).after(calls) == Some(RunStepView::Done(failure, errors)),
        forall|i: int| 0 <= i < calls.len() ==> is_good(#[trigger] calls[i]),
    ensures
        failure is None,
        errors.len() == 0,
        run_laws::is_completed(uploads, plan, calls),
{
    run_laws::a_transaction_is_completed_or_undone(uploads, plan, calls, failure, errors);
    if let Some(met) = failure {
        a_failure_shows(uploads, plan, calls, met, errors);
    }
}

proof fn a_failure_shows(
    uploads: bool,
    plan: Seq<PlannedView>,
    calls: Seq<Call>,
    failure: AppError,
    errors: Seq<AppError>,
)
    requires
        run_laws::is_undone(uploads, plan, calls, failure, errors),
    ensures
        exists|i: int| 0 <= i < calls.len() && !is_good(#[trigger] calls[i]),
{
    let (done, raised, undo, staged, finalized) = choose|
        done: Seq<Call>,
        raised: bool,
        undo: Seq<Call>,
        staged: Seq<ChangeView>,
        finalized: Seq<ChangeView>,
    | #[trigger]
        run_laws::fails(
            uploads,
            plan,
            calls,
            failure,
            errors,
            done,
            raised,
            undo,
            staged,
            finalized,
        );
    let at = a_stop_shows(uploads, plan, done, failure, staged, finalized);
    assert(calls[at] == done[at]);
}

proof fn a_stop_shows(
    uploads: bool,
    plan: Seq<PlannedView>,
    calls: Seq<Call>,
    failure: AppError,
    staged: Seq<ChangeView>,
    finalized: Seq<ChangeView>,
) -> (at: int)
    requires
        run_laws::stops(uploads, plan, calls, failure, staged, finalized),
    ensures
        0 <= at < calls.len(),
        !is_good(calls[at]),
{
    if exists|at: int, attempt: Seq<Call>|
        {
            &&& 0 <= at < plan.len()
            &&& !(plan[at] is Line)
            &&& finalized.len() == 0
            &&& run_laws::staging_of(plan.take(at), staged)
            &&& #[trigger] run_laws::failed(plan[at].staging(), attempt, failure)
            &&& calls == run_laws::staging_calls(plan.take(at), staged) + attempt
        } {
        let (at, attempt) = choose|at: int, attempt: Seq<Call>|
            {
                &&& 0 <= at < plan.len()
                &&& !(plan[at] is Line)
                &&& finalized.len() == 0
                &&& run_laws::staging_of(plan.take(at), staged)
                &&& #[trigger] run_laws::failed(plan[at].staging(), attempt, failure)
                &&& calls == run_laws::staging_calls(plan.take(at), staged) + attempt
            };
        let k = a_failed_attempt_shows(plan[at].staging(), attempt, failure);
        let before = run_laws::staging_calls(plan.take(at), staged);
        assert(calls[before.len() + k] == attempt[k]);
        before.len() + k
    } else if exists|kept: Seq<ChangeView>, attempt: Seq<Call>|
        {
            &&& run_laws::staging_of(plan, kept)
            &&& run_laws::finalizing_of(uploads, plan, kept, finalized)
            &&& finalized.len() < kept.len()
            &&& #[trigger] run_laws::failed(
                run_laws::finalization(uploads, plan, kept, finalized.len() as int),
                attempt,
                failure,
            )
            &&& staged == run_laws::restored(kept, finalized.len() as int, failure)
            &&& calls == run_laws::staging_calls(plan, kept) + run_laws::finalizing_calls(
                uploads,
                plan,
                kept,
                finalized,
            ) + attempt
        } {
        let (kept, attempt) = choose|kept: Seq<ChangeView>, attempt: Seq<Call>|
            {
                &&& run_laws::staging_of(plan, kept)
                &&& run_laws::finalizing_of(uploads, plan, kept, finalized)
                &&& finalized.len() < kept.len()
                &&& #[trigger] run_laws::failed(
                    run_laws::finalization(uploads, plan, kept, finalized.len() as int),
                    attempt,
                    failure,
                )
                &&& staged == run_laws::restored(kept, finalized.len() as int, failure)
                &&& calls == run_laws::staging_calls(plan, kept) + run_laws::finalizing_calls(
                    uploads,
                    plan,
                    kept,
                    finalized,
                ) + attempt
            };
        let k = a_failed_attempt_shows(
            run_laws::finalization(uploads, plan, kept, finalized.len() as int),
            attempt,
            failure,
        );
        let before = run_laws::staging_calls(plan, kept) + run_laws::finalizing_calls(
            uploads,
            plan,
            kept,
            finalized,
        );
        assert(calls[before.len() + k] == attempt[k]);
        before.len() + k
    } else {
        let last = calls.len() - 1;
        assert(calls.last() == run_laws::look(true));
        last
    }
}

proof fn a_failed_attempt_shows(request: Asked, calls: Seq<Call>, failure: AppError) -> (at: int)
    requires
        run_laws::failed(request, calls, failure),
    ensures
        0 <= at < calls.len(),
        !is_good(calls[at]),
{
    if calls.len() == 1 {
        assert(calls[0] == run_laws::look(true));
        0
    } else {
        assert(calls[1].told matches Told::Generation(answer) && answer is Err);
        1
    }
}

/// What is undone after a failure: every finalized change, the last one first, and after
/// that every staged change whose object was not finalized, the last one first.
pub proof fn every_change_is_undone_last_first(
    staged: Seq<ChangeView>,
    finalized: Seq<ChangeView>,
)
    ensures
        transaction::undo_order(staged, finalized) == finalized.reverse().map_values(
            |change: ChangeView| UndoView::Finalized(change),
        ) + staged.filter(
            |change: ChangeView|
                forall|i: int|
                    0 <= i < finalized.len() ==> (#[trigger] finalized[i]).source != change.source,
        ).reverse().map_values(|change: ChangeView| UndoView::Staged(change)),
{
    unfinalized_by_filter(staged, finalized);
}

proof fn unfinalized_by_filter(staged: Seq<ChangeView>, finalized: Seq<ChangeView>)
    ensures
        transaction::unfinalized(staged, finalized) == staged.filter(
            |change: ChangeView|
                forall|i: int|
                    0 <= i < finalized.len() ==> (#[trigger] finalized[i]).source != change.source,
        ).reverse(),
    decreases staged.len(),
{
    let keep = |change: ChangeView|
        forall|i: int|
            0 <= i < finalized.len() ==> (#[trigger] finalized[i]).source != change.source;
    reveal(Seq::filter);
    if staged.len() == 0 {
        assert(staged.filter(keep).reverse() =~= Seq::empty());
    } else {
        let shorter = staged.drop_last();
        let last = staged.last();
        unfinalized_by_filter(shorter, finalized);
        if transaction::has_source(finalized, last.source) {
            assert(!keep(last));
            assert(staged.filter(keep) == shorter.filter(keep));
        } else {
            assert(keep(last)) by {
                assert forall|i: int| 0 <= i < finalized.len() implies (
                #[trigger] finalized[i]).source != last.source by {}
            }
            assert(staged.filter(keep) == shorter.filter(keep).push(last));
            assert(shorter.filter(keep).push(last).reverse() =~= seq![last] + shorter.filter(
                keep,
            ).reverse());
        }
    }
}

/// The failures among answers are the failed ones, all of them, in order.
pub proof fn every_failure_is_collected(answers: Seq<Result<(), AppError>>)
    ensures
        transaction::failures(answers) == answers.filter(
            |answer: Result<(), AppError>| answer is Err,
        ).map_values(|answer: Result<(), AppError>| answer->Err_0),
    decreases answers.len(),
{
    reveal(Seq::filter);
    let keep = |answer: Result<(), AppError>| answer is Err;
    let taken = |answer: Result<(), AppError>| answer->Err_0;
    if answers.len() == 0 {
        assert(answers.filter(keep).map_values(taken) =~= Seq::empty());
    } else {
        let shorter = answers.drop_last();
        every_failure_is_collected(shorter);
        match answers.last() {
            Ok(_) => {
                assert(answers.filter(keep) == shorter.filter(keep));
            },
            Err(error) => {
                assert(answers.filter(keep) == shorter.filter(keep).push(answers.last()));
                assert(answers.filter(keep).map_values(taken) =~= shorter.filter(keep).map_values(
                    taken,
                ).push(error));
            },
        }
    }
}

/// Finalizing asks for each staged change once, in order, and looks at the interrupt flag
/// after each.
pub proof fn each_change_is_finalized_in_turn(
    staged: Seq<RemoteChange>,
    finals: Seq<RemoteChange>,
    done: int,
    i: int,
)
    requires
        0 <= i < done,
    ensures
        transaction::finalizing(staged, finals, done).len() == 2 * done,
        transaction::finalizing(staged, finals, done)[2 * i] == TransactionCall::Finalize(
            i,
            staged[i],
            Ok(finals[i]),
        ),
        transaction::finalizing(staged, finals, done)[2 * i + 1] == TransactionCall::Look(false),
    decreases done,
{
    if i < done - 1 {
        each_change_is_finalized_in_turn(staged, finals, done - 1, i);
    } else {
        finalizing_length(staged, finals, done - 1);
    }
}

proof fn finalizing_length(staged: Seq<RemoteChange>, finals: Seq<RemoteChange>, done: int)
    requires
        0 <= done,
    ensures
        transaction::finalizing(staged, finals, done).len() == 2 * done,
    decreases done,
{
    if done > 0 {
        finalizing_length(staged, finals, done - 1);
    }
}


/// What is undone next, and at which generation: a finalized change is moved back from
/// its target at the generation that it has there, and what came back of an upload is
/// removed at the generation at which it came back. An upload that was only staged is
/// removed where it was staged.
pub proof fn an_undoing_names_the_generation(undoing: UndoingView)
    requires
        undoing.wf(),
    ensures
        match undoing.order[undoing.done] {
            UndoView::Finalized(change) => match undoing.removing {
                Some(generation) => undoing.asks() == (Asked::CleanUp {
                    target: change.source,
                    generation,
                }),
                None => undoing.asks() == (Asked::RollBack {
                    source: change.source,
                    target: change.target,
                    generation: change.generation,
                }),
            },
            UndoView::Staged(change) => if undoing.uploads {
                undoing.asks() == (Asked::CleanUp {
                    target: change.source,
                    generation: change.generation,
                })
            } else {
                undoing.asks() == (Asked::RollBack {
                    source: change.source,
                    target: change.target,
                    generation: change.generation,
                })
            },
        },
{
}

/// A transaction calls its staging first. It succeeds exactly where that succeeds and
/// every staged change is finalized without an interrupt, and then calls nothing else.
/// Otherwise it lowers the interrupt flag and undoes what was staged and finalized, as
/// its last two calls, and tells the failure with what failed in the undoing.
pub proof fn a_transaction_calls_its_parts_in_turn<B, C>(
    transaction: RemoteTransaction,
    interrupt: InterruptFlag,
    staging: Result<(), AppError>,
    finalize: B,
    rollback: C,
    calls: Seq<TransactionCall>,
    result: Result<(), AppError>,
) where
    B: Fn(usize, &RemoteChange) -> Result<RemoteChange, AppError>,
    C: FnOnce(&[RemoteChange], &[RemoteChange]) -> Vec<AppError>,

    requires
        transaction.runs(interrupt, staging, finalize, rollback, calls, result),
    ensures
        calls.len() > 0,
        calls[0] == TransactionCall::Stage(staging),
        staging matches Err(failure) ==> {
            &&& calls.len() == 3
            &&& calls[2] matches TransactionCall::RollBack(staged, finalized, errors)
            &&& staged == transaction.staged@
            &&& finalized == transaction.finalized@
            &&& result matches Err(told) && told.rollback_of(failure, errors)
        },
        result is Ok ==> {
            &&& staging is Ok
            &&& calls.len() == 1 + 2 * transaction.staged@.len()
            &&& forall|i: int|
                0 <= i < transaction.staged@.len() ==> (#[trigger] calls[1 + 2 * i] matches
                    TransactionCall::Finalize(at, change, answer) && at == i && change
                    == transaction.staged@[i] && answer is Ok)
            &&& forall|i: int|
                0 <= i < transaction.staged@.len() ==> #[trigger] calls[2 + 2 * i]
                    == TransactionCall::Look(false)
        },
        result is Err ==> {
            &&& calls.len() >= 3
            &&& calls[calls.len() - 2] is Clear
            &&& calls.last() is RollBack
        },
{
    match staging {
        Err(_) => {
            let rest = calls.skip(1);
            assert(rest.len() == 2);
            assert(calls[1] == rest[0]);
            assert(calls[2] == rest[1]);
        },
        Ok(_) => {
            let (after, finalizing, split) = choose|
                after: RemoteTransaction,
                finalizing: Result<(), AppError>,
                split: int,
            |
                {
                    &&& 1 <= split <= calls.len()
                    &&& #[trigger] transaction.finalizes(
                        interrupt,
                        finalize,
                        after,
                        calls.subrange(1, split),
                        finalizing,
                    )
                    &&& after.settles(interrupt, finalizing, rollback, calls.skip(split), result)
                };
            let rest = calls.skip(split);
            let made = calls.subrange(1, split);
            match finalizing {
                Err(_) => {
                    assert(rest.len() == 2);
                    assert(calls[split] == rest[0]);
                    assert(calls[split + 1] == rest[1]);
                },
                Ok(_) => {
                    let n = transaction.staged@.len() as int;
                    let finals = after.finalized@.skip(transaction.finalized@.len() as int);
                    finalizing_length(transaction.staged@, finals, n);
                    assert(made.len() == 2 * n);
                    assert(split == calls.len());
                    assert forall|i: int| 0 <= i < n implies (#[trigger] calls[1 + 2 * i] matches
                        TransactionCall::Finalize(at, change, answer) && at == i && change
                        == transaction.staged@[i] && answer is Ok) by {
                        each_change_is_finalized_in_turn(transaction.staged@, finals, n, i);
                        assert(calls[1 + 2 * i] == made[2 * i]);
                    }
                    assert forall|i: int| 0 <= i < n implies #[trigger] calls[2 + 2 * i]
                        == TransactionCall::Look(false) by {
                        each_change_is_finalized_in_turn(transaction.staged@, finals, n, i);
                        assert(calls[2 + 2 * i] == made[2 * i + 1]);
                    }
                },
            }
        },
    }
}


/// A transaction without a failure succeeds. A failure is the result where everything was
/// undone, and keeps its place as the first one, with the others listed after it, where
/// something was not.
pub proof fn a_transaction_tells_its_failure(
    failure: Option<AppError>,
    errors: Seq<AppError>,
    result: Result<(), AppError>,
)
    requires
        remote_run::ends(failure, errors, result),
    ensures
        failure is None <==> result is Ok,
        failure matches Some(met) ==> errors.len() == 0 ==> result == Err::<(), AppError>(met),
        failure matches Some(met) ==> errors.len() > 0 ==> {
            &&& result matches Err(AppError::Rollback { original, details })
            &&& *original == met
            &&& details@ == text::joined(
                errors.map_values(|error: AppError| error.text()),
                "; "@,
            )
        },
{
    assert(errors.map_values(|error: AppError| error.text()) =~= error::texts(errors));
}


/// The call is one of a finalization that goes well.
pub open spec fn goes_well(call: TransactionCall) -> bool {
    match call {
        TransactionCall::Finalize(_, _, answer) => answer is Ok,
        TransactionCall::Look(raised) => !raised,
        _ => false,
    }
}

/// Finalizing stops at the first change that fails, or at the first interrupt that is
/// seen, and makes no call after that. What was finalized until then stays recorded, each
/// change as it was answered. The staged changes stay as they were, but for the failed
/// one, which takes the generation under which the storage restored it, if it did.
pub proof fn finalizing_stops_at_the_first_failure<F>(
    transaction: RemoteTransaction,
    interrupt: InterruptFlag,
    operation: F,
    after: RemoteTransaction,
    calls: Seq<TransactionCall>,
    failure: AppError,
) where F: Fn(usize, &RemoteChange) -> Result<RemoteChange, AppError>
    requires
        transaction.finalizes(interrupt, operation, after, calls, Err(failure)),
    ensures
        ({
            let earlier = transaction.finalized@.len() as int;
            let done = after.finalized@.len() - earlier;
            &&& calls.len() > 0
            &&& forall|i: int| 0 <= i < calls.len() - 1 ==> goes_well(#[trigger] calls[i])
            &&& 0 <= done
            &&& forall|i: int|
                0 <= i < done ==> #[trigger] calls[2 * i] == TransactionCall::Finalize(
                    i,
                    transaction.staged@[i],
                    Ok(after.finalized@[earlier + i]),
                )
            &&& after.staged@.len() == transaction.staged@.len()
            &&& {
                ||| {
                    &&& failure == AppError::Interrupted
                    &&& calls.len() == 2 * done
                    &&& calls.last() == TransactionCall::Look(true)
                    &&& after.staged@ == transaction.staged@
                }
                ||| {
                    &&& calls.len() == 2 * done + 1
                    &&& calls.last() == TransactionCall::Finalize(
                        done,
                        transaction.staged@[done],
                        Err(failure),
                    )
                    &&& forall|i: int|
                        0 <= i < after.staged@.len() && i != done ==> #[trigger] after.staged@[i]
                            == transaction.staged@[i]
                    &&& after.staged@[done].source == transaction.staged@[done].source
                    &&& after.staged@[done].target == transaction.staged@[done].target
                    &&& after.staged@[done].generation@ == match error_laws::first_failure(
                        failure,
                    ) {
                        AppError::InterruptedAfterMoveRollback {
                            restored_generation,
                        } => restored_generation@,
                        _ => transaction.staged@[done].generation@,
                    }
                }
            }
        }),
{
    let earlier = transaction.finalized@.len() as int;
    let done = after.finalized@.len() - earlier;
    let finals = after.finalized@.skip(earlier);
    let staged = transaction.staged@;
    error_laws::a_failure_is_known_through_its_rollbacks(failure);
    finalizing_length(staged, finals, done);
    finalizing_goes_well(staged, finals, done);
    if calls.last() == TransactionCall::Look(true) {
        finalizing_length(staged, finals, done - 1);
        finalizing_goes_well(staged, finals, done - 1);
        assert forall|i: int| 0 <= i < done implies #[trigger] calls[2 * i]
            == TransactionCall::Finalize(i, staged[i], Ok(after.finalized@[earlier + i])) by {
            assert(finals[i] == after.finalized@[earlier + i]);
            if i < done - 1 {
                each_change_is_finalized_in_turn(staged, finals, done - 1, i);
            }
        }
    } else {
        assert forall|i: int| 0 <= i < done implies #[trigger] calls[2 * i]
            == TransactionCall::Finalize(i, staged[i], Ok(after.finalized@[earlier + i])) by {
            assert(finals[i] == after.finalized@[earlier + i]);
            each_change_is_finalized_in_turn(staged, finals, done, i);
        }
    }
}

proof fn finalizing_goes_well(staged: Seq<RemoteChange>, finals: Seq<RemoteChange>, done: int)
    ensures
        forall|i: int|
            0 <= i < transaction::finalizing(staged, finals, done).len() ==> goes_well(
                #[trigger] transaction::finalizing(staged, finals, done)[i],
            ),
    decreases done,
{
    if done > 0 {
        finalizing_goes_well(staged, finals, done - 1);
        let shorter = transaction::finalizing(staged, finals, done - 1);
        let whole = transaction::finalizing(staged, finals, done);
        assert forall|i: int| 0 <= i < whole.len() implies goes_well(#[trigger] whole[i]) by {
            if i < shorter.len() {
                assert(whole[i] == shorter[i]);
            }
        }
    }
}

} // verus!
