//! What a transaction of remote changes leaves under the names of the bucket, where
//! the objects change as the storage answers.
use vstd::prelude::*;

use crate::error::AppError;
use crate::object_path::ObjectPathView;
use crate::remote_run;
use crate::remote_run::PlannedView;
use crate::remote_run::RunStepView;
use crate::run_laws;
use crate::session::Asked;
use crate::session::Call;
use crate::session::Told;
use crate::transaction;
use crate::transaction::ChangeView;
use crate::transaction::UndoView;
use crate::transaction_laws;
use crate::transaction_laws::NameChange;
use crate::undoing;
use crate::undoing::UndoStepView;

verus! {

/// The calls that undo the changes of the order, each change once and in order, and
/// the failures among them, in order. A move is moved back. An upload that was
/// only staged is removed. One that was finalized is moved back, and where that
/// succeeded it is removed at the generation under which it came back.
pub open spec fn undone_in_order(
    uploads: bool,
    order: Seq<UndoView>,
    calls: Seq<Call>,
    errors: Seq<AppError>,
) -> bool
    decreases order.len(),
{
    if order.len() == 0 {
        calls.len() == 0 && errors.len() == 0
    } else {
        let change = order.last().change();
        let count = if uploads && order.last() is Finalized && calls.last().asked is CleanUp {
            2int
        } else {
            1
        };
        let failure = match calls.last().told {
            Told::Generation(Err(error)) => Some(error),
            Told::Outcome(Err(error)) => Some(error),
            _ => None,
        };
        &&& calls.len() >= count
        &&& calls.last().asked.fits(calls.last().told)
        &&& if count == 2 {
            let moved = calls[calls.len() - 2];
            &&& moved.asked == undoing::move_back(change)
            &&& moved.told matches Told::Generation(Ok(generation)) && calls.last().asked
                == (Asked::CleanUp { target: change.source, generation })
        } else if uploads && order.last() is Staged {
            calls.last().asked == (Asked::CleanUp {
                target: change.source,
                generation: change.generation,
            })
        } else {
            &&& calls.last().asked == undoing::move_back(change)
            &&& uploads ==> failure is Some
        }
        &&& match failure {
            Some(error) => {
                &&& errors.len() > 0
                &&& errors.last() == error
                &&& undone_in_order(
                    uploads,
                    order.drop_last(),
                    calls.take(calls.len() - count),
                    errors.drop_last(),
                )
            },
            None => undone_in_order(
                uploads,
                order.drop_last(),
                calls.take(calls.len() - count),
                errors,
            ),
        }
    }
}

/// Undoing undoes each finalized change once, last one first, and after them each
/// change that was only staged, last one first. A failure stops nothing.
pub proof fn every_change_is_undone_in_order(
    uploads: bool,
    staged: Seq<ChangeView>,
    finalized: Seq<ChangeView>,
    calls: Seq<Call>,
    errors: Seq<AppError>,
)
    requires
        undoing::undone_by(uploads, staged, finalized, calls, errors),
    ensures
        undone_in_order(uploads, transaction::undo_order(staged, finalized), calls, errors),
{
    undone_so_far(uploads, transaction::undo_order(staged, finalized), calls);
}

proof fn undone_so_far(uploads: bool, order: Seq<UndoView>, calls: Seq<Call>)
    ensures
        match UndoStepView::start(uploads, order).after(calls) {
            None => true,
            Some(UndoStepView::Done(errors)) => undone_in_order(uploads, order, calls, errors),
            Some(UndoStepView::Ask(undoing)) => {
                &&& undoing.uploads == uploads
                &&& undoing.order == order
                &&& undoing.wf()
                &&& match undoing.removing {
                    None => undone_in_order(
                        uploads,
                        order.take(undoing.done),
                        calls,
                        undoing.errors,
                    ),
                    Some(generation) => {
                        &&& calls.len() > 0
                        &&& calls.last().asked == undoing::move_back(
                            order[undoing.done].change(),
                        )
                        &&& calls.last().told == Told::Generation(Ok(generation))
                        &&& undone_in_order(
                            uploads,
                            order.take(undoing.done),
                            calls.drop_last(),
                            undoing.errors,
                        )
                    },
                }
            },
        },
    decreases calls.len(),
{
    let start = UndoStepView::start(uploads, order);
    if calls.len() == 0 {
        assert(order.take(0) =~= Seq::empty());
    } else {
        let earlier = calls.drop_last();
        let call = calls.last();
        undone_so_far(uploads, order, earlier);
        if start.after(calls) is Some {
            let before = start.after(earlier)->0->Ask_0;
            let grown = order.take(before.done + 1);
            assert(grown.drop_last() =~= order.take(before.done));
            assert(grown.last() == order[before.done]);
            assert(earlier.push(call) =~= calls);
            if before.removing is Some {
                assert(calls.take(calls.len() - 2) =~= earlier.drop_last());
                assert(calls[calls.len() - 2] == earlier.last());
            } else {
                assert(calls.take(calls.len() - 1) =~= earlier);
            }
            let advanced = !(uploads && call.told matches Told::Generation(Ok(_)));
            if advanced {
                let errors = match call.told {
                    Told::Generation(Err(error)) => before.errors.push(error),
                    Told::Outcome(Err(error)) => before.errors.push(error),
                    _ => before.errors,
                };
                assert(before.errors.push(arbitrary()).drop_last() =~= before.errors);
                if let Told::Generation(Err(error)) = call.told {
                    assert(errors.drop_last() =~= before.errors);
                }
                if let Told::Outcome(Err(error)) = call.told {
                    assert(errors.drop_last() =~= before.errors);
                }
                assert(undone_in_order(uploads, grown, calls, errors));
                if before.done + 1 == order.len() {
                    assert(grown =~= order);
                }
            }
        }
    }
}

/// How the objects change by a call, where they change as it was answered.
pub open spec fn effect<T>(call: Call, content: spec_fn(Seq<char>) -> T) -> Option<NameChange<T>> {
    match (call.asked, call.told) {
        (Asked::Move { source, target, .. }, Told::Generation(Ok(_))) => Some(
            NameChange::Move(source, target),
        ),
        (Asked::Upload { file, target, .. }, Told::Generation(Ok(_))) => Some(
            NameChange::Write(target, content(file)),
        ),
        (Asked::RollBack { source, target, .. }, Told::Generation(Ok(_))) => Some(
            NameChange::Move(target, source),
        ),
        (Asked::CleanUp { target, .. }, Told::Outcome(Ok(_))) => Some(NameChange::Remove(target)),
        _ => None,
    }
}

/// How the objects change by the calls, in order.
pub open spec fn effects<T>(calls: Seq<Call>, content: spec_fn(Seq<char>) -> T) -> Seq<NameChange<T>>
    decreases calls.len(),
{
    if calls.len() == 0 {
        Seq::empty()
    } else {
        match effect(calls.last(), content) {
            Some(change) => effects(calls.drop_last(), content).push(change),
            None => effects(calls.drop_last(), content),
        }
    }
}

proof fn effects_of_both<T>(first: Seq<Call>, second: Seq<Call>, content: spec_fn(Seq<char>) -> T)
    ensures
        effects(first + second, content) == effects(first, content) + effects(second, content),
    decreases second.len(),
{
    if second.len() == 0 {
        assert(first + second =~= first);
        assert(effects(first, content) + effects(second, content) =~= effects(first, content));
    } else {
        effects_of_both(first, second.drop_last(), content);
        assert((first + second).drop_last() =~= first + second.drop_last());
        if let Some(change) = effect(second.last(), content) {
            assert(effects(first, content) + effects(second.drop_last(), content).push(change)
                =~= (effects(first, content) + effects(second.drop_last(), content)).push(change));
        }
    }
}

proof fn effects_of_one_more<T>(calls: Seq<Call>, call: Call, content: spec_fn(Seq<char>) -> T)
    ensures
        effects(calls.push(call), content) == match effect(call, content) {
            Some(change) => effects(calls, content).push(change),
            None => effects(calls, content),
        },
{
    assert(calls.push(call).drop_last() =~= calls);
}

/// The changes of the plan, without its lines.
pub open spec fn changes_of(plan: Seq<PlannedView>) -> Seq<PlannedView>
    decreases plan.len(),
{
    if plan.len() == 0 {
        Seq::empty()
    } else if plan.last() is Line {
        changes_of(plan.drop_last())
    } else {
        changes_of(plan.drop_last()).push(plan.last())
    }
}

/// Staging the entry makes the change.
spec fn stages(planned: PlannedView, change: ChangeView) -> bool {
    &&& !(planned is Line)
    &&& change == planned.staged(change.generation)
}

proof fn staging_follows_the_plan(plan: Seq<PlannedView>, staged: Seq<ChangeView>)
    requires
        run_laws::staging_of(plan, staged),
    ensures
        staged.len() == changes_of(plan).len(),
        forall|i: int|
            0 <= i < staged.len() ==> stages(changes_of(plan)[i], #[trigger] staged[i]),
    decreases plan.len(),
{
    if plan.len() > 0 {
        let earlier = changes_of(plan.drop_last());
        if plan.last() is Line {
            staging_follows_the_plan(plan.drop_last(), staged);
            assert(changes_of(plan) == earlier);
        } else {
            let shorter = staged.drop_last();
            staging_follows_the_plan(plan.drop_last(), shorter);
            assert(changes_of(plan) == earlier.push(plan.last()));
            assert forall|i: int| 0 <= i < staged.len() implies stages(
                changes_of(plan)[i],
                #[trigger] staged[i],
            ) by {
                if i < shorter.len() {
                    assert(shorter[i] == staged[i]);
                    assert(changes_of(plan)[i] == earlier[i]);
                } else {
                    assert(staged[i] == staged.last());
                    assert(changes_of(plan)[i] == plan.last());
                }
            }
        }
    }
}

proof fn changes_of_a_prefix(plan: Seq<PlannedView>, count: int)
    requires
        0 <= count <= plan.len(),
    ensures
        changes_of(plan.take(count)).is_prefix_of(changes_of(plan)),
    decreases plan.len() - count,
{
    if count == plan.len() {
        assert(plan.take(count) =~= plan);
    } else {
        changes_of_a_prefix(plan, count + 1);
        assert(plan.take(count + 1).drop_last() =~= plan.take(count));
    }
}

proof fn moves_are_all_changes(plan: Seq<PlannedView>)
    requires
        remote_run::plannable(false, plan),
    ensures
        changes_of(plan) == plan,
    decreases plan.len(),
{
    if plan.len() == 0 {
        assert(plan =~= Seq::empty());
    } else {
        let shorter = plan.drop_last();
        assert forall|i: int| 0 <= i < shorter.len() implies (#[trigger] shorter[i]) is Move by {
            assert(plan[i] is Move);
        }
        moves_are_all_changes(shorter);
        assert(plan.last() == plan[plan.len() - 1]);
        assert(plan =~= shorter.push(plan.last()));
    }
}

/// The content that an entry of the plan uploads.
pub open spec fn contents_of<T>(changes: Seq<PlannedView>, content: spec_fn(Seq<char>) -> T) -> Seq<T> {
    Seq::new(changes.len(), |i: int| content(changes[i]->Upload_file))
}

/// The objects change by staging as the staged changes say.
spec fn staging_effects<T>(
    uploads: bool,
    plan: Seq<PlannedView>,
    staged: Seq<ChangeView>,
    content: spec_fn(Seq<char>) -> T,
) -> Seq<NameChange<T>> {
    if uploads {
        transaction_laws::staging_writes(staged, contents_of(changes_of(plan), content))
    } else {
        transaction_laws::staging_moves(staged)
    }
}

spec fn finalizing_effects<T>(
    uploads: bool,
    staged: Seq<ChangeView>,
    finalized: Seq<ChangeView>,
) -> Seq<NameChange<T>> {
    if uploads {
        transaction_laws::publishing_moves(finalized)
    } else {
        transaction_laws::finalizing_moves(staged, finalized)
    }
}

proof fn effects_of_success<T>(
    request: Asked,
    generation: Seq<char>,
    before: Seq<Call>,
    content: spec_fn(Seq<char>) -> T,
)
    ensures
        effects((before + run_laws::succeeded(request, generation)).push(run_laws::look(false)), content)
            == match effect(run_laws::change_call(request, Ok(generation)), content) {
            Some(change) => effects(before, content).push(change),
            None => effects(before, content),
        },
{
    let call = run_laws::change_call(request, Ok(generation));
    assert(before + run_laws::succeeded(request, generation) =~= before.push(
        run_laws::look(false),
    ).push(call));
    effects_of_one_more(before, run_laws::look(false), content);
    effects_of_one_more(before.push(run_laws::look(false)), call, content);
    effects_of_one_more(
        before + run_laws::succeeded(request, generation),
        run_laws::look(false),
        content,
    );
}

proof fn effects_of_staging<T>(
    uploads: bool,
    plan: Seq<PlannedView>,
    staged: Seq<ChangeView>,
    content: spec_fn(Seq<char>) -> T,
)
    requires
        remote_run::plannable(uploads, plan),
        run_laws::staging_of(plan, staged),
    ensures
        effects(run_laws::staging_calls(plan, staged), content) == staging_effects(
            uploads,
            plan,
            staged,
            content,
        ),
    decreases plan.len(),
{
    staging_follows_the_plan(plan, staged);
    let whole = staging_effects(uploads, plan, staged, content);
    if plan.len() == 0 {
        assert(whole =~= Seq::empty());
    } else {
        let shorter = plan.drop_last();
        assert forall|i: int| 0 <= i < shorter.len() implies if uploads {
            !((#[trigger] shorter[i]) is Move)
        } else {
            shorter[i] is Move
        } by {
            assert(shorter[i] == plan[i]);
        }
        assert(plan.last() == plan[plan.len() - 1]);
        if plan.last() is Line {
            effects_of_staging(uploads, shorter, staged, content);
            effects_of_one_more(
                run_laws::staging_calls(shorter, staged),
                Call { asked: plan.last().staging(), told: Told::Nothing },
                content,
            );
        } else {
            let fewer = staged.drop_last();
            effects_of_staging(uploads, shorter, fewer, content);
            staging_follows_the_plan(shorter, fewer);
            effects_of_success(
                plan.last().staging(),
                staged.last().generation,
                run_laws::staging_calls(shorter, fewer),
                content,
            );
            assert(whole =~= staging_effects(uploads, shorter, fewer, content).push(whole.last()));
        }
    }
}

proof fn effects_of_finalizing<T>(
    uploads: bool,
    plan: Seq<PlannedView>,
    staged: Seq<ChangeView>,
    finalized: Seq<ChangeView>,
    content: spec_fn(Seq<char>) -> T,
)
    requires
        run_laws::finalizing_of(uploads, plan, staged, finalized),
    ensures
        effects(run_laws::finalizing_calls(uploads, plan, staged, finalized), content)
            == finalizing_effects::<T>(uploads, staged, finalized),
    decreases finalized.len(),
{
    let whole: Seq<NameChange<T>> = finalizing_effects(uploads, staged, finalized);
    if finalized.len() == 0 {
        assert(whole =~= Seq::empty());
    } else {
        let fewer = finalized.drop_last();
        assert forall|i: int| 0 <= i < fewer.len() implies (#[trigger] fewer[i]).source
            == staged[i].source && fewer[i].target == run_laws::final_target(
            uploads,
            plan,
            staged,
            i,
        ) by {
            assert(fewer[i] == finalized[i]);
        }
        effects_of_finalizing(uploads, plan, staged, fewer, content);
        assert(finalized.last() == finalized[finalized.len() - 1]);
        effects_of_success(
            run_laws::finalization(uploads, plan, staged, finalized.len() - 1),
            finalized.last().generation,
            run_laws::finalizing_calls(uploads, plan, staged, fewer),
            content,
        );
        assert(whole =~= finalizing_effects::<T>(uploads, staged, fewer).push(whole.last()));
    }
}

/// A failed attempt changes nothing.
proof fn effects_of_failure<T>(
    request: Asked,
    calls: Seq<Call>,
    failure: AppError,
    content: spec_fn(Seq<char>) -> T,
)
    requires
        request is Move || request is Upload,
        run_laws::failed(request, calls, failure),
    ensures
        effects(calls, content) == Seq::<NameChange<T>>::empty(),
{
    assert forall|i: int| 0 <= i < calls.len() implies effect(#[trigger] calls[i], content) is None by {}
    effects_of_nothing(calls, content);
}

proof fn effects_of_nothing<T>(calls: Seq<Call>, content: spec_fn(Seq<char>) -> T)
    requires
        forall|i: int| 0 <= i < calls.len() ==> effect(#[trigger] calls[i], content) is None,
    ensures
        effects(calls, content) == Seq::<NameChange<T>>::empty(),
    decreases calls.len(),
{
    if calls.len() > 0 {
        let earlier = calls.drop_last();
        assert forall|i: int| 0 <= i < earlier.len() implies effect(#[trigger] earlier[i], content) is None by {
            assert(earlier[i] == calls[i]);
        }
        assert(calls.last() == calls[calls.len() - 1]);
        effects_of_nothing(earlier, content);
    }
}

proof fn effects_without_the_last_look<T>(
    calls: Seq<Call>,
    these: Seq<Call>,
    content: spec_fn(Seq<char>) -> T,
)
    requires
        run_laws::interrupted_at_the_end(calls, these),
        these.last() == run_laws::look(false),
    ensures
        effects(calls, content) == effects(these, content),
{
    effects_of_one_more(these.drop_last(), run_laws::look(true), content);
    effects_of_one_more(these.drop_last(), run_laws::look(false), content);
    assert(these =~= these.drop_last().push(run_laws::look(false)));
}

/// The names of the transaction do not get into one another's way. Of moves, the
/// sources are different objects, and the temporary names and the targets are all
/// different and free. Of uploads, the staging names and the targets are.
pub open spec fn names_apart<T>(
    uploads: bool,
    objects: Map<ObjectPathView, T>,
    changes: Seq<PlannedView>,
) -> bool {
    &&& forall|i: int|
        0 <= i < changes.len() ==> {
            &&& objects.contains_key(origin(#[trigger] changes[i])) == !uploads
            &&& !objects.contains_key(stop(changes[i]))
            &&& !objects.contains_key(destination(changes[i]))
        }
    &&& forall|i: int, j: int|
        0 <= i < j < changes.len() ==> {
            &&& origin(#[trigger] changes[i]) != origin(#[trigger] changes[j])
            &&& stop(changes[i]) != stop(changes[j])
            &&& destination(changes[i]) != destination(changes[j])
        }
    &&& forall|i: int, j: int|
        0 <= i < changes.len() && 0 <= j < changes.len() ==> stop(#[trigger] changes[i])
            != destination(#[trigger] changes[j])
}

/// Where the change starts: the source of a move, the staging name of an upload.
pub open spec fn origin(planned: PlannedView) -> ObjectPathView {
    match planned {
        PlannedView::Move { source, .. } => source,
        PlannedView::Upload { staging, .. } => staging,
        PlannedView::Line(_) => arbitrary(),
    }
}

/// Where the change stands once it is staged.
pub open spec fn stop(planned: PlannedView) -> ObjectPathView {
    match planned {
        PlannedView::Move { temporary, .. } => temporary,
        PlannedView::Upload { staging, .. } => staging,
        PlannedView::Line(_) => arbitrary(),
    }
}

/// Where the change stands in the end.
pub open spec fn destination(planned: PlannedView) -> ObjectPathView {
    match planned {
        PlannedView::Move { target, .. } => target,
        PlannedView::Upload { target, .. } => target,
        PlannedView::Line(_) => arbitrary(),
    }
}

/// None of the changes starts or ends at the name.
pub open spec fn no_name_of(changes: Seq<PlannedView>, name: ObjectPathView) -> bool {
    forall|i: int|
        0 <= i < changes.len() ==> destination(#[trigger] changes[i]) != name && origin(changes[i])
            != name
}

/// Staging the entry makes a change of these names.
spec fn stages_names(uploads: bool, planned: PlannedView, change: ChangeView) -> bool {
    &&& (planned is Upload) == uploads
    &&& (planned is Move) == !uploads
    &&& change.source == origin(planned)
    &&& change.target == if uploads {
        destination(planned)
    } else {
        stop(planned)
    }
}

/// The staged and the finalized changes are those of the first entries.
spec fn follow(
    uploads: bool,
    changes: Seq<PlannedView>,
    staged: Seq<ChangeView>,
    finalized: Seq<ChangeView>,
) -> bool {
    &&& staged.len() <= changes.len()
    &&& finalized.len() <= staged.len()
    &&& forall|i: int|
        0 <= i < staged.len() ==> stages_names(uploads, changes[i], #[trigger] staged[i])
    &&& forall|i: int|
        0 <= i < finalized.len() ==> (#[trigger] finalized[i]).source == staged[i].source
            && finalized[i].target == destination(changes[i])
}

/// How the objects change by the calls up to the failure, or to the end.
spec fn done_effects<T>(
    uploads: bool,
    changes: Seq<PlannedView>,
    staged: Seq<ChangeView>,
    finalized: Seq<ChangeView>,
    content: spec_fn(Seq<char>) -> T,
) -> Seq<NameChange<T>> {
    (if uploads {
        transaction_laws::staging_writes(
            staged,
            contents_of(changes, content).take(staged.len() as int),
        )
    } else {
        transaction_laws::staging_moves(staged)
    }) + finalizing_effects(uploads, staged, finalized)
}

proof fn kinds_of_changes(uploads: bool, plan: Seq<PlannedView>)
    requires
        remote_run::plannable(uploads, plan),
    ensures
        forall|i: int|
            0 <= i < changes_of(plan).len() ==> {
                &&& ((#[trigger] changes_of(plan)[i]) is Upload) == uploads
                &&& (changes_of(plan)[i] is Move) == !uploads
            },
    decreases plan.len(),
{
    if plan.len() > 0 {
        let shorter = plan.drop_last();
        assert forall|i: int| 0 <= i < shorter.len() implies if uploads {
            !((#[trigger] shorter[i]) is Move)
        } else {
            shorter[i] is Move
        } by {
            assert(shorter[i] == plan[i]);
        }
        assert(plan.last() == plan[plan.len() - 1]);
        kinds_of_changes(uploads, shorter);
        let earlier = changes_of(shorter);
        assert forall|i: int| 0 <= i < changes_of(plan).len() implies {
            &&& ((#[trigger] changes_of(plan)[i]) is Upload) == uploads
            &&& (changes_of(plan)[i] is Move) == !uploads
        } by {
            if i < earlier.len() {
                assert(changes_of(plan)[i] == earlier[i]);
            }
        }
    }
}

/// What was staged and finalized by the calls.
proof fn what_was_done<T>(
    uploads: bool,
    plan: Seq<PlannedView>,
    at: int,
    staged: Seq<ChangeView>,
    finalized: Seq<ChangeView>,
    content: spec_fn(Seq<char>) -> T,
)
    requires
        remote_run::plannable(uploads, plan),
        0 <= at <= plan.len(),
        run_laws::staging_of(plan.take(at), staged),
        run_laws::finalizing_of(uploads, plan, staged, finalized),
        finalized.len() > 0 ==> at == plan.len(),
    ensures
        follow(uploads, changes_of(plan), staged, finalized),
        effects(
            run_laws::staging_calls(plan.take(at), staged) + run_laws::finalizing_calls(
                uploads,
                plan,
                staged,
                finalized,
            ),
            content,
        ) == done_effects(uploads, changes_of(plan), staged, finalized, content),
{
    let part = plan.take(at);
    let changes = changes_of(plan);
    assert(remote_run::plannable(uploads, part)) by {
        assert forall|i: int| 0 <= i < part.len() implies if uploads {
            !((#[trigger] part[i]) is Move)
        } else {
            part[i] is Move
        } by {
            assert(part[i] == plan[i]);
        }
    }
    staging_follows_the_plan(part, staged);
    changes_of_a_prefix(plan, at);
    kinds_of_changes(uploads, plan);
    effects_of_staging(uploads, part, staged, content);
    effects_of_finalizing(uploads, plan, staged, finalized, content);
    effects_of_both(
        run_laws::staging_calls(part, staged),
        run_laws::finalizing_calls(uploads, plan, staged, finalized),
        content,
    );
    assert forall|i: int| 0 <= i < staged.len() implies stages_names(
        uploads,
        changes[i],
        #[trigger] staged[i],
    ) by {
        assert(changes[i] == changes_of(part)[i]);
        assert(stages(changes_of(part)[i], staged[i]));
    }
    if !uploads {
        moves_are_all_changes(plan);
    }
    assert forall|i: int| 0 <= i < finalized.len() implies (#[trigger] finalized[i]).source
        == staged[i].source && finalized[i].target == destination(changes[i]) by {
        assert(stages_names(uploads, changes[i], staged[i]));
    }
    if uploads {
        assert(contents_of(changes_of(part), content) =~= contents_of(changes, content).take(
            staged.len() as int,
        ));
    }
}

/// What was staged and finalized up to a failure.
proof fn what_was_done_before_the_failure<T>(
    uploads: bool,
    plan: Seq<PlannedView>,
    calls: Seq<Call>,
    failure: AppError,
    staged: Seq<ChangeView>,
    finalized: Seq<ChangeView>,
    content: spec_fn(Seq<char>) -> T,
)
    requires
        remote_run::plannable(uploads, plan),
        run_laws::stops(uploads, plan, calls, failure, staged, finalized),
    ensures
        follow(uploads, changes_of(plan), staged, finalized),
        effects(calls, content) == done_effects(uploads, changes_of(plan), staged, finalized, content),
{
    let nothing = Seq::<Call>::empty();
    assert(plan.take(plan.len() as int) =~= plan);
    if exists|at: int, attempt: Seq<Call>|
        {
            &&& 0 <= at < plan.len()
            &&& !(plan[at] is Line)
            &&& finalized.len() == 0
            &&& run_laws::staging_of(plan.take(at), staged)
            &&& #[trigger] run_laws::failed(plan[at].staging(), attempt, failure)
            &&& calls == run_laws::staging_calls(plan.take(at), staged) + attempt
        } {
        let (at, attempt) = choose|at: int, attempt: Seq<Call>|
            {
                &&& 0 <= at < plan.len()
                &&& !(plan[at] is Line)
                &&& finalized.len() == 0
                &&& run_laws::staging_of(plan.take(at), staged)
                &&& #[trigger] run_laws::failed(plan[at].staging(), attempt, failure)
                &&& calls == run_laws::staging_calls(plan.take(at), staged) + attempt
            };
        let before = run_laws::staging_calls(plan.take(at), staged);
        what_was_done(uploads, plan, at, staged, finalized, content);
        assert(before + run_laws::finalizing_calls(uploads, plan, staged, finalized) =~= before);
        effects_of_failure(plan[at].staging(), attempt, failure, content);
        effects_of_both(before, attempt, content);
        assert(effects(calls, content) =~= effects(before, content));
    } else if exists|at: int|
        {
            &&& 0 < at <= plan.len()
            &&& !(plan[at - 1] is Line)
            &&& finalized.len() == 0
            &&& run_laws::staging_of(plan.take(at), staged)
            &&& failure == AppError::Interrupted
            &&& run_laws::interrupted_at_the_end(
                calls,
                #[trigger] run_laws::staging_calls(plan.take(at), staged),
            )
        } {
        let at = choose|at: int|
            {
                &&& 0 < at <= plan.len()
                &&& !(plan[at - 1] is Line)
                &&& finalized.len() == 0
                &&& run_laws::staging_of(plan.take(at), staged)
                &&& failure == AppError::Interrupted
                &&& run_laws::interrupted_at_the_end(
                    calls,
                    #[trigger] run_laws::staging_calls(plan.take(at), staged),
                )
            };
        let these = run_laws::staging_calls(plan.take(at), staged);
        assert(plan.take(at).last() == plan[at - 1]);
        what_was_done(uploads, plan, at, staged, finalized, content);
        assert(these + run_laws::finalizing_calls(uploads, plan, staged, finalized) =~= these);
        effects_without_the_last_look(calls, these, content);
    } else if exists|kept: Seq<ChangeView>, attempt: Seq<Call>|
        {
            &&& run_laws::staging_of(plan, kept)
            &&& run_laws::finalizing_of(uploads, plan, kept, finalized)
            &&& finalized.len() < kept.len()
            &&& #[trigger] run_laws::failed(
                run_laws::finalization(uploads, plan, kept, finalized.len() as int),
                attempt,
                failure,
            )
            &&& staged == run_laws::restored(kept, finalized.len() as int, failure)
            &&& calls == run_laws::staging_calls(plan, kept) + run_laws::finalizing_calls(
                uploads,
                plan,
                kept,
                finalized,
            ) + attempt
        } {
        let (kept, attempt) = choose|kept: Seq<ChangeView>, attempt: Seq<Call>|
            {
                &&& run_laws::staging_of(plan, kept)
                &&& run_laws::finalizing_of(uploads, plan, kept, finalized)
                &&& finalized.len() < kept.len()
                &&& #[trigger] run_laws::failed(
                    run_laws::finalization(uploads, plan, kept, finalized.len() as int),
                    attempt,
                    failure,
                )
                &&& staged == run_laws::restored(kept, finalized.len() as int, failure)
                &&& calls == run_laws::staging_calls(plan, kept) + run_laws::finalizing_calls(
                    uploads,
                    plan,
                    kept,
                    finalized,
                ) + attempt
            };
        let m = finalized.len() as int;
        let before = run_laws::staging_calls(plan, kept) + run_laws::finalizing_calls(
            uploads,
            plan,
            kept,
            finalized,
        );
        what_was_done(uploads, plan, plan.len() as int, kept, finalized, content);
        effects_of_failure(
            run_laws::finalization(uploads, plan, kept, m),
            attempt,
            failure,
            content,
        );
        effects_of_both(before, attempt, content);
        assert(effects(calls, content) =~= effects(before, content));
        assert forall|i: int| 0 <= i < staged.len() implies (#[trigger] staged[i]).source
            == kept[i].source && staged[i].target == kept[i].target by {}
        assert forall|i: int| 0 <= i < staged.len() implies stages_names(
            uploads,
            changes_of(plan)[i],
            #[trigger] staged[i],
        ) by {
            assert(stages_names(uploads, changes_of(plan)[i], kept[i]));
        }
        assert forall|i: int| 0 <= i < finalized.len() implies (#[trigger] finalized[i]).source
            == staged[i].source && finalized[i].target == destination(changes_of(plan)[i]) by {
            assert(finalized[i].source == kept[i].source);
        }
        assert(follow(uploads, changes_of(plan), staged, finalized));
        assert(done_effects(uploads, changes_of(plan), staged, finalized, content)
            =~= done_effects(uploads, changes_of(plan), kept, finalized, content));
    } else {
        let these = run_laws::staging_calls(plan, staged) + run_laws::finalizing_calls(
            uploads,
            plan,
            staged,
            finalized,
        );
        what_was_done(uploads, plan, plan.len() as int, staged, finalized, content);
        assert(these.last() == run_laws::look(false));
        effects_without_the_last_look(calls, these, content);
    }
}

/// How the objects change by undoing the changes of the order.
spec fn undo_effects<T>(uploads: bool, order: Seq<UndoView>) -> Seq<NameChange<T>>
    decreases order.len(),
{
    if order.len() == 0 {
        Seq::empty()
    } else {
        let earlier = undo_effects(uploads, order.drop_last());
        let change = order.last().change();
        if !uploads {
            earlier.push(NameChange::Move(change.target, change.source))
        } else if order.last() is Finalized {
            earlier.push(NameChange::Move(change.target, change.source)).push(
                NameChange::Remove(change.source),
            )
        } else {
            earlier.push(NameChange::Remove(change.source))
        }
    }
}

proof fn effects_of_undoing<T>(
    uploads: bool,
    order: Seq<UndoView>,
    calls: Seq<Call>,
    content: spec_fn(Seq<char>) -> T,
)
    requires
        undone_in_order(uploads, order, calls, Seq::empty()),
    ensures
        effects(calls, content) == undo_effects::<T>(uploads, order),
    decreases order.len(),
{
    if order.len() > 0 {
        if uploads && order.last() is Finalized && calls.last().asked is CleanUp {
            let earlier = calls.take(calls.len() - 2);
            effects_of_undoing(uploads, order.drop_last(), earlier, content);
            let moved = calls[calls.len() - 2];
            assert(calls =~= earlier.push(moved).push(calls.last()));
            effects_of_one_more(earlier, moved, content);
            effects_of_one_more(earlier.push(moved), calls.last(), content);
        } else {
            let earlier = calls.take(calls.len() - 1);
            effects_of_undoing(uploads, order.drop_last(), earlier, content);
            assert(calls =~= earlier.push(calls.last()));
            effects_of_one_more(earlier, calls.last(), content);
        }
    }
}

proof fn moves_back_effects<T>(order: Seq<UndoView>)
    ensures
        undo_effects::<T>(false, order) == transaction_laws::moves_back::<T>(
            order.map_values(|undo: UndoView| undo.change()),
        ),
    decreases order.len(),
{
    let changes = order.map_values(|undo: UndoView| undo.change());
    let whole = transaction_laws::moves_back::<T>(changes);
    if order.len() == 0 {
        assert(whole =~= Seq::empty());
    } else {
        moves_back_effects::<T>(order.drop_last());
        let fewer = order.drop_last().map_values(|undo: UndoView| undo.change());
        assert(fewer =~= changes.drop_last());
        assert(whole =~= transaction_laws::moves_back::<T>(fewer).push(whole.last()));
    }
}

proof fn withdrawal_effects<T>(finalized: Seq<ChangeView>, staged: Seq<ChangeView>)
    ensures
        undo_effects::<T>(
            true,
            finalized.map_values(|change: ChangeView| UndoView::Finalized(change))
                + staged.map_values(|change: ChangeView| UndoView::Staged(change)),
        ) == transaction_laws::withdrawals::<T>(finalized) + transaction_laws::removals::<T>(staged),
    decreases finalized.len(), staged.len(),
{
    let first = finalized.map_values(|change: ChangeView| UndoView::Finalized(change));
    let second = staged.map_values(|change: ChangeView| UndoView::Staged(change));
    let order = first + second;
    let removals = transaction_laws::removals::<T>(staged);
    if staged.len() > 0 {
        let fewer = staged.drop_last();
        withdrawal_effects::<T>(finalized, fewer);
        assert(order.drop_last() =~= first + fewer.map_values(
            |change: ChangeView| UndoView::Staged(change),
        ));
        assert(order.last() == UndoView::Staged(staged.last()));
        assert(removals =~= transaction_laws::removals::<T>(fewer).push(
            NameChange::Remove(staged.last().source),
        ));
        assert(transaction_laws::withdrawals::<T>(finalized) + removals =~= (
        transaction_laws::withdrawals::<T>(finalized) + transaction_laws::removals::<T>(fewer)).push(
            NameChange::Remove(staged.last().source),
        ));
    } else {
        assert(removals =~= Seq::empty());
        assert(order =~= first);
        assert(transaction_laws::withdrawals::<T>(finalized) + removals
            =~= transaction_laws::withdrawals::<T>(finalized));
        if finalized.len() > 0 {
            let fewer = finalized.drop_last();
            withdrawal_effects::<T>(fewer, staged);
            assert(first.drop_last() =~= fewer.map_values(
                |change: ChangeView| UndoView::Finalized(change),
            ) + second);
            assert(first.last() == UndoView::Finalized(finalized.last()));
            assert(transaction_laws::withdrawals::<T>(fewer) + removals
                =~= transaction_laws::withdrawals::<T>(fewer));
        }
    }
}

proof fn changes_are_apart<T>(
    uploads: bool,
    objects: Map<ObjectPathView, T>,
    changes: Seq<PlannedView>,
    staged: Seq<ChangeView>,
    finalized: Seq<ChangeView>,
)
    requires
        names_apart(uploads, objects, changes),
        follow(uploads, changes, staged, finalized),
    ensures
        uploads ==> transaction_laws::uploads_apart(objects, staged, finalized),
        !uploads ==> transaction_laws::moves_apart(objects, staged, finalized),
{
    assert forall|i: int| 0 <= i < staged.len() implies (#[trigger] staged[i]).source == origin(
        changes[i],
    ) && objects.contains_key(origin(changes[i])) == !uploads && !objects.contains_key(
        stop(changes[i]),
    ) by {
        assert(stages_names(uploads, changes[i], staged[i]));
    }
    assert forall|i: int, j: int| 0 <= i < j < staged.len() implies (#[trigger] staged[i]).source
        != (#[trigger] staged[j]).source && (!uploads ==> staged[i].target != staged[j].target) by {
        assert(stages_names(uploads, changes[i], staged[i]));
        assert(stages_names(uploads, changes[j], staged[j]));
        assert(origin(changes[i]) != origin(changes[j]));
    }
    assert forall|i: int, j: int| 0 <= i < j < finalized.len() implies (
    #[trigger] finalized[i]).target != (#[trigger] finalized[j]).target by {
        assert(destination(changes[i]) != destination(changes[j]));
    }
    assert forall|i: int| 0 <= i < finalized.len() implies !objects.contains_key(
        (#[trigger] finalized[i]).target,
    ) by {
        assert(!objects.contains_key(destination(changes[i])));
    }
    assert forall|i: int, j: int| 0 <= i < staged.len() && 0 <= j < finalized.len() implies if uploads {
        (#[trigger] staged[i]).source != (#[trigger] finalized[j]).target
    } else {
        staged[i].target != finalized[j].target
    } by {
        assert(stages_names(uploads, changes[i], staged[i]));
        assert(stop(changes[i]) != destination(changes[j]));
    }
}

/// However far a transaction got, where it failed and everything was undone without
/// a failure, the objects stand under the names that they had, and no other object
/// is there or gone.
pub proof fn an_undone_transaction_changes_nothing<T>(
    uploads: bool,
    plan: Seq<PlannedView>,
    calls: Seq<Call>,
    failure: AppError,
    objects: Map<ObjectPathView, T>,
    content: spec_fn(Seq<char>) -> T,
)
    requires
        remote_run::plannable(uploads, plan),
        names_apart(uploads, objects, changes_of(plan)),
        RunStepView::start(uploads, plan).after(calls) == Some(
            RunStepView::Done(Some(failure), Seq::empty()),
        ),
    ensures
        transaction_laws::after(objects, effects(calls, content)) == objects,
{
    let errors = Seq::<AppError>::empty();
    run_laws::a_transaction_is_completed_or_undone(uploads, plan, calls, Some(failure), errors);
    let (done, raised, undo, staged, finalized) = choose|
        done: Seq<Call>,
        raised: bool,
        undo: Seq<Call>,
        staged: Seq<ChangeView>,
        finalized: Seq<ChangeView>,
    | #[trigger]
        run_laws::fails(
            uploads,
            plan,
            calls,
            failure,
            errors,
            done,
            raised,
            undo,
            staged,
            finalized,
        );
    let changes = changes_of(plan);
    let order = transaction::undo_order(staged, finalized);
    what_was_done_before_the_failure(uploads, plan, done, failure, staged, finalized, content);
    effects_of_one_more(done, run_laws::clear(raised), content);
    effects_of_both(done.push(run_laws::clear(raised)), undo, content);
    every_change_is_undone_in_order(uploads, staged, finalized, undo, errors);
    effects_of_undoing(uploads, order, undo, content);
    changes_are_apart(uploads, objects, changes, staged, finalized);
    let whole = effects(calls, content);
    if uploads {
        let contents = contents_of(changes, content).take(staged.len() as int);
        withdrawal_effects::<T>(
            finalized.reverse(),
            transaction::unfinalized(staged, finalized),
        );
        transaction_laws::undoing_uploads_leaves_nothing(objects, staged, finalized, contents);
        assert(whole =~= transaction_laws::staging_writes(staged, contents)
            + transaction_laws::publishing_moves(finalized) + transaction_laws::withdrawals(
            finalized.reverse(),
        ) + transaction_laws::removals(transaction::unfinalized(staged, finalized)));
    } else {
        moves_back_effects::<T>(order);
        assert(order.map_values(|undo: UndoView| undo.change()) =~= finalized.reverse()
            + transaction::unfinalized(staged, finalized));
        transaction_laws::undoing_moves_restores_every_name(objects, staged, finalized);
        assert(whole =~= transaction_laws::staging_moves(staged)
            + transaction_laws::finalizing_moves(staged, finalized) + transaction_laws::moves_back(
            finalized.reverse() + transaction::unfinalized(staged, finalized),
        ));
    }
}

/// Where a transaction succeeded, each of its changes stands at its destination and
/// nowhere else, a move with the content of its source and an upload with that of
/// its file, and no other object is touched.
pub proof fn a_completed_transaction_makes_every_change<T>(
    uploads: bool,
    plan: Seq<PlannedView>,
    calls: Seq<Call>,
    objects: Map<ObjectPathView, T>,
    content: spec_fn(Seq<char>) -> T,
)
    requires
        remote_run::plannable(uploads, plan),
        names_apart(uploads, objects, changes_of(plan)),
        RunStepView::start(uploads, plan).after(calls) == Some(
            RunStepView::Done(None, Seq::empty()),
        ),
    ensures
        ({
            let changes = changes_of(plan);
            let left = transaction_laws::after(objects, effects(calls, content));
            &&& forall|i: int|
                0 <= i < changes.len() ==> {
                    &&& left.contains_key(destination(#[trigger] changes[i]))
                    &&& left[destination(changes[i])] == if uploads {
                        content(changes[i]->Upload_file)
                    } else {
                        objects[origin(changes[i])]
                    }
                    &&& !left.contains_key(origin(changes[i]))
                    &&& !left.contains_key(stop(changes[i]))
                }
            &&& forall|name: ObjectPathView|
                no_name_of(changes, name) ==> {
                    &&& #[trigger] left.contains_key(name) == objects.contains_key(name)
                    &&& objects.contains_key(name) ==> left[name] == objects[name]
                }
        }),
{
    let errors = Seq::<AppError>::empty();
    run_laws::a_transaction_is_completed_or_undone(uploads, plan, calls, None, errors);
    let (staged, finalized) = choose|staged: Seq<ChangeView>, finalized: Seq<ChangeView>| #[trigger]
        run_laws::completes(uploads, plan, calls, staged, finalized);
    let changes = changes_of(plan);
    assert(plan.take(plan.len() as int) =~= plan);
    staging_follows_the_plan(plan, staged);
    what_was_done(uploads, plan, plan.len() as int, staged, finalized, content);
    changes_are_apart(uploads, objects, changes, staged, finalized);
    let left = transaction_laws::after(objects, effects(calls, content));
    if uploads {
        let contents = contents_of(changes, content);
        assert(contents.take(staged.len() as int) =~= contents);
        transaction_laws::finished_uploads_stand_under_their_names(
            objects,
            staged,
            finalized,
            contents,
        );
    } else {
        transaction_laws::finished_moves_rename_every_object(objects, staged, finalized);
    }
    assert forall|i: int| 0 <= i < changes.len() implies {
        &&& left.contains_key(destination(#[trigger] changes[i]))
        &&& left[destination(changes[i])] == if uploads {
            content(changes[i]->Upload_file)
        } else {
            objects[origin(changes[i])]
        }
        &&& !left.contains_key(origin(changes[i]))
        &&& !left.contains_key(stop(changes[i]))
    } by {
        assert(finalized[i].target == destination(changes[i]));
        assert(staged[i].source == origin(changes[i]));
    }
    assert forall|name: ObjectPathView| no_name_of(changes, name) implies {
        &&& #[trigger] left.contains_key(name) == objects.contains_key(name)
        &&& objects.contains_key(name) ==> left[name] == objects[name]
    } by {
        assert forall|i: int| 0 <= i < staged.len() implies (#[trigger] finalized[i]).target != name
            && staged[i].source != name by {
            assert(destination(changes[i]) != name);
            assert(staged[i].source == origin(changes[i]));
        }
    }
}

} // verus!
