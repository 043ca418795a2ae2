//! What holds of every run of local renames, whatever the file system answers.
use vstd::prelude::*;

use crate::error::AppError;
use crate::local;
use crate::local::LocalStep;
use crate::local::Normalization;
use crate::local::Restoration;
use crate::local_path;
use crate::local_path::ComponentView;
use crate::normalization_plan::Entry;

verus! {

/// What came of a step.
pub enum LocalEvent {
    /// A rename is over: whether it was made, and its result.
    Renamed(bool, Result<(), AppError>),
    /// Whether the run was interrupted.
    Checked(bool),
    /// A rename back is over.
    RenamedBack(Result<(), AppError>),
}

/// The step that follows from what came of the step before.
pub open spec fn leads_to(step: LocalStep, event: LocalEvent, next: LocalStep) -> bool {
    match (step, event) {
        (LocalStep::Rename(awaiting, _), LocalEvent::Renamed(renamed, result)) =>
            awaiting.continues(renamed, result, next),
        (LocalStep::CheckInterrupt(awaiting), LocalEvent::Checked(interrupted)) => if interrupted {
            awaiting.run.gives_up(AppError::Interrupted, next)
        } else {
            awaiting.run.advances(next)
        },
        (LocalStep::RenameBack(awaiting, _), LocalEvent::RenamedBack(result)) => exists|
            run: Restoration,
        | #[trigger] awaiting.records(result, run) && run.proceeds(next),
        _ => false,
    }
}

/// A run of local renames, from any step on.
pub open spec fn is_run(steps: Seq<LocalStep>, events: Seq<LocalEvent>) -> bool {
    &&& steps.len() == events.len() + 1
    &&& forall|i: int|
        0 <= i < events.len() ==> leads_to(#[trigger] steps[i], events[i], steps[i + 1])
}

/// The rename still waits to be undone, should the run fail.
pub open spec fn is_pending(step: LocalStep, record: (String, String)) -> bool {
    match step {
        LocalStep::Rename(awaiting, _) => awaiting.run.renamed@.contains(record),
        LocalStep::CheckInterrupt(awaiting) => awaiting.run.renamed@.contains(record),
        LocalStep::RenameBack(awaiting, _) => exists|i: int|
            0 <= i < awaiting.run.left - 1 && i < awaiting.run.records@.len()
                && #[trigger] awaiting.run.records@[i] == record,
        _ => false,
    }
}

/// The step undoes the rename.
pub open spec fn undoes(step: LocalStep, record: (String, String)) -> bool {
    &&& step matches LocalStep::RenameBack(awaiting, _)
    &&& 0 < awaiting.run.left <= awaiting.run.records@.len()
    &&& awaiting.run.records@[awaiting.run.left - 1] == record
}

/// A restoration comes to every rename that is left.
proof fn restoration_comes_to(run: Restoration, step: LocalStep, i: int)
    requires
        run.proceeds(step),
        0 <= i < run.left,
        run.left <= run.records@.len(),
        !local_path::same(run.records@[i].0@, run.records@[i].1@),
    ensures
        is_pending(step, run.records@[i]) || undoes(step, run.records@[i]),
    decreases run.left,
{
    let (source, target) = run.records@[run.left - 1];
    if local_path::same(source@, target@) {
        restoration_comes_to(run.at(run.left - 1), step, i);
    } else {
        let awaiting = step->RenameBack_0;
        if i < run.left - 1 {
            assert(awaiting.run.records@[i] == run.records@[i]);
        }
    }
}

/// Going on keeps what was renamed.
proof fn advancing_keeps(run: Normalization, step: LocalStep, record: (String, String))
    requires
        run.advances(step),
        run.renamed@.contains(record),
    ensures
        is_pending(step, record) || (step matches LocalStep::Applied(outcome) && outcome is Ok),
    decreases run.entries.len() - run.next,
{
    if run.next < run.entries.len() {
        let entry = run.entries@[run.next as int];
        if local_path::same(entry.source@, entry.target@) {
            advancing_keeps(run.at(run.next + 1), step, record);
        }
    }
}

proof fn giving_up_comes_to(run: Normalization, failure: AppError, step: LocalStep, record: (String, String))
    requires
        run.gives_up(failure, step),
        run.renamed@.contains(record),
        !local_path::same(record.0@, record.1@),
    ensures
        is_pending(step, record) || undoes(step, record),
{
    let restoration = choose|restoration: Restoration|
        {
            &&& #[trigger] restoration.proceeds(step)
            &&& restoration.context == run.context
            &&& restoration.records == run.renamed
            &&& restoration.left == run.renamed@.len()
            &&& restoration.errors@.len() == 0
            &&& restoration.failure == Some(failure)
        };
    let i = choose|i: int| 0 <= i < run.renamed@.len() && run.renamed@[i] == record;
    restoration_comes_to(restoration, step, i);
}

/// A rename that waits to be undone goes on waiting, is undone, or stands once
/// the plan was applied.
proof fn pending_stays(step: LocalStep, event: LocalEvent, next: LocalStep, record: (String, String))
    requires
        step.wf(),
        leads_to(step, event, next),
        is_pending(step, record),
        !local_path::same(record.0@, record.1@),
    ensures
        is_pending(next, record) || undoes(next, record) || (next matches LocalStep::Applied(outcome)
            && outcome is Ok),
{
    match (step, event) {
        (LocalStep::Rename(awaiting, _), LocalEvent::Renamed(renamed, result)) => {
            after_rename(step, event, next, record);
        },
        (LocalStep::CheckInterrupt(awaiting), LocalEvent::Checked(interrupted)) => {
            if interrupted {
                giving_up_comes_to(awaiting.run, AppError::Interrupted, next, record);
            } else {
                advancing_keeps(awaiting.run, next, record);
            }
        },
        (LocalStep::RenameBack(awaiting, _), LocalEvent::RenamedBack(result)) => {
            let run = choose|run: Restoration| #[trigger]
                awaiting.records(result, run) && run.proceeds(next);
            let i = choose|i: int|
                0 <= i < awaiting.run.left - 1 && i < awaiting.run.records@.len()
                    && #[trigger] awaiting.run.records@[i] == record;
            assert(run.records@[i] == record);
            restoration_comes_to(run, next, i);
        },
        _ => {},
    }
}

/// After a rename, what was renamed before and what was just renamed waits to be
/// undone.
proof fn after_rename(step: LocalStep, event: LocalEvent, next: LocalStep, record: (String, String))
    requires
        step.wf(),
        leads_to(step, event, next),
        step is Rename,
        is_pending(step, record) || made(step, event, record),
        !local_path::same(record.0@, record.1@),
    ensures
        is_pending(next, record) || undoes(next, record),
{
    let awaiting = step->Rename_0;
    let renamed = event->Renamed_0;
    let result = event->Renamed_1;
    let run = choose|run: Normalization|
        {
            &&& #[trigger] awaiting.records(renamed, run)
            &&& match result {
                Ok(_) => next == LocalStep::CheckInterrupt(local::AwaitingCheck { run }),
                Err(failure) => run.gives_up(failure, next),
            }
        };
    assert(awaiting.records(renamed, run));
    assert(run.renamed@.contains(record)) by {
        if is_pending(step, record) {
            let i = choose|i: int|
                0 <= i < awaiting.run.renamed@.len() && awaiting.run.renamed@[i] == record;
            assert(run.renamed@[i] == record);
        } else {
            assert(run.renamed@[run.renamed@.len() - 1] == record);
        }
    }
    if let Err(failure) = result {
        giving_up_comes_to(run, failure, next, record);
    }
}

/// The rename of the record was just made.
pub open spec fn made(step: LocalStep, event: LocalEvent, record: (String, String)) -> bool {
    &&& step matches LocalStep::Rename(awaiting, _)
    &&& event matches LocalEvent::Renamed(renamed, _)
    &&& renamed
    &&& record == (
        awaiting.run.entries@[awaiting.run.next as int].source,
        awaiting.run.entries@[awaiting.run.next as int].target,
    )
}

proof fn pending_is_undone(steps: Seq<LocalStep>, events: Seq<LocalEvent>, at: int, record: (String, String)) -> (j:
    int)
    requires
        is_run(steps, events),
        forall|i: int| 0 <= i < steps.len() ==> (#[trigger] steps[i]).wf(),
        steps.last() matches LocalStep::Applied(outcome) && outcome is Err,
        0 <= at < steps.len(),
        is_pending(steps[at], record),
        !local_path::same(record.0@, record.1@),
    ensures
        at < j < steps.len(),
        undoes(steps[j], record),
    decreases steps.len() - at,
{
    assert(leads_to(steps[at], events[at], steps[at + 1]));
    assert(steps[at].wf());
    pending_stays(steps[at], events[at], steps[at + 1], record);
    if undoes(steps[at + 1], record) {
        at + 1
    } else {
        if !is_pending(steps[at + 1], record) {
            assert(steps[at + 1] is Applied);
            assert(at + 1 == steps.len() - 1) by {
                if at + 1 < events.len() {
                    assert(leads_to(steps[at + 1], events[at + 1], steps[at + 2]));
                }
            }
        }
        pending_is_undone(steps, events, at + 1, record)
    }
}

/// Where applying a plan fails, every rename that was made is undone: the file
/// is renamed back from its target to its source, whatever failed and whether or
/// not other files could be renamed back.
pub proof fn a_failed_plan_undoes_every_rename(
    steps: Seq<LocalStep>,
    events: Seq<LocalEvent>,
    at: int,
    record: (String, String),
)
    requires
        is_run(steps, events),
        forall|i: int| 0 <= i < steps.len() ==> (#[trigger] steps[i]).wf(),
        steps.last() matches LocalStep::Applied(outcome) && outcome is Err,
        0 <= at < events.len(),
        made(steps[at], events[at], record),
        !local_path::same(record.0@, record.1@),
    ensures
        exists|j: int| at < j < steps.len() && undoes(#[trigger] steps[j], record),
{
    assert(leads_to(steps[at], events[at], steps[at + 1]));
    assert(steps[at].wf());
    after_rename(steps[at], events[at], steps[at + 1], record);
    if !undoes(steps[at + 1], record) {
        let j = pending_is_undone(steps, events, at + 1, record);
        assert(undoes(steps[j], record));
    }
}

/// The undoing goes from the last rename to the first: a restoration that goes
/// on after undoing a rename only ever comes to an earlier one.
pub proof fn renames_are_undone_last_first(run: Restoration, step: LocalStep)
    requires
        run.proceeds(step),
        step is RenameBack,
    ensures
        ({
            let awaiting = step->RenameBack_0;
            &&& awaiting.run.records == run.records
            &&& 0 < awaiting.run.left <= run.left
            &&& forall|i: int|
                awaiting.run.left <= i < run.left ==> local_path::same(
                    (#[trigger] run.records@[i]).0@,
                    run.records@[i].1@,
                )
        }),
    decreases run.left,
{
    if run.left > 0 {
        let (source, target) = run.records@[run.left - 1];
        if local_path::same(source@, target@) {
            renames_are_undone_last_first(run.at(run.left - 1), step);
        }
    }
}

/// The name of a path: its components, however they are spelled.
pub open spec fn name_of(path: String) -> Seq<ComponentView> {
    local_path::components(path@)
}

/// The files after one file was given the name of another path.
pub open spec fn moved<T>(files: Map<Seq<ComponentView>, T>, from: String, to: String) -> Map<
    Seq<ComponentView>,
    T,
> {
    files.remove(name_of(from)).insert(name_of(to), files[name_of(from)])
}

/// A rename that replaces nothing can be made: there is such a file, and no file of
/// the new name.
pub open spec fn movable<T>(files: Map<Seq<ComponentView>, T>, from: String, to: String) -> bool {
    files.contains_key(name_of(from)) && !files.contains_key(name_of(to))
}

/// What came of a step is what a file system does that nobody else changes: a
/// rename that replaces nothing is made where it can be, and otherwise fails.
pub open spec fn undisturbed<T>(
    step: LocalStep,
    event: LocalEvent,
    before: Map<Seq<ComponentView>, T>,
    after: Map<Seq<ComponentView>, T>,
) -> bool {
    match (step, event) {
        (LocalStep::Rename(awaiting, _), LocalEvent::Renamed(renamed, result)) => {
            let entry = awaiting.run.entries@[awaiting.run.next as int];
            let possible = movable(before, entry.source, entry.target);
            &&& renamed == possible
            &&& result is Ok == possible
            &&& after == if possible {
                moved(before, entry.source, entry.target)
            } else {
                before
            }
        },
        (LocalStep::RenameBack(awaiting, _), LocalEvent::RenamedBack(result)) => {
            let (source, target) = awaiting.run.records@[awaiting.run.left - 1];
            let possible = movable(before, target, source);
            &&& result is Ok == possible
            &&& after == if possible {
                moved(before, target, source)
            } else {
                before
            }
        },
        _ => after == before,
    }
}

/// The files at every step of a run on a file system that nobody else changes.
pub open spec fn undisturbed_run<T>(
    steps: Seq<LocalStep>,
    events: Seq<LocalEvent>,
    files: Seq<Map<Seq<ComponentView>, T>>,
) -> bool {
    &&& is_run(steps, events)
    &&& files.len() == steps.len()
    &&& forall|i: int| 0 <= i < steps.len() ==> (#[trigger] steps[i]).wf()
    &&& forall|i: int|
        0 <= i < events.len() ==> undisturbed(steps[i], events[i], #[trigger] files[i], files[i + 1])
}

/// The files after the renames, in order. A path that is its own target stays.
pub open spec fn renamed_files<T>(files: Map<Seq<ComponentView>, T>, records: Seq<(String, String)>) -> Map<
    Seq<ComponentView>,
    T,
>
    decreases records.len(),
{
    if records.len() == 0 {
        files
    } else {
        let before = renamed_files(files, records.drop_last());
        let (source, target) = records.last();
        if local_path::same(source@, target@) {
            before
        } else {
            moved(before, source, target)
        }
    }
}

/// Each of the renames could be made in its turn.
pub open spec fn in_turn<T>(files: Map<Seq<ComponentView>, T>, records: Seq<(String, String)>) -> bool
    decreases records.len(),
{
    records.len() > 0 ==> {
        let (source, target) = records.last();
        &&& in_turn(files, records.drop_last())
        &&& local_path::same(source@, target@) || movable(
            renamed_files(files, records.drop_last()),
            source,
            target,
        )
    }
}

spec fn going<T>(
    start: Map<Seq<ComponentView>, T>,
    files: Map<Seq<ComponentView>, T>,
    run: Normalization,
) -> bool {
    let done = local::pairs_of(run.entries@).take(run.next as int);
    &&& run.wf()
    &&& in_turn(start, run.renamed@)
    &&& files == renamed_files(start, run.renamed@)
    &&& in_turn(start, done)
    &&& files == renamed_files(start, done)
}

spec fn restoring<T>(
    start: Map<Seq<ComponentView>, T>,
    files: Map<Seq<ComponentView>, T>,
    run: Restoration,
) -> bool {
    &&& run.wf()
    &&& run.errors@.len() == 0
    &&& in_turn(start, run.records@.take(run.left as int))
    &&& files == renamed_files(start, run.records@.take(run.left as int))
}

/// What the files are at a step of a run that began with other files.
spec fn stands<T>(
    start: Map<Seq<ComponentView>, T>,
    files: Map<Seq<ComponentView>, T>,
    step: LocalStep,
) -> bool {
    match step {
        LocalStep::Rename(awaiting, _) => {
            let entry = awaiting.run.entries@[awaiting.run.next as int];
            &&& going(start, files, awaiting.run)
            &&& awaiting.run.next < awaiting.run.entries@.len()
            &&& !local_path::same(entry.source@, entry.target@)
        },
        LocalStep::CheckInterrupt(awaiting) => going(start, files, awaiting.run),
        LocalStep::RenameBack(awaiting, _) => {
            let (source, target) = awaiting.run.records@[awaiting.run.left - 1];
            &&& restoring(start, files, awaiting.run)
            &&& awaiting.run.left > 0
            &&& !local_path::same(source@, target@)
        },
        LocalStep::Applied(outcome) => match outcome {
            Ok(pairs) => in_turn(start, pairs@) && files == renamed_files(start, pairs@),
            Err(_) => files == start,
        },
        LocalStep::Restored(errors) => errors@.len() == 0 && files == start,
    }
}

proof fn after_advancing<T>(
    start: Map<Seq<ComponentView>, T>,
    files: Map<Seq<ComponentView>, T>,
    run: Normalization,
    step: LocalStep,
)
    requires
        going(start, files, run),
        run.advances(step),
    ensures
        stands(start, files, step),
    decreases run.entries.len() - run.next,
{
    let pairs = local::pairs_of(run.entries@);
    if run.next >= run.entries.len() {
        assert(pairs.take(run.next as int) =~= pairs);
    } else {
        let entry = run.entries@[run.next as int];
        if local_path::same(entry.source@, entry.target@) {
            let done = pairs.take(run.next + 1);
            assert(done.drop_last() =~= pairs.take(run.next as int));
            assert(done.last() == (entry.source, entry.target));
            after_advancing(start, files, run.at(run.next + 1), step);
        }
    }
}

proof fn after_proceeding<T>(
    start: Map<Seq<ComponentView>, T>,
    files: Map<Seq<ComponentView>, T>,
    run: Restoration,
    step: LocalStep,
)
    requires
        restoring(start, files, run),
        run.proceeds(step),
    ensures
        stands(start, files, step),
    decreases run.left,
{
    let left = run.records@.take(run.left as int);
    if run.left > 0 {
        let (source, target) = run.records@[run.left - 1];
        assert(left.last() == (source, target));
        assert(left.drop_last() =~= run.records@.take(run.left - 1));
        if local_path::same(source@, target@) {
            after_proceeding(start, files, run.at(run.left - 1), step);
        }
    }
}

proof fn after_giving_up<T>(
    start: Map<Seq<ComponentView>, T>,
    files: Map<Seq<ComponentView>, T>,
    run: Normalization,
    failure: AppError,
    step: LocalStep,
)
    requires
        going(start, files, run),
        run.gives_up(failure, step),
    ensures
        stands(start, files, step),
{
    let restoration = choose|restoration: Restoration|
        {
            &&& #[trigger] restoration.proceeds(step)
            &&& restoration.context == run.context
            &&& restoration.records == run.renamed
            &&& restoration.left == run.renamed@.len()
            &&& restoration.errors@.len() == 0
            &&& restoration.failure == Some(failure)
        };
    assert(run.renamed@.take(run.renamed@.len() as int) =~= run.renamed@);
    after_proceeding(start, files, restoration, step);
}

proof fn after_one_step<T>(
    start: Map<Seq<ComponentView>, T>,
    before: Map<Seq<ComponentView>, T>,
    after: Map<Seq<ComponentView>, T>,
    step: LocalStep,
    event: LocalEvent,
    next: LocalStep,
)
    requires
        step.wf(),
        leads_to(step, event, next),
        undisturbed(step, event, before, after),
        stands(start, before, step),
    ensures
        stands(start, after, next),
{
    match (step, event) {
        (LocalStep::Rename(awaiting, _), LocalEvent::Renamed(renamed, result)) => {
            let entry = awaiting.run.entries@[awaiting.run.next as int];
            let run = choose|run: Normalization|
                {
                    &&& #[trigger] awaiting.records(renamed, run)
                    &&& match result {
                        Ok(_) => next == LocalStep::CheckInterrupt(
                            local::AwaitingCheck { run },
                        ),
                        Err(failure) => run.gives_up(failure, next),
                    }
                };
            assert(awaiting.records(renamed, run));
            let pairs = local::pairs_of(run.entries@);
            let done = pairs.take(run.next as int);
            assert(done.drop_last() =~= pairs.take(awaiting.run.next as int));
            assert(done.last() == (entry.source, entry.target));
            match result {
                Ok(_) => {
                    assert(run.renamed@.drop_last() =~= awaiting.run.renamed@);
                    assert(run.renamed@.last() == (entry.source, entry.target));
                    assert(going(start, after, run));
                },
                Err(failure) => {
                    let stopped = Normalization { next: awaiting.run.next, ..run };
                    assert(stopped.renamed@ == awaiting.run.renamed@);
                    assert(going(start, after, stopped));
                    assert(stopped.gives_up(failure, next));
                    after_giving_up(start, after, stopped, failure, next);
                },
            }
        },
        (LocalStep::CheckInterrupt(awaiting), LocalEvent::Checked(interrupted)) => {
            if interrupted {
                after_giving_up(start, after, awaiting.run, AppError::Interrupted, next);
            } else {
                after_advancing(start, after, awaiting.run, next);
            }
        },
        (LocalStep::RenameBack(awaiting, _), LocalEvent::RenamedBack(result)) => {
            let run = choose|run: Restoration| #[trigger]
                awaiting.records(result, run) && run.proceeds(next);
            let (source, target) = awaiting.run.records@[awaiting.run.left - 1];
            let left = awaiting.run.records@.take(awaiting.run.left as int);
            assert(left.last() == (source, target));
            assert(left.drop_last() =~= run.records@.take(run.left as int));
            let earlier = renamed_files(start, left.drop_last());
            assert(movable(earlier, source, target));
            assert(before == moved(earlier, source, target));
            assert(name_of(source) != name_of(target));
            assert(movable(before, target, source));
            assert(after =~= earlier);
            after_proceeding(start, after, run, next);
        },
        _ => {},
    }
}

proof fn at_every_step<T>(
    start: Map<Seq<ComponentView>, T>,
    steps: Seq<LocalStep>,
    events: Seq<LocalEvent>,
    files: Seq<Map<Seq<ComponentView>, T>>,
    at: int,
)
    requires
        undisturbed_run(steps, events, files),
        stands(start, files[0], steps[0]),
        0 <= at < steps.len(),
    ensures
        stands(start, files[at], steps[at]),
    decreases at,
{
    if at > 0 {
        at_every_step(start, steps, events, files, at - 1);
        assert(leads_to(steps[at - 1], events[at - 1], steps[at]));
        assert(steps[at - 1].wf());
        assert(undisturbed(steps[at - 1], events[at - 1], files[at - 1], files[at - 1 + 1]));
        after_one_step(start, files[at - 1], files[at], steps[at - 1], events[at - 1], steps[at]);
    }
}

/// A run goes through the entries that it began with.
proof fn entries_stay(
    entries: Vec<Entry>,
    steps: Seq<LocalStep>,
    events: Seq<LocalEvent>,
    at: int,
)
    requires
        is_run(steps, events),
        goes_through(entries, steps[0]),
        0 <= at < steps.len(),
    ensures
        goes_through(entries, steps[at]),
    decreases at,
{
    if at > 0 {
        entries_stay(entries, steps, events, at - 1);
        assert(leads_to(steps[at - 1], events[at - 1], steps[at]));
        match (steps[at - 1], events[at - 1]) {
            (LocalStep::Rename(awaiting, _), LocalEvent::Renamed(renamed, result)) => {
                let run = choose|run: Normalization|
                    {
                        &&& #[trigger] awaiting.records(renamed, run)
                        &&& match result {
                            Ok(_) => steps[at] == LocalStep::CheckInterrupt(
                                local::AwaitingCheck { run },
                            ),
                            Err(failure) => run.gives_up(failure, steps[at]),
                        }
                    };
                if let Err(failure) = result {
                    giving_up_applies_nothing(run, failure, steps[at]);
                }
            },
            (LocalStep::CheckInterrupt(awaiting), LocalEvent::Checked(interrupted)) => {
                if interrupted {
                    giving_up_applies_nothing(awaiting.run, AppError::Interrupted, steps[at]);
                } else {
                    advancing_goes_through(awaiting.run, steps[at]);
                }
            },
            (LocalStep::RenameBack(awaiting, _), LocalEvent::RenamedBack(result)) => {
                let run = choose|run: Restoration| #[trigger]
                    awaiting.records(result, run) && run.proceeds(steps[at]);
                proceeding_applies_nothing(run, steps[at]);
            },
            _ => {},
        }
    }
}

/// The step goes through the entries, applied them, or gives names back.
spec fn goes_through(entries: Vec<Entry>, step: LocalStep) -> bool {
    match step {
        LocalStep::Rename(awaiting, _) => awaiting.run.entries == entries,
        LocalStep::CheckInterrupt(awaiting) => awaiting.run.entries == entries,
        LocalStep::Applied(outcome) => outcome matches Ok(pairs) ==> pairs@ == local::pairs_of(
            entries@,
        ),
        _ => true,
    }
}

proof fn advancing_goes_through(run: Normalization, step: LocalStep)
    requires
        run.advances(step),
    ensures
        goes_through(run.entries, step),
    decreases run.entries.len() - run.next,
{
    if run.next < run.entries.len() {
        let entry = run.entries@[run.next as int];
        if local_path::same(entry.source@, entry.target@) {
            advancing_goes_through(run.at(run.next + 1), step);
        }
    }
}

proof fn proceeding_applies_nothing(run: Restoration, step: LocalStep)
    requires
        run.proceeds(step),
    ensures
        !(step is Rename),
        !(step is CheckInterrupt),
        step matches LocalStep::Applied(outcome) ==> outcome is Err,
    decreases run.left,
{
    if run.left > 0 {
        let (source, target) = run.records@[run.left - 1];
        if local_path::same(source@, target@) {
            proceeding_applies_nothing(run.at(run.left - 1), step);
        }
    }
}

proof fn giving_up_applies_nothing(run: Normalization, failure: AppError, step: LocalStep)
    requires
        run.gives_up(failure, step),
    ensures
        !(step is Rename),
        !(step is CheckInterrupt),
        step matches LocalStep::Applied(outcome) ==> outcome is Err,
{
    let restoration = choose|restoration: Restoration|
        {
            &&& #[trigger] restoration.proceeds(step)
            &&& restoration.context == run.context
            &&& restoration.records == run.renamed
            &&& restoration.left == run.renamed@.len()
            &&& restoration.errors@.len() == 0
            &&& restoration.failure == Some(failure)
        };
    proceeding_applies_nothing(restoration, step);
}

/// On a file system that nobody else changes, a plan that is applied renames every
/// file of the plan in its turn, and changes nothing else.
pub proof fn an_applied_plan_makes_every_rename<T>(
    run: Normalization,
    steps: Seq<LocalStep>,
    events: Seq<LocalEvent>,
    files: Seq<Map<Seq<ComponentView>, T>>,
)
    requires
        undisturbed_run(steps, events, files),
        run.advances(steps[0]),
        run.next == 0,
        run.renamed@.len() == 0,
        steps.last() matches LocalStep::Applied(outcome) && outcome is Ok,
    ensures
        steps.last() matches LocalStep::Applied(outcome) && (outcome matches Ok(pairs) && pairs@
            == local::pairs_of(run.entries@)),
        in_turn(files[0], local::pairs_of(run.entries@)),
        files.last() == renamed_files(files[0], local::pairs_of(run.entries@)),
{
    assert(local::pairs_of(run.entries@).take(0) =~= Seq::empty());
    after_advancing(files[0], files[0], run, steps[0]);
    at_every_step(files[0], steps, events, files, steps.len() - 1);
    advancing_goes_through(run, steps[0]);
    entries_stay(run.entries, steps, events, steps.len() - 1);
}

/// The rename gives the file another name.
pub open spec fn changes_name(record: (String, String)) -> bool {
    name_of(record.0) != name_of(record.1)
}

/// No target is the source of another rename.
pub open spec fn unchained(records: Seq<(String, String)>) -> bool {
    forall|i: int, j: int|
        0 <= i < records.len() && 0 <= j < records.len() && i != j ==> name_of(
            (#[trigger] records[i]).1,
        ) != name_of((#[trigger] records[j]).0)
}

/// The name is neither the old nor the new name of a file that is renamed.
pub open spec fn no_name_of(records: Seq<(String, String)>, name: Seq<ComponentView>) -> bool {
    forall|i: int|
        0 <= i < records.len() && changes_name(#[trigger] records[i]) ==> name_of(records[i].0)
            != name && name_of(records[i].1) != name
}

/// The file was there under its old name, and stands under its new name alone, with
/// the contents that it had.
pub open spec fn stands_renamed<T>(
    start: Map<Seq<ComponentView>, T>,
    files: Map<Seq<ComponentView>, T>,
    record: (String, String),
) -> bool {
    &&& start.contains_key(name_of(record.0))
    &&& !files.contains_key(name_of(record.0))
    &&& files.contains_key(name_of(record.1))
    &&& files[name_of(record.1)] == start[name_of(record.0)]
}

/// Under the name nothing has changed.
pub open spec fn unchanged_at<T>(
    start: Map<Seq<ComponentView>, T>,
    files: Map<Seq<ComponentView>, T>,
    name: Seq<ComponentView>,
) -> bool {
    &&& files.contains_key(name) == start.contains_key(name)
    &&& start.contains_key(name) ==> files[name] == start[name]
}

/// On a file system that nobody else changes, where no target of an applied plan is
/// the source of another entry, every file that gets another name stands under its
/// target alone, with its contents. Under every other name nothing has changed, the
/// name of an entry that keeps its name included.
pub proof fn an_applied_plan_gives_every_file_its_target<T>(
    run: Normalization,
    steps: Seq<LocalStep>,
    events: Seq<LocalEvent>,
    files: Seq<Map<Seq<ComponentView>, T>>,
)
    requires
        undisturbed_run(steps, events, files),
        run.advances(steps[0]),
        run.next == 0,
        run.renamed@.len() == 0,
        steps.last() matches LocalStep::Applied(outcome) && outcome is Ok,
        unchained(local::pairs_of(run.entries@)),
    ensures
        ({
            let records = local::pairs_of(run.entries@);
            &&& forall|i: int|
                0 <= i < records.len() ==> if changes_name(#[trigger] records[i]) {
                    stands_renamed(files[0], files.last(), records[i])
                } else {
                    unchanged_at(files[0], files.last(), name_of(records[i].0))
                }
            &&& forall|name: Seq<ComponentView>| #[trigger]
                no_name_of(records, name) ==> unchanged_at(files[0], files.last(), name)
        }),
{
    let records = local::pairs_of(run.entries@);
    an_applied_plan_makes_every_rename(run, steps, events, files);
    assert(records.take(records.len() as int) =~= records);
    renamed_so_far(files[0], records, records.len() as int);
    assert forall|i: int| 0 <= i < records.len() implies if changes_name(#[trigger] records[i]) {
        stands_renamed(files[0], files.last(), records[i])
    } else {
        unchanged_at(files[0], files.last(), name_of(records[i].0))
    } by {
        if !changes_name(records[i]) {
            let name = name_of(records[i].0);
            assert forall|j: int| 0 <= j < records.len() && changes_name(#[trigger] records[j]) implies
                name_of(records[j].0) != name && name_of(records[j].1) != name by {
                assert(i != j);
            }
            assert(no_name_of(records, name));
        }
    }
}

proof fn renamed_so_far<T>(
    start: Map<Seq<ComponentView>, T>,
    records: Seq<(String, String)>,
    count: int,
)
    requires
        0 <= count <= records.len(),
        unchained(records),
        in_turn(start, records.take(count)),
    ensures
        forall|i: int|
            0 <= i < count && changes_name(#[trigger] records[i]) ==> stands_renamed(
                start,
                renamed_files(start, records.take(count)),
                records[i],
            ),
        forall|name: Seq<ComponentView>| #[trigger]
            no_name_of(records.take(count), name) ==> unchanged_at(
                start,
                renamed_files(start, records.take(count)),
                name,
            ),
    decreases count,
{
    if count > 0 {
        let done = records.take(count);
        let earlier = records.take(count - 1);
        let record = records[count - 1];
        assert(done.drop_last() =~= earlier);
        assert(done.last() == record);
        renamed_so_far(start, records, count - 1);
        let before = renamed_files(start, earlier);
        let after = renamed_files(start, done);
        assert forall|name: Seq<ComponentView>| no_name_of(done, name) implies no_name_of(
            earlier,
            name,
        ) by {
            assert forall|i: int| 0 <= i < earlier.len() && changes_name(#[trigger] earlier[i]) implies
                name_of(earlier[i].0) != name && name_of(earlier[i].1) != name by {
                assert(done[i] == earlier[i]);
            }
        }
        if changes_name(record) {
            assert(no_name_of(earlier, name_of(record.0))) by {
                assert forall|i: int| 0 <= i < earlier.len() && changes_name(
                    #[trigger] earlier[i],
                ) implies name_of(earlier[i].0) != name_of(record.0) && name_of(earlier[i].1)
                    != name_of(record.0) by {
                    assert(earlier[i] == records[i]);
                    assert(stands_renamed(start, before, records[i]));
                }
            }
            assert(unchanged_at(start, before, name_of(record.0)));
            assert forall|i: int| 0 <= i < count && changes_name(#[trigger] records[i]) implies
                stands_renamed(start, after, records[i]) by {
                if i < count - 1 {
                    assert(stands_renamed(start, before, records[i]));
                    assert(name_of(records[i].1) != name_of(record.0));
                    assert(name_of(record.1) != name_of(records[i].0));
                }
            }
            assert forall|name: Seq<ComponentView>| #[trigger]
                no_name_of(done, name) implies unchanged_at(start, after, name) by {
                assert(no_name_of(earlier, name));
                assert(changes_name(done[count - 1]));
                assert(unchanged_at(start, before, name));
            }
        } else {
            assert(after == before);
            assert forall|name: Seq<ComponentView>| #[trigger]
                no_name_of(done, name) implies unchanged_at(start, after, name) by {
                assert(no_name_of(earlier, name));
            }
        }
    }
}

/// On a file system that nobody else changes, a plan that fails leaves every file
/// under the name that it had.
pub proof fn a_failed_plan_changes_no_name<T>(
    run: Normalization,
    steps: Seq<LocalStep>,
    events: Seq<LocalEvent>,
    files: Seq<Map<Seq<ComponentView>, T>>,
)
    requires
        undisturbed_run(steps, events, files),
        run.advances(steps[0]),
        run.next == 0,
        run.renamed@.len() == 0,
        steps.last() matches LocalStep::Applied(outcome) && outcome is Err,
    ensures
        files.last() == files[0],
{
    assert(local::pairs_of(run.entries@).take(0) =~= Seq::empty());
    after_advancing(files[0], files[0], run, steps[0]);
    at_every_step(files[0], steps, events, files, steps.len() - 1);
}

/// On a file system that nobody else changes, undoing a plan that was applied gives
/// every file back the name that it had, without a failure.
pub proof fn undoing_an_applied_plan_gives_every_name_back<T>(
    run: Normalization,
    steps: Seq<LocalStep>,
    events: Seq<LocalEvent>,
    files: Seq<Map<Seq<ComponentView>, T>>,
    undo: Restoration,
    undo_steps: Seq<LocalStep>,
    undo_events: Seq<LocalEvent>,
    undo_files: Seq<Map<Seq<ComponentView>, T>>,
)
    requires
        undisturbed_run(steps, events, files),
        run.advances(steps[0]),
        run.next == 0,
        run.renamed@.len() == 0,
        steps.last() matches LocalStep::Applied(outcome) && (outcome matches Ok(pairs)
            && undo.records@ == pairs@),
        undisturbed_run(undo_steps, undo_events, undo_files),
        undo.proceeds(undo_steps[0]),
        undo.left == undo.records@.len(),
        undo.errors@.len() == 0,
        undo.failure is None,
        undo_files[0] == files.last(),
        undo_steps.last() is Restored,
    ensures
        undo_files.last() == files[0],
        undo_steps.last() matches LocalStep::Restored(errors) && errors@.len() == 0,
{
    let start = files[0];
    assert(local::pairs_of(run.entries@).take(0) =~= Seq::empty());
    after_advancing(start, start, run, steps[0]);
    at_every_step(start, steps, events, files, steps.len() - 1);
    assert(undo.records@.take(undo.left as int) =~= undo.records@);
    after_proceeding(start, undo_files[0], undo, undo_steps[0]);
    at_every_step(start, undo_steps, undo_events, undo_files, undo_steps.len() - 1);
}

} // verus!
