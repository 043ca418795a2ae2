//! What local renames expect, and when a plan of them is applied.
use vstd::prelude::*;

use crate::atomic_rename::DirectoryIdentity;
use crate::atomic_rename::FileIdentity;
use crate::atomic_rename::Rename;
use crate::error::AppError;
use crate::error::IoErrorKind;
use crate::local;
use crate::local::LocalStep;
use crate::local::Normalization;
use crate::local::RenameContext;
use crate::local::Restoration;
use crate::local_laws;
use crate::local_laws::LocalEvent;
use crate::local_path;
use crate::local_path::ComponentView;
use crate::normalization_plan::Entry;

verus! {

/// The first file that was recorded under the path, or any path that is the same.
pub proof fn the_first_record_of_a_file_counts(
    files: Seq<(String, FileIdentity)>,
    path: Seq<char>,
    at: int,
)
    requires
        0 <= at <= files.len(),
        forall|i: int|
            0 <= i < at ==> local_path::components((#[trigger] files[i]).0@)
                != local_path::components(path),
        at < files.len() ==> local_path::components(files[at].0@) == local_path::components(path),
    ensures
        local::file_at(files, path) == if at < files.len() {
            Some(files[at].1)
        } else {
            None
        },
    decreases files.len(),
{
    if at > 0 {
        let rest = files.skip(1);
        assert(local_path::components(files[0].0@) != local_path::components(path));
        assert forall|i: int| 0 <= i < at - 1 implies local_path::components(
            (#[trigger] rest[i]).0@,
        ) != local_path::components(path) by {
            assert(rest[i] == files[i + 1]);
        }
        the_first_record_of_a_file_counts(rest, path, at - 1);
    }
}

/// The first directory that was recorded counts as the one that contains a path.
pub proof fn the_first_record_of_a_directory_counts(
    directories: Seq<(String, DirectoryIdentity)>,
    path: Seq<char>,
    at: int,
)
    requires
        0 <= at <= directories.len(),
        local_path::parent_of(path) is Some,
        forall|i: int|
            0 <= i < at ==> local_path::components((#[trigger] directories[i]).0@)
                != local_path::parent_of(path)->0,
        at < directories.len() ==> local_path::components(directories[at].0@)
            == local_path::parent_of(path)->0,
    ensures
        local::parent_identity_of(directories, path) == if at < directories.len() {
            Some(directories[at].1)
        } else {
            None
        },
{
    first_directory(directories, local_path::parent_of(path)->0, at);
}

proof fn first_directory(
    directories: Seq<(String, DirectoryIdentity)>,
    parent: Seq<ComponentView>,
    at: int,
)
    requires
        0 <= at <= directories.len(),
        forall|i: int|
            0 <= i < at ==> local_path::components((#[trigger] directories[i]).0@) != parent,
        at < directories.len() ==> local_path::components(directories[at].0@) == parent,
    ensures
        local::directory_with(directories, parent) == if at < directories.len() {
            Some(directories[at].1)
        } else {
            None
        },
    decreases directories.len(),
{
    if at > 0 {
        let rest = directories.skip(1);
        assert(local_path::components(directories[0].0@) != parent);
        assert forall|i: int| 0 <= i < at - 1 implies local_path::components(
            (#[trigger] rest[i]).0@,
        ) != parent by {
            assert(rest[i] == directories[i + 1]);
        }
        first_directory(rest, parent, at - 1);
    }
}

/// The rename is one from the source to the target inside the context. Where the root has
/// an expected identity, that is checked, and so are those of the file and of the two
/// directories, as far as they were recorded. Otherwise nothing is checked.
pub open spec fn is_rename_of(
    rename: Rename,
    context: RenameContext,
    source: Seq<char>,
    target: Seq<char>,
    recorded: Seq<char>,
) -> bool {
    &&& rename.platform == context.platform
    &&& rename.root@ == context.root@
    &&& rename.source@ == source
    &&& rename.target@ == target
    &&& rename.identity.root == context.expected_root
    &&& context.expected_root is Some ==> {
        &&& rename.identity.file == local::file_at(context.expected_files@, recorded)
        &&& rename.identity.source_parent == local::parent_identity_of(
            context.expected_directories@,
            source,
        )
        &&& rename.identity.target_parent == local::parent_identity_of(
            context.expected_directories@,
            target,
        )
    }
    &&& context.expected_root is None ==> {
        &&& rename.identity.file is None
        &&& rename.identity.source_parent is None
        &&& rename.identity.target_parent is None
    }
}

/// The next entry that is renamed is the first one that changes a name, from its source
/// to its target, and where there is none the plan is applied, with all its pairs.
pub proof fn the_next_change_is_renamed(run: Normalization, step: LocalStep, at: int)
    requires
        run.advances(step),
        run.next <= at <= run.entries@.len(),
        forall|i: int|
            run.next <= i < at ==> local_path::components((#[trigger] run.entries@[i]).source@)
                == local_path::components(run.entries@[i].target@),
        at < run.entries@.len() ==> local_path::components(run.entries@[at].source@)
            != local_path::components(run.entries@[at].target@),
    ensures
        if at < run.entries@.len() {
            &&& step matches LocalStep::Rename(awaiting, first)
            &&& awaiting.run.next == at
            &&& awaiting.run.entries == run.entries
            &&& awaiting.run.renamed == run.renamed
            &&& exists|rename: Rename| #[trigger]
                rename.starts(first) && is_rename_of(
                    rename,
                    run.context,
                    run.entries@[at].source@,
                    run.entries@[at].target@,
                    run.entries@[at].source@,
                )
        } else {
            &&& step matches LocalStep::Applied(outcome)
            &&& outcome matches Ok(pairs)
            &&& pairs@.len() == run.entries@.len()
            &&& forall|i: int|
                0 <= i < pairs@.len() ==> (#[trigger] pairs@[i]).0 == run.entries@[i].source
                    && pairs@[i].1 == run.entries@[i].target
        },
    decreases at - run.next,
{
    assert(run.entries.len() == run.entries@.len());
    if run.next < at {
        let entry = run.entries@[run.next as int];
        assert(local_path::same(entry.source@, entry.target@));
        the_next_change_is_renamed(run.at(run.next + 1), step, at);
    } else if at < run.entries@.len() {
        let entry = run.entries@[at];
        assert(!local_path::same(entry.source@, entry.target@));
        let first = step->Rename_1;
        let rename = choose|rename: Rename|
            {
                &&& #[trigger] rename.starts(first)
                &&& rename.platform == run.context.platform
                &&& rename.root@ == run.context.root@
                &&& rename.source@ == entry.source@
                &&& rename.target@ == entry.target@
                &&& rename.identity == run.context.identity_of(
                    entry.source@,
                    entry.target@,
                    entry.source@,
                )
            };
        assert(is_rename_of(rename, run.context, entry.source@, entry.target@, entry.source@));
    }
}

/// The next rename that is undone is the last one that changed a name, from its target
/// back to its source, and where there is none the undoing is over.
pub proof fn the_last_change_is_undone(run: Restoration, step: LocalStep, at: int)
    requires
        run.proceeds(step),
        0 <= at <= run.left <= run.records@.len(),
        forall|i: int|
            at <= i < run.left ==> local_path::components((#[trigger] run.records@[i]).0@)
                == local_path::components(run.records@[i].1@),
        at > 0 ==> local_path::components(run.records@[at - 1].0@) != local_path::components(
            run.records@[at - 1].1@,
        ),
    ensures
        if at > 0 {
            &&& step matches LocalStep::RenameBack(awaiting, first)
            &&& awaiting.run.left == at
            &&& awaiting.run.records == run.records
            &&& exists|rename: Rename| #[trigger]
                rename.starts(first) && is_rename_of(
                    rename,
                    run.context,
                    run.records@[at - 1].1@,
                    run.records@[at - 1].0@,
                    run.records@[at - 1].0@,
                )
        } else {
            match run.failure {
                Some(failure) => step matches LocalStep::Applied(outcome) && outcome is Err,
                None => step matches LocalStep::Restored(errors) && errors@ == run.errors@,
            }
        },
    decreases run.left,
{
    if at < run.left {
        let (source, target) = run.records@[run.left - 1];
        assert(local_path::same(source@, target@));
        the_last_change_is_undone(run.at(run.left - 1), step, at);
    } else if at > 0 {
        let (source, target) = run.records@[at - 1];
        assert(!local_path::same(source@, target@));
        let first = step->RenameBack_1;
        let rename = choose|rename: Rename|
            {
                &&& #[trigger] rename.starts(first)
                &&& rename.platform == run.context.platform
                &&& rename.root@ == run.context.root@
                &&& rename.source@ == target@
                &&& rename.target@ == source@
                &&& rename.identity == run.context.identity_of(target@, source@, source@)
            };
        assert(is_rename_of(rename, run.context, target@, source@, source@));
    }
}

/// What came of the step is no failure, and no interrupt was seen.
pub open spec fn is_good(event: LocalEvent) -> bool {
    match event {
        LocalEvent::Renamed(_, result) => result is Ok,
        LocalEvent::Checked(interrupted) => !interrupted,
        LocalEvent::RenamedBack(_) => true,
    }
}

/// The plan is being applied, or was.
spec fn is_applying(step: LocalStep, entries: Vec<Entry>) -> bool {
    match step {
        LocalStep::Rename(awaiting, _) => awaiting.run.entries == entries,
        LocalStep::CheckInterrupt(awaiting) => awaiting.run.entries == entries,
        LocalStep::Applied(outcome) => outcome is Ok && outcome->Ok_0@ == local::pairs_of(
            entries@,
        ),
        _ => false,
    }
}

proof fn advancing_applies(run: Normalization, step: LocalStep)
    requires
        run.advances(step),
    ensures
        is_applying(step, run.entries),
    decreases run.entries.len() - run.next,
{
    if run.next < run.entries.len() {
        let entry = run.entries@[run.next as int];
        if local_path::same(entry.source@, entry.target@) {
            advancing_applies(run.at(run.next + 1), step);
        }
    }
}

proof fn applying_so_far(
    run: Normalization,
    steps: Seq<LocalStep>,
    events: Seq<LocalEvent>,
    at: int,
)
    requires
        local_laws::is_run(steps, events),
        run.advances(steps[0]),
        forall|i: int| 0 <= i < events.len() ==> is_good(#[trigger] events[i]),
        0 <= at < steps.len(),
    ensures
        is_applying(steps[at], run.entries),
    decreases at,
{
    if at == 0 {
        advancing_applies(run, steps[0]);
    } else {
        applying_so_far(run, steps, events, at - 1);
        assert(local_laws::leads_to(steps[at - 1], events[at - 1], steps[at - 1 + 1]));
        assert(is_good(events[at - 1]));
        if let LocalStep::CheckInterrupt(awaiting) = steps[at - 1] {
            advancing_applies(awaiting.run, steps[at]);
        }
    }
}

/// A plan is given up only where a rename fails or an interrupt is seen. Otherwise it is
/// applied, and nothing is renamed back.
pub proof fn a_plan_without_failures_is_applied(
    run: Normalization,
    steps: Seq<LocalStep>,
    events: Seq<LocalEvent>,
    at: int,
)
    requires
        local_laws::is_run(steps, events),
        run.advances(steps[0]),
        forall|i: int| 0 <= i < events.len() ==> is_good(#[trigger] events[i]),
        0 <= at < steps.len(),
    ensures
        !(steps[at] is RenameBack),
        steps[at] matches LocalStep::Applied(outcome) ==> outcome is Ok,
{
    applying_so_far(run, steps, events, at);
}

/// A failure to give an old name back says which of the names are taken: both where the
/// system found the old name taken, and neither where it found nothing. Any other failure
/// is told as it is.
pub proof fn a_failed_restoration_tells_which_names_are_taken(error: AppError, told: AppError)
    requires
        local::restore_failure(error, told),
    ensures
        match error {
            AppError::Io(cause) => match cause.kind {
                IoErrorKind::AlreadyExists => told matches AppError::Io(io) && io.kind
                    == IoErrorKind::AlreadyExists && io.message@
                    == "source and target both exist"@,
                IoErrorKind::NotFound => told matches AppError::Io(io) && io.kind
                    == IoErrorKind::NotFound && io.message@ == "target does not exist"@,
                _ => told == error,
            },
            _ => told == error,
        },
{
}

} // verus!
