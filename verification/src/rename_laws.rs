//! What holds of every rename, whatever the file system answers.
use vstd::prelude::*;

use crate::atomic_rename::DirectoryIdentity;
use crate::atomic_rename::DirectoryStage;
use crate::atomic_rename::EntryIdentity;
use crate::atomic_rename::FileIdentity;
use crate::atomic_rename::FileStage;
use crate::atomic_rename::Rename;
use crate::atomic_rename::RenameStep;
use crate::error::IoError;

verus! {

/// What came of a step.
pub enum RenameEvent {
    Opened(Result<(), IoError>),
    Directory(Result<DirectoryIdentity, IoError>),
    File(Result<FileIdentity, IoError>),
    Entry(Result<EntryIdentity, IoError>),
    Renamed(Result<(), IoError>),
}

/// The step that follows from what came of the step before.
pub open spec fn leads_to(step: RenameStep, event: RenameEvent, next: RenameStep) -> bool {
    match (step, event) {
        (RenameStep::Open(awaiting, _), RenameEvent::Opened(opened)) => awaiting.continues(
            opened,
            next,
        ),
        (RenameStep::IdentifyRoot(awaiting), RenameEvent::Directory(found)) => awaiting.continues(
            found,
            next,
        ),
        (RenameStep::IdentifyParent(awaiting, _), RenameEvent::Directory(found)) =>
            awaiting.continues(found, next),
        (RenameStep::IdentifyFile(awaiting, _, _), RenameEvent::File(found)) => awaiting.continues(
            found,
            next,
        ),
        (RenameStep::IdentifyEntry(awaiting, _, _), RenameEvent::Entry(found)) => awaiting.continues(
            found,
            next,
        ),
        (RenameStep::Rename(awaiting, _, _), RenameEvent::Renamed(made)) => awaiting.continues(
            made,
            next,
        ),
        _ => false,
    }
}

/// A run of a rename from its start.
pub open spec fn is_run(rename: Rename, steps: Seq<RenameStep>, events: Seq<RenameEvent>) -> bool {
    &&& steps.len() == events.len() + 1
    &&& rename.starts(steps[0])
    &&& forall|i: int|
        0 <= i < events.len() ==> leads_to(#[trigger] steps[i], events[i], steps[i + 1])
}

/// The identities that a rename can check.
pub enum Check {
    Root,
    SourceParent,
    TargetParent,
    File,
}

/// Whether the rename expects an identity there.
pub open spec fn expects(rename: Rename, check: Check) -> bool {
    match check {
        Check::Root => rename.identity.root is Some,
        Check::SourceParent => rename.identity.source_parent is Some,
        Check::TargetParent => rename.identity.target_parent is Some,
        Check::File => rename.identity.file is Some,
    }
}

/// The step comes after the check.
pub open spec fn is_past(step: RenameStep, check: Check) -> bool {
    match step {
        RenameStep::Done { .. } => false,
        RenameStep::Open(awaiting, _) => check is Root && !(awaiting.stage is Root),
        RenameStep::IdentifyRoot(_) => false,
        RenameStep::IdentifyParent(awaiting, _) => match check {
            Check::Root => true,
            Check::SourceParent => awaiting.stage is TargetParent,
            _ => false,
        },
        RenameStep::IdentifyFile(awaiting, _, _) => !(check is File) || awaiting.stage is After,
        RenameStep::IdentifyEntry(..) => true,
        RenameStep::Rename(..) => true,
    }
}

/// The identity that was found is the one that the rename expects there.
pub open spec fn confirms(rename: Rename, step: RenameStep, event: RenameEvent, check: Check) -> bool {
    match check {
        Check::Root => {
            &&& step is IdentifyRoot
            &&& event matches RenameEvent::Directory(Ok(found)) && rename.identity.root == Some(
                found,
            )
        },
        Check::SourceParent => {
            &&& step matches RenameStep::IdentifyParent(awaiting, _)
                && awaiting.stage is SourceParent
            &&& event matches RenameEvent::Directory(Ok(found)) && rename.identity.source_parent
                == Some(found)
        },
        Check::TargetParent => {
            &&& step matches RenameStep::IdentifyParent(awaiting, _)
                && awaiting.stage is TargetParent
            &&& event matches RenameEvent::Directory(Ok(found)) && rename.identity.target_parent
                == Some(found)
        },
        Check::File => {
            &&& step matches RenameStep::IdentifyFile(awaiting, _, _) && awaiting.stage is Before
            &&& event matches RenameEvent::File(Ok(found)) && rename.identity.file == Some(found)
        },
    }
}

/// The step belongs to the rename, and waits for the identities that it expects.
pub open spec fn belongs(rename: Rename, step: RenameStep) -> bool {
    match step {
        RenameStep::Done { .. } => true,
        RenameStep::Open(awaiting, _) => awaiting.rename == rename,
        RenameStep::IdentifyRoot(awaiting) => awaiting.rename == rename && (awaiting.stage matches
            DirectoryStage::Root { expected } && rename.identity.root == Some(expected)),
        RenameStep::IdentifyParent(awaiting, _) => awaiting.rename == rename
            && match awaiting.stage {
            DirectoryStage::Root { .. } => false,
            DirectoryStage::SourceParent { expected, .. } => rename.identity.source_parent == Some(
                expected,
            ),
            DirectoryStage::TargetParent { expected, .. } => rename.identity.target_parent == Some(
                expected,
            ),
        },
        RenameStep::IdentifyFile(awaiting, _, _) => awaiting.rename == rename
            && match awaiting.stage {
            FileStage::Before { expected, .. } => rename.identity.file == Some(expected),
            FileStage::After { expected, .. } => rename.identity.file == Some(expected),
        },
        RenameStep::IdentifyEntry(awaiting, _, _) => awaiting.rename == rename,
        RenameStep::Rename(awaiting, _, _) => awaiting.rename == rename,
    }
}

/// A check that is passed was confirmed.
proof fn passing_confirms(rename: Rename, step: RenameStep, event: RenameEvent, next: RenameStep, check: Check)
    requires
        belongs(rename, step),
        leads_to(step, event, next),
        expects(rename, check),
        !is_past(step, check),
        is_past(next, check),
    ensures
        confirms(rename, step, event, check),
{
}

proof fn steps_belong(rename: Rename, step: RenameStep, event: RenameEvent, next: RenameStep)
    requires
        belongs(rename, step),
        leads_to(step, event, next),
    ensures
        belongs(rename, next),
{
}

proof fn past_checks_were_confirmed(rename: Rename, steps: Seq<RenameStep>, events: Seq<RenameEvent>, at: int, check: Check) -> (k:
    int)
    requires
        is_run(rename, steps, events),
        0 <= at < steps.len(),
        expects(rename, check),
        is_past(steps[at], check),
    ensures
        0 <= k < at,
        confirms(rename, steps[k], events[k], check),
    decreases at,
{
    run_belongs(rename, steps, events, at);
    if at == 0 {
        assert(false);
        0
    } else {
        assert(leads_to(steps[at - 1], events[at - 1], steps[at]));
        run_belongs(rename, steps, events, at - 1);
        if is_past(steps[at - 1], check) {
            past_checks_were_confirmed(rename, steps, events, at - 1, check)
        } else {
            passing_confirms(rename, steps[at - 1], events[at - 1], steps[at], check);
            at - 1
        }
    }
}

proof fn run_belongs(rename: Rename, steps: Seq<RenameStep>, events: Seq<RenameEvent>, at: int)
    requires
        is_run(rename, steps, events),
        0 <= at < steps.len(),
    ensures
        belongs(rename, steps[at]),
    decreases at,
{
    if at > 0 {
        run_belongs(rename, steps, events, at - 1);
        assert(leads_to(steps[at - 1], events[at - 1], steps[at]));
        steps_belong(rename, steps[at - 1], events[at - 1], steps[at]);
    }
}

/// Nothing is renamed unless every expected identity was found: of the root, of
/// both parents, and of the file.
pub proof fn a_replacement_is_never_renamed(
    rename: Rename,
    steps: Seq<RenameStep>,
    events: Seq<RenameEvent>,
    at: int,
    check: Check,
)
    requires
        is_run(rename, steps, events),
        0 <= at < steps.len(),
        steps[at] is Rename,
        expects(rename, check),
    ensures
        exists|k: int|
            0 <= k < at && confirms(rename, #[trigger] steps[k], events[k], check),
{
    let k = past_checks_were_confirmed(rename, steps, events, at, check);
    assert(confirms(rename, steps[k], events[k], check));
}

/// A rename reports its entry as renamed exactly where the system acknowledged
/// the rename: only steps after the acknowledgement end so.
pub proof fn renamed_means_acknowledged(rename: Rename, step: RenameStep, event: RenameEvent, next: RenameStep)
    requires
        belongs(rename, step),
        leads_to(step, event, next),
        next matches RenameStep::Done { renamed, .. } && renamed,
    ensures
        ({
            ||| step is Rename && (event matches RenameEvent::Renamed(made) && made is Ok)
            ||| step matches RenameStep::IdentifyFile(awaiting, _, _) && awaiting.stage is After
        }),
{
}

} // verus!
