//! Which file is opened for an upload, and when it is accepted.
use vstd::prelude::*;

use crate::atomic_rename::DirectoryIdentity;
use crate::atomic_rename::FileIdentity;
use crate::atomic_rename::Platform;
use crate::error::AppError;
use crate::error::IoError;
use crate::local_path::Component;
use crate::local_path;
use crate::local_path::ComponentView;
use crate::renaming_laws;
use crate::upload_source;
use crate::upload_source::AwaitingDirectory;
use crate::upload_source::AwaitingOpen;
use crate::upload_source::KindCheck;
use crate::upload_source::SourceStep;
use crate::upload_source::UploadSourceIdentity;
use crate::upload_source::Walk;

verus! {

/// What came of a step.
pub enum SourceEvent {
    Opened(Result<(), IoError>),
    Directory(Result<DirectoryIdentity, IoError>),
    Regular(Result<bool, IoError>),
    File(Result<FileIdentity, IoError>),
}

/// The step that follows from what came of the step before.
pub open spec fn leads_to(step: SourceStep, event: SourceEvent, next: SourceStep) -> bool {
    match (step, event) {
        (SourceStep::OpenRoot(awaiting, _), SourceEvent::Opened(opened)) => awaiting.continues(
            opened,
            next,
        ),
        (SourceStep::OpenDirectory(awaiting, _), SourceEvent::Opened(opened)) => awaiting.continues(
            opened,
            next,
        ),
        (SourceStep::OpenFile(awaiting, _), SourceEvent::Opened(opened)) => awaiting.continues(
            opened,
            next,
        ),
        (SourceStep::OpenPath(awaiting, _), SourceEvent::Opened(opened)) => awaiting.continues(
            opened,
            next,
        ),
        (SourceStep::IdentifyDirectory(awaiting), SourceEvent::Directory(found)) =>
            awaiting.continues(found, next),
        (SourceStep::IdentifyDirectoryAt(awaiting, _), SourceEvent::Directory(found)) =>
            awaiting.continues(found, next),
        (SourceStep::CheckRegular(awaiting), SourceEvent::Regular(regular)) => awaiting.continues(
            regular,
            next,
        ),
        (SourceStep::IdentifyFile(awaiting), SourceEvent::File(found)) => awaiting.continues(
            found,
            next,
        ),
        _ => false,
    }
}

/// The opening of a source below a root, from its start.
pub open spec fn is_run(
    platform: Platform,
    root: Seq<char>,
    source: Seq<char>,
    expected_root: Option<DirectoryIdentity>,
    expected: Option<UploadSourceIdentity>,
    steps: Seq<SourceStep>,
    events: Seq<SourceEvent>,
) -> bool {
    &&& steps.len() == events.len() + 1
    &&& upload_source::opens(platform, Some(root), source, expected_root, expected, steps[0])
    &&& forall|i: int|
        0 <= i < events.len() ==> leads_to(#[trigger] steps[i], events[i], steps[i + 1])
}

/// The names of the directories and of the file that were opened, one below the other.
pub open spec fn opened_names(steps: Seq<SourceStep>) -> Seq<Seq<char>>
    decreases steps.len(),
{
    if steps.len() == 0 {
        Seq::empty()
    } else {
        match steps.last() {
            SourceStep::OpenDirectory(_, name) => opened_names(steps.drop_last()).push(name@),
            SourceStep::OpenFile(_, name) => opened_names(steps.drop_last()).push(name@),
            _ => opened_names(steps.drop_last()),
        }
    }
}

/// What came of the step is what the opening hopes for: everything opens, the file is a
/// regular one, and the expected identities are found.
pub open spec fn is_as_expected(
    expected_root: Option<DirectoryIdentity>,
    expected: Option<UploadSourceIdentity>,
    step: SourceStep,
    event: SourceEvent,
) -> bool {
    match event {
        SourceEvent::Opened(opened) => opened is Ok,
        SourceEvent::Directory(found) => found is Ok && match step {
            SourceStep::IdentifyDirectory(AwaitingDirectory::Root { .. }) => expected_root == Some(
                found->Ok_0,
            ),
            _ => expected is Some && expected->0.directory == found->Ok_0,
        },
        SourceEvent::Regular(regular) => regular == Ok::<bool, IoError>(true),
        SourceEvent::File(found) => expected is Some && found == Ok::<FileIdentity, IoError>(
            expected->0.file,
        ),
    }
}

/// The walk goes along the names, of which it has passed so many.
spec fn goes_along(
    walk: Walk,
    names: Seq<Seq<char>>,
    expected: Option<UploadSourceIdentity>,
) -> bool {
    &&& local_path::component_views(walk.parts@) == names.map_values(
        |name: Seq<char>| ComponentView::Name(name),
    )
    &&& walk.parts@.len() == names.len()
    &&& walk.passed <= names.len()
    &&& walk.expected == expected
}

/// The step is one of the opening of the names, of which so many were opened.
spec fn on_the_way(
    expected_root: Option<DirectoryIdentity>,
    expected: Option<UploadSourceIdentity>,
    names: Seq<Seq<char>>,
    steps: Seq<SourceStep>,
) -> bool {
    let opened = opened_names(steps);
    match steps.last() {
        SourceStep::OpenRoot(awaiting, _) => {
            &&& awaiting matches AwaitingOpen::Root { walk, expected_root: kept, .. }
            &&& kept == expected_root
            &&& goes_along(walk, names, expected)
            &&& walk.passed == 0
            &&& opened.len() == 0
        },
        SourceStep::OpenDirectory(awaiting, _) => {
            &&& awaiting matches AwaitingOpen::Directory { walk }
            &&& goes_along(walk, names, expected)
            &&& walk.passed < names.len()
            &&& opened == names.take(walk.passed as int)
        },
        SourceStep::OpenFile(awaiting, _) => {
            &&& awaiting matches AwaitingOpen::File { walk }
            &&& goes_along(walk, names, expected)
            &&& opened == names
        },
        SourceStep::OpenPath(..) => false,
        SourceStep::IdentifyDirectory(awaiting) => match awaiting {
            AwaitingDirectory::Root { expected: wanted, walk, .. } => {
                &&& expected_root == Some(wanted)
                &&& goes_along(walk, names, expected)
                &&& walk.passed == 0
                &&& opened.len() == 0
            },
            AwaitingDirectory::Last { walk, name, expected: wanted } => {
                &&& expected == Some(wanted)
                &&& goes_along(walk, names, expected)
                &&& names.len() > 0
                &&& name@ == names.last()
                &&& opened == names.drop_last()
            },
            AwaitingDirectory::Parent { .. } => false,
        },
        SourceStep::IdentifyDirectoryAt(..) => false,
        SourceStep::CheckRegular(awaiting) => {
            &&& opened == names
            &&& match expected {
                Some(wanted) => awaiting.then_check == KindCheck::File(wanted),
                None => awaiting.then_check == KindCheck::Nothing,
            }
        },
        SourceStep::IdentifyFile(awaiting) => {
            &&& expected == Some(awaiting.expected)
            &&& opened == names
        },
        SourceStep::Done(done) => done is Ok ==> opened == names,
    }
}

spec fn goes_well(step: SourceStep) -> bool {
    step matches SourceStep::Done(done) ==> done is Ok
}

proof fn a_walk_goes_on(
    walk: Walk,
    expected_root: Option<DirectoryIdentity>,
    expected: Option<UploadSourceIdentity>,
    names: Seq<Seq<char>>,
    steps: Seq<SourceStep>,
    next: SourceStep,
)
    requires
        goes_along(walk, names, expected),
        walk.passed < names.len(),
        opened_names(steps) == names.take(walk.passed as int),
        walk.goes_on(next),
    ensures
        on_the_way(expected_root, expected, names, steps.push(next)),
        renaming_laws::without_nul(names) ==> goes_well(next),
{
    let more = steps.push(next);
    assert(more.drop_last() =~= steps);
    let at = walk.passed as int;
    let views = local_path::component_views(walk.parts@);
    assert(views[at] == walk.parts@[at]@);
    assert(views[at] == ComponentView::Name(names[at]));
    assert(walk.parts.len() == walk.parts@.len());
    assert(names.take(at + 1) =~= names.take(at).push(names[at]));
    if at + 1 == names.len() {
        assert(names.take(at) =~= names.drop_last());
        assert(names.take(at + 1) =~= names);
    }
}

proof fn a_step_leads_on(
    expected_root: Option<DirectoryIdentity>,
    expected: Option<UploadSourceIdentity>,
    names: Seq<Seq<char>>,
    steps: Seq<SourceStep>,
    event: SourceEvent,
    next: SourceStep,
)
    requires
        steps.len() > 0,
        names.len() > 0,
        on_the_way(expected_root, expected, names, steps),
        leads_to(steps.last(), event, next),
    ensures
        on_the_way(expected_root, expected, names, steps.push(next)),
        is_as_expected(expected_root, expected, steps.last(), event) && renaming_laws::without_nul(
            names,
        ) ==> goes_well(next),
{
    let more = steps.push(next);
    assert(more.drop_last() =~= steps);
    let opened = opened_names(steps);
    assert(opened.len() == 0 ==> opened =~= names.take(0));
    match steps.last() {
        SourceStep::OpenRoot(awaiting, _) => {
            if expected_root is None && event->Opened_0 is Ok {
                a_walk_goes_on(
                    awaiting->Root_walk,
                    expected_root,
                    expected,
                    names,
                    steps,
                    next,
                );
            }
        },
        SourceStep::OpenDirectory(awaiting, _) => {
            if event->Opened_0 is Ok {
                a_walk_goes_on(
                    awaiting->Directory_walk,
                    expected_root,
                    expected,
                    names,
                    steps,
                    next,
                );
            }
        },
        SourceStep::IdentifyDirectory(awaiting) => {
            match awaiting {
                AwaitingDirectory::Root { expected: wanted, walk, .. } => {
                    if event->Directory_0 == Ok::<DirectoryIdentity, IoError>(wanted) {
                        a_walk_goes_on(walk, expected_root, expected, names, steps, next);
                    }
                },
                AwaitingDirectory::Last { walk, name, .. } => {
                    assert(names.drop_last().push(names.last()) =~= names);
                    assert(names[names.len() - 1] == name@);
                },
                _ => {},
            }
        },
        _ => {},
    }
}

proof fn the_way_so_far(
    platform: Platform,
    root: Seq<char>,
    source: Seq<char>,
    expected_root: Option<DirectoryIdentity>,
    expected: Option<UploadSourceIdentity>,
    names: Seq<Seq<char>>,
    steps: Seq<SourceStep>,
    events: Seq<SourceEvent>,
    at: int,
)
    requires
        is_run(platform, root, source, expected_root, expected, steps, events),
        renaming_laws::leads(root, source, names),
        0 <= at < steps.len(),
    ensures
        on_the_way(expected_root, expected, names, steps.take(at + 1)),
        at > 0 && is_as_expected(expected_root, expected, steps[at - 1], events[at - 1])
            && renaming_laws::without_nul(names) ==> goes_well(steps[at]),
        at == 0 && !(platform is Unsupported) && !root.contains('\0') ==> goes_well(steps[0]),
    decreases at,
{
    if at == 0 {
        let first = steps.take(1);
        assert(first.drop_last() =~= Seq::empty());
        assert(first.last() == steps[0]);
        assert(opened_names(first.drop_last()).len() == 0);
        let parts = names.map_values(|name: Seq<char>| ComponentView::Name(name));
        let before = local_path::components(root);
        assert((before + parts).skip(before.len() as int) =~= parts);
        assert((before + parts).take(before.len() as int) =~= before);
        assert(local_path::below(root, source) == Some(parts));
        if let SourceStep::OpenRoot(AwaitingOpen::Root { walk, .. }, _) = steps[0] {
            assert(local_path::component_views(walk.parts@).len() == walk.parts@.len());
        }
    } else {
        the_way_so_far(
            platform,
            root,
            source,
            expected_root,
            expected,
            names,
            steps,
            events,
            at - 1,
        );
        let before = steps.take(at);
        assert(before.last() == steps[at - 1]);
        assert(leads_to(steps[at - 1], events[at - 1], steps[at - 1 + 1]));
        assert(steps.take(at + 1) =~= before.push(steps[at]));
        a_step_leads_on(expected_root, expected, names, before, events[at - 1], steps[at]);
    }
}

/// A source below the root that is accepted was opened by its names: each directory in
/// the one before it, the first in the root, and the file in the last.
pub proof fn an_accepted_source_was_opened_by_its_names(
    platform: Platform,
    root: Seq<char>,
    source: Seq<char>,
    expected_root: Option<DirectoryIdentity>,
    expected: Option<UploadSourceIdentity>,
    names: Seq<Seq<char>>,
    steps: Seq<SourceStep>,
    events: Seq<SourceEvent>,
)
    requires
        is_run(platform, root, source, expected_root, expected, steps, events),
        renaming_laws::leads(root, source, names),
        steps.last() matches SourceStep::Done(done) && done is Ok,
    ensures
        opened_names(steps) == names,
{
    the_way_so_far(
        platform,
        root,
        source,
        expected_root,
        expected,
        names,
        steps,
        events,
        steps.len() - 1,
    );
    assert(steps.take(steps.len() as int) =~= steps);
}

/// A source below the root is accepted wherever everything on the way to it opens, it is
/// a regular file, and the expected identities are found.
pub proof fn a_source_is_accepted_where_all_is_as_expected(
    platform: Platform,
    root: Seq<char>,
    source: Seq<char>,
    expected_root: Option<DirectoryIdentity>,
    expected: Option<UploadSourceIdentity>,
    names: Seq<Seq<char>>,
    steps: Seq<SourceStep>,
    events: Seq<SourceEvent>,
)
    requires
        is_run(platform, root, source, expected_root, expected, steps, events),
        renaming_laws::leads(root, source, names),
        renaming_laws::without_nul(names),
        !root.contains('\0'),
        !(platform is Unsupported),
        forall|i: int|
            0 <= i < events.len() ==> is_as_expected(
                expected_root,
                expected,
                #[trigger] steps[i],
                events[i],
            ),
        steps.last() is Done,
    ensures
        steps.last() matches SourceStep::Done(done) && done is Ok,
{
    let last = steps.len() - 1;
    the_way_so_far(
        platform,
        root,
        source,
        expected_root,
        expected,
        names,
        steps,
        events,
        last,
    );
    if last > 0 {
        assert(is_as_expected(expected_root, expected, steps[last - 1], events[last - 1]));
    }
}

/// A source outside the root is refused before anything is opened, and so is one whose
/// identity is to be checked where the platform has no identities.
pub proof fn a_source_outside_the_root_is_refused(
    platform: Platform,
    root: Seq<char>,
    source: Seq<char>,
    expected_root: Option<DirectoryIdentity>,
    expected: Option<UploadSourceIdentity>,
    step: SourceStep,
)
    requires
        upload_source::opens(platform, Some(root), source, expected_root, expected, step),
    ensures
        !local_path::components(root).is_prefix_of(local_path::components(source)) ==> (
        step matches SourceStep::Done(done) && done is Err),
        platform matches Platform::Unsupported(name) ==> expected_root is Some || expected is Some
            ==> step == SourceStep::Done(Err(AppError::UnsupportedPlatform(name))),
{
}

/// An accepted source was found to be a regular file, and where an identity was expected
/// it was found to have it.
pub proof fn an_accepted_source_was_checked(step: SourceStep, event: SourceEvent, next: SourceStep)
    requires
        leads_to(step, event, next),
        next matches SourceStep::Done(done) && done is Ok,
    ensures
        match step {
            SourceStep::CheckRegular(awaiting) => event == SourceEvent::Regular(Ok(true))
                && awaiting.then_check is Nothing,
            SourceStep::IdentifyFile(awaiting) => event == SourceEvent::File(
                Ok(awaiting.expected.file),
            ),
            _ => false,
        },
{
    match (step, event) {
        (SourceStep::OpenRoot(awaiting, _), SourceEvent::Opened(opened)) => {
            upload_source::opening_accepts_nothing(awaiting, opened, next);
        },
        (SourceStep::OpenDirectory(awaiting, _), SourceEvent::Opened(opened)) => {
            upload_source::opening_accepts_nothing(awaiting, opened, next);
        },
        (SourceStep::OpenFile(awaiting, _), SourceEvent::Opened(opened)) => {
            upload_source::opening_accepts_nothing(awaiting, opened, next);
        },
        (SourceStep::OpenPath(awaiting, _), SourceEvent::Opened(opened)) => {
            upload_source::opening_accepts_nothing(awaiting, opened, next);
        },
        (SourceStep::IdentifyDirectory(awaiting), SourceEvent::Directory(found)) => {
            upload_source::identifying_a_directory_accepts_nothing(awaiting, found, next);
        },
        (SourceStep::IdentifyDirectoryAt(awaiting, _), SourceEvent::Directory(found)) => {
            upload_source::identifying_a_directory_accepts_nothing(awaiting, found, next);
        },
        _ => {},
    }
}


/// A walk passes over the current directory, goes into a directory by its name, opens the
/// last name as the file, and goes nowhere else.
pub proof fn a_walk_goes_by_its_components(walk: Walk, step: SourceStep)
    requires
        walk.goes_on(step),
        walk.wf(),
    ensures
        walk.passed == walk.parts@.len() ==> (step matches SourceStep::Done(done) && done is Err),
        walk.passed < walk.parts@.len() ==> match walk.parts@[walk.passed as int] {
            Component::Current => walk.at(walk.passed + 1).goes_on(step),
            Component::Root => step matches SourceStep::Done(done) && done is Err,
            Component::Parent => step matches SourceStep::Done(done) && done is Err,
            Component::Name(name) => if walk.passed + 1 < walk.parts@.len() {
                if name@.contains('\0') {
                    step matches SourceStep::Done(done) && done is Err
                } else {
                    step matches SourceStep::OpenDirectory(_, opened) && opened == name
                }
            } else {
                match walk.expected {
                    Some(expected) => step matches SourceStep::IdentifyDirectory(
                        AwaitingDirectory::Last { name: last, expected: wanted, .. },
                    ) && last == name && wanted == expected,
                    None => if name@.contains('\0') {
                        step matches SourceStep::Done(done) && done is Err
                    } else {
                        step matches SourceStep::OpenFile(_, opened) && opened == name
                    },
                }
            },
        },
{
    assert(walk.parts.len() == walk.parts@.len());
}

/// A source without a root is opened by its path. It must be a regular file, and where
/// identities are expected, its directory and then the file itself must have them.
pub proof fn a_source_without_a_root_is_opened_by_its_path(
    platform: Platform,
    source: Seq<char>,
    expected: Option<UploadSourceIdentity>,
    steps: Seq<SourceStep>,
    events: Seq<SourceEvent>,
)
    requires
        !(platform is Unsupported),
        steps.len() == events.len() + 1,
        upload_source::opens(platform, None, source, None, expected, steps[0]),
        forall|i: int|
            0 <= i < events.len() ==> leads_to(#[trigger] steps[i], events[i], steps[i + 1]),
        steps.last() is Done,
        expected is Some ==> local_path::parent_text_of(source) is Some,
    ensures
        steps[0] matches SourceStep::OpenPath(_, path) && path@ == source,
        ({
            let accepted = steps.last() matches SourceStep::Done(done) && done is Ok;
            let opened = events[0] matches SourceEvent::Opened(opened) && opened is Ok;
            match expected {
                None => accepted <==> {
                    &&& events.len() == 2
                    &&& opened
                    &&& events[1] == SourceEvent::Regular(Ok(true))
                },
                Some(wanted) => accepted <==> {
                    &&& events.len() == 4
                    &&& opened
                    &&& events[1] == SourceEvent::Regular(Ok(true))
                    &&& events[2] == SourceEvent::Directory(Ok(wanted.directory))
                    &&& events[3] == SourceEvent::File(Ok(wanted.file))
                },
            }
        }),
{
    assert(events.len() > 0);
    assert(leads_to(steps[0], events[0], steps[1]));
    if events.len() > 1 {
        assert(leads_to(steps[1], events[1], steps[2]));
    }
    if events.len() > 2 {
        assert(leads_to(steps[2], events[2], steps[3]));
    }
    if events.len() > 3 {
        assert(leads_to(steps[3], events[3], steps[4]));
    }
    if events.len() > 4 {
        assert(leads_to(steps[4], events[4], steps[5]));
    }
}


/// The identity of the root was found.
pub open spec fn saw_root(
    steps: Seq<SourceStep>,
    events: Seq<SourceEvent>,
    at: int,
    identity: DirectoryIdentity,
) -> bool {
    exists|i: int|
        {
            &&& 0 <= i < at
            &&& #[trigger] steps[i] matches SourceStep::IdentifyDirectory(AwaitingDirectory::Root {
                ..
            })
            &&& events[i] == SourceEvent::Directory(Ok(identity))
        }
}

/// The identity of the directory that holds the file was found.
pub open spec fn saw_directory(
    steps: Seq<SourceStep>,
    events: Seq<SourceEvent>,
    at: int,
    identity: DirectoryIdentity,
) -> bool {
    exists|i: int|
        {
            &&& 0 <= i < at
            &&& #[trigger] steps[i] matches SourceStep::IdentifyDirectory(AwaitingDirectory::Last {
                ..
            })
            &&& events[i] == SourceEvent::Directory(Ok(identity))
        }
}

/// The file was found to be a regular one.
pub open spec fn saw_regular_file(
    steps: Seq<SourceStep>,
    events: Seq<SourceEvent>,
    at: int,
) -> bool {
    exists|i: int|
        {
            &&& 0 <= i < at
            &&& #[trigger] steps[i] is CheckRegular
            &&& events[i] == SourceEvent::Regular(Ok(true))
        }
}

/// The identity of the file was found.
pub open spec fn saw_file(
    steps: Seq<SourceStep>,
    events: Seq<SourceEvent>,
    at: int,
    identity: FileIdentity,
) -> bool {
    exists|i: int|
        {
            &&& 0 <= i < at
            &&& #[trigger] steps[i] is IdentifyFile
            &&& events[i] == SourceEvent::File(Ok(identity))
        }
}

spec fn is_accepted(step: SourceStep) -> bool {
    step matches SourceStep::Done(done) && done is Ok
}

spec fn is_past_directory(step: SourceStep) -> bool {
    step is OpenFile || step is CheckRegular || step is IdentifyFile || is_accepted(step)
}

spec fn is_past_root(step: SourceStep) -> bool {
    ||| step is OpenDirectory
    ||| step matches SourceStep::IdentifyDirectory(AwaitingDirectory::Last { .. })
    ||| is_past_directory(step)
}

/// A source below the root is accepted only after it was found to be a regular file, and
/// after each identity that was expected, of the root, of the directory that holds the
/// file and of the file itself, was found.
pub proof fn an_accepted_source_passed_every_check(
    platform: Platform,
    root: Seq<char>,
    source: Seq<char>,
    expected_root: Option<DirectoryIdentity>,
    expected: Option<UploadSourceIdentity>,
    names: Seq<Seq<char>>,
    steps: Seq<SourceStep>,
    events: Seq<SourceEvent>,
)
    requires
        is_run(platform, root, source, expected_root, expected, steps, events),
        renaming_laws::leads(root, source, names),
        steps.last() matches SourceStep::Done(done) && done is Ok,
    ensures
        saw_regular_file(steps, events, steps.len() - 1),
        expected_root matches Some(identity) ==> saw_root(
            steps,
            events,
            steps.len() - 1,
            identity,
        ),
        expected matches Some(identity) ==> {
            &&& saw_directory(steps, events, steps.len() - 1, identity.directory)
            &&& saw_file(steps, events, steps.len() - 1, identity.file)
        },
{
    checks_so_far(
        platform,
        root,
        source,
        expected_root,
        expected,
        names,
        steps,
        events,
        steps.len() - 1,
    );
}

proof fn a_check_is_passed(
    expected_root: Option<DirectoryIdentity>,
    expected: Option<UploadSourceIdentity>,
    names: Seq<Seq<char>>,
    steps: Seq<SourceStep>,
    event: SourceEvent,
    next: SourceStep,
)
    requires
        steps.len() > 0,
        names.len() > 0,
        on_the_way(expected_root, expected, names, steps),
        leads_to(steps.last(), event, next),
    ensures
        is_past_root(next) && !is_past_root(steps.last()) && expected_root is Some ==> {
            &&& steps.last() matches SourceStep::IdentifyDirectory(AwaitingDirectory::Root { .. })
            &&& event == SourceEvent::Directory(Ok(expected_root->0))
        },
        is_past_directory(next) && !is_past_directory(steps.last()) && expected is Some ==> {
            &&& steps.last() matches SourceStep::IdentifyDirectory(AwaitingDirectory::Last { .. })
            &&& event == SourceEvent::Directory(Ok(expected->0.directory))
        },
        (next is IdentifyFile || is_accepted(next)) && !(steps.last() is IdentifyFile) ==> {
            &&& steps.last() is CheckRegular
            &&& event == SourceEvent::Regular(Ok(true))
        },
        is_accepted(next) && expected is Some ==> {
            &&& steps.last() is IdentifyFile
            &&& event == SourceEvent::File(Ok(expected->0.file))
        },
{
    let opened = opened_names(steps);
    assert(opened.len() == 0 ==> opened =~= names.take(0));
    match steps.last() {
        SourceStep::OpenRoot(awaiting, _) => {
            if expected_root is None && event->Opened_0 is Ok {
                a_walk_goes_by_its_components(awaiting->Root_walk, next);
                a_walk_goes_on(awaiting->Root_walk, expected_root, expected, names, steps, next);
                names_are_names(awaiting->Root_walk, names, expected);
            }
        },
        SourceStep::OpenDirectory(awaiting, _) => {
            if event->Opened_0 is Ok {
                a_walk_goes_by_its_components(awaiting->Directory_walk, next);
                names_are_names(awaiting->Directory_walk, names, expected);
            }
        },
        SourceStep::IdentifyDirectory(awaiting) => {
            if let AwaitingDirectory::Root { expected: wanted, walk, .. } = awaiting {
                if event->Directory_0 == Ok::<DirectoryIdentity, IoError>(wanted) {
                    a_walk_goes_by_its_components(walk, next);
                    names_are_names(walk, names, expected);
                }
            }
        },
        _ => {},
    }
}

proof fn names_are_names(walk: Walk, names: Seq<Seq<char>>, expected: Option<UploadSourceIdentity>)
    requires
        goes_along(walk, names, expected),
        walk.passed < names.len(),
    ensures
        walk.parts@[walk.passed as int] is Name,
{
    let views = local_path::component_views(walk.parts@);
    assert(views[walk.passed as int] == walk.parts@[walk.passed as int]@);
}

proof fn checks_so_far(
    platform: Platform,
    root: Seq<char>,
    source: Seq<char>,
    expected_root: Option<DirectoryIdentity>,
    expected: Option<UploadSourceIdentity>,
    names: Seq<Seq<char>>,
    steps: Seq<SourceStep>,
    events: Seq<SourceEvent>,
    at: int,
)
    requires
        is_run(platform, root, source, expected_root, expected, steps, events),
        renaming_laws::leads(root, source, names),
        0 <= at < steps.len(),
    ensures
        is_past_root(steps[at]) && expected_root is Some ==> saw_root(
            steps,
            events,
            at,
            expected_root->0,
        ),
        is_past_directory(steps[at]) && expected is Some ==> saw_directory(
            steps,
            events,
            at,
            expected->0.directory,
        ),
        steps[at] is IdentifyFile || is_accepted(steps[at]) ==> saw_regular_file(
            steps,
            events,
            at,
        ),
        is_accepted(steps[at]) && expected is Some ==> saw_file(
            steps,
            events,
            at,
            expected->0.file,
        ),
    decreases at,
{
    if at > 0 {
        let last = at - 1;
        checks_so_far(
            platform,
            root,
            source,
            expected_root,
            expected,
            names,
            steps,
            events,
            last,
        );
        the_way_so_far(
            platform,
            root,
            source,
            expected_root,
            expected,
            names,
            steps,
            events,
            last,
        );
        let before = steps.take(at);
        assert(before.last() == steps[last]);
        assert(leads_to(steps[last], events[last], steps[last + 1]));
        a_check_is_passed(expected_root, expected, names, before, events[last], steps[at]);
        if expected_root is Some && saw_root(steps, events, last, expected_root->0) {
            let i = choose|i: int|
                {
                    &&& 0 <= i < last
                    &&& #[trigger] steps[i] matches SourceStep::IdentifyDirectory(
                        AwaitingDirectory::Root { .. },
                    )
                    &&& events[i] == SourceEvent::Directory(Ok(expected_root->0))
                };
            assert(steps[i] is IdentifyDirectory);
        }
        if expected is Some && saw_directory(steps, events, last, expected->0.directory) {
            let i = choose|i: int|
                {
                    &&& 0 <= i < last
                    &&& #[trigger] steps[i] matches SourceStep::IdentifyDirectory(
                        AwaitingDirectory::Last { .. },
                    )
                    &&& events[i] == SourceEvent::Directory(Ok(expected->0.directory))
                };
            assert(steps[i] is IdentifyDirectory);
        }
        if saw_regular_file(steps, events, last) {
            let i = choose|i: int|
                {
                    &&& 0 <= i < last
                    &&& #[trigger] steps[i] is CheckRegular
                    &&& events[i] == SourceEvent::Regular(Ok(true))
                };
            assert(steps[i] is CheckRegular);
        }
    }
}

} // verus!
