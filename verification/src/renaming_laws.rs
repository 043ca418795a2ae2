//! Which entry is renamed, and when a rename is made.
use vstd::prelude::*;

use crate::atomic_rename;
use crate::atomic_rename::AwaitingEntry;
use crate::atomic_rename::AwaitingRename;
use crate::atomic_rename::DirectoryStage;
use crate::atomic_rename::EntryStage;
use crate::atomic_rename::FileIdentity;
use crate::atomic_rename::FileStage;
use crate::atomic_rename::Location;
use crate::atomic_rename::Open;
use crate::atomic_rename::OpenStage;
use crate::atomic_rename::Platform;
use crate::atomic_rename::Rename;
use crate::atomic_rename::RenameStep;
use crate::atomic_rename::Side;
use crate::error::AppError;
use crate::error::IoError;
use crate::error::IoErrorKind;
use crate::local_path;
use crate::local_path::ComponentView;
use crate::rename_laws;
use crate::rename_laws::RenameEvent;
use crate::text;

verus! {

/// The path is the root and behind it the names, of which there are some.
pub open spec fn leads(root: Seq<char>, path: Seq<char>, names: Seq<Seq<char>>) -> bool {
    &&& names.len() > 0
    &&& local_path::components(path) == local_path::components(root) + names.map_values(
        |name: Seq<char>| ComponentView::Name(name),
    )
}

/// A path leads from the root through all its names but the last, to the last.
pub proof fn a_path_leads_to_its_last_name(
    root: Seq<char>,
    path: Seq<char>,
    names: Seq<Seq<char>>,
    located: Result<Location, Seq<char>>,
)
    requires
        leads(root, path, names),
        atomic_rename::locates(root, path, located),
    ensures
        located is Ok,
        located->Ok_0.parents@.map_values(|parent: String| parent@) == names.drop_last(),
        located->Ok_0.name@ == names.last(),
{
    let parts = names.map_values(|name: Seq<char>| ComponentView::Name(name));
    let before = local_path::components(root);
    assert((before + parts).skip(before.len() as int) =~= parts);
    assert((before + parts).take(before.len() as int) =~= before);
    assert(local_path::below(root, path) == Some(parts));
    names_of_names(names);
    assert(located->Ok_0.parents@.map_values(|parent: String| parent@) =~= text::views(
        located->Ok_0.parents@,
    ));
}

proof fn names_of_names(names: Seq<Seq<char>>)
    ensures
        atomic_rename::names(names.map_values(|name: Seq<char>| ComponentView::Name(name)))
            == names,
    decreases names.len(),
{
    let parts = names.map_values(|name: Seq<char>| ComponentView::Name(name));
    if names.len() == 0 {
        assert(atomic_rename::names(parts) =~= names);
    } else {
        names_of_names(names.drop_last());
        assert(parts.drop_last() =~= names.drop_last().map_values(
            |name: Seq<char>| ComponentView::Name(name),
        ));
        assert(names.drop_last().push(names.last()) =~= names);
    }
}

/// A path that is not below the root, or that goes through a parent directory, leads
/// nowhere.
pub proof fn a_path_must_stay_below_the_root(
    root: Seq<char>,
    path: Seq<char>,
    located: Result<Location, Seq<char>>,
)
    requires
        atomic_rename::locates(root, path, located),
    ensures
        !local_path::components(root).is_prefix_of(local_path::components(path)) ==> located is Err,
        (exists|i: int|
            local_path::components(root).len() <= i < local_path::components(path).len() && (
            #[trigger] local_path::components(path)[i] is Parent)) ==> located is Err,
        local_path::components(path) == local_path::components(root) ==> located is Err,
{
    let before = local_path::components(root);
    let whole = local_path::components(path);
    if before.is_prefix_of(whole) {
        let parts = whole.skip(before.len() as int);
        if exists|i: int| before.len() <= i < whole.len() && (#[trigger] whole[i] is Parent) {
            let i = choose|i: int| before.len() <= i < whole.len() && (#[trigger] whole[i] is Parent);
            assert(parts[i - before.len()] == whole[i]);
            assert(!atomic_rename::passable(parts));
        }
        if whole == before {
            assert(parts =~= Seq::empty());
        }
    }
}

/// The directories that were opened one below the other on the way to one of the
/// entries.
pub open spec fn opened_names(steps: Seq<RenameStep>, side: Side) -> Seq<Seq<char>>
    decreases steps.len(),
{
    if steps.len() == 0 {
        Seq::empty()
    } else {
        match steps.last() {
            RenameStep::Open(_, Open::ParentChild(at, name)) => if at == side {
                opened_names(steps.drop_last(), side).push(name@)
            } else {
                opened_names(steps.drop_last(), side)
            },
            _ => opened_names(steps.drop_last(), side),
        }
    }
}

/// What came of the step is what the rename hopes for: everything opens, the expected
/// identities are found, the source is there and nothing has the name of the target.
pub open spec fn is_as_expected(rename: Rename, step: RenameStep, event: RenameEvent) -> bool {
    match (step, event) {
        (RenameStep::Open(..), RenameEvent::Opened(opened)) => opened is Ok,
        (RenameStep::IdentifyRoot(_), RenameEvent::Directory(Ok(found))) => rename.identity.root
            == Some(found),
        (RenameStep::IdentifyParent(_, Side::Source), RenameEvent::Directory(Ok(found))) =>
            rename.identity.source_parent == Some(found),
        (RenameStep::IdentifyParent(_, Side::Target), RenameEvent::Directory(Ok(found))) =>
            rename.identity.target_parent == Some(found),
        (RenameStep::IdentifyFile(..), RenameEvent::File(Ok(found))) => rename.identity.file
            == Some(found),
        (RenameStep::IdentifyEntry(_, Side::Source, _), RenameEvent::Entry(found)) => found is Ok,
        (RenameStep::IdentifyEntry(_, Side::Target, _), RenameEvent::Entry(Err(error))) =>
            error.kind == IoErrorKind::NotFound,
        (RenameStep::Rename(..), RenameEvent::Renamed(made)) => made is Ok,
        _ => false,
    }
}

/// The location is that of the names.
spec fn is_at(location: Location, names: Seq<Seq<char>>) -> bool {
    &&& text::views(location.parents@) == names.drop_last()
    &&& location.name@ == names.last()
}

/// The step is one of a rename between the names, and so far the directories of the names
/// were opened, in order.
spec fn on_the_way(
    rename: Rename,
    from: Seq<Seq<char>>,
    to: Seq<Seq<char>>,
    steps: Seq<RenameStep>,
) -> bool {
    let source_opened = opened_names(steps, Side::Source);
    let target_opened = opened_names(steps, Side::Target);
    let step = steps.last();
    let both = source_opened == from.drop_last() && target_opened == to.drop_last();
    &&& rename_laws::belongs(rename, step)
    &&& match step {
        RenameStep::Done { .. } => true,
        RenameStep::Open(awaiting, open) => match awaiting.stage {
            OpenStage::Root => source_opened.len() == 0 && target_opened.len() == 0,
            OpenStage::Source { location, opened } => {
                &&& is_at(location, from)
                &&& opened <= location.parents@.len()
                &&& source_opened == from.drop_last().take(opened as int)
                &&& target_opened.len() == 0
            },
            OpenStage::Target { source, location, opened } => {
                &&& is_at(source, from)
                &&& is_at(location, to)
                &&& opened <= location.parents@.len()
                &&& source_opened == from.drop_last()
                &&& target_opened == to.drop_last().take(opened as int)
            },
        },
        RenameStep::IdentifyRoot(_) => source_opened.len() == 0 && target_opened.len() == 0,
        RenameStep::IdentifyParent(awaiting, side) => match awaiting.stage {
            DirectoryStage::Root { .. } => false,
            DirectoryStage::SourceParent { source, target, .. } => side == Side::Source && is_at(
                source,
                from,
            ) && is_at(target, to) && both,
            DirectoryStage::TargetParent { source, target, .. } => side == Side::Target && is_at(
                source,
                from,
            ) && is_at(target, to) && both,
        },
        RenameStep::IdentifyFile(awaiting, _, _) => match awaiting.stage {
            FileStage::Before { source, target, .. } => is_at(source, from) && is_at(target, to)
                && both,
            FileStage::After { target, .. } => is_at(target, to),
        },
        RenameStep::IdentifyEntry(awaiting, side, _) => match awaiting.stage {
            EntryStage::Source { source, target } => side == Side::Source && is_at(source, from)
                && is_at(target, to) && both,
            EntryStage::Target { source, target, .. } => side == Side::Target && is_at(source, from)
                && is_at(target, to) && both,
        },
        RenameStep::Rename(awaiting, source, target) => {
            &&& source@ == from.last()
            &&& target@ == to.last()
            &&& is_at(awaiting.target, to)
            &&& both
        },
    }
}

/// None of the names has the character that ends names in system calls.
pub open spec fn without_nul(names: Seq<Seq<char>>) -> bool {
    forall|i: int| 0 <= i < names.len() ==> !(#[trigger] names[i]).contains('\0')
}

/// The rename was not refused.
spec fn goes_well(step: RenameStep) -> bool {
    step is Done ==> step == (RenameStep::Done { renamed: true, result: Ok(()) })
}

proof fn located_at(root: Seq<char>, path: Seq<char>, names: Seq<Seq<char>>)
    requires
        leads(root, path, names),
    ensures
        forall|located: Result<Location, Seq<char>>| #[trigger]
            atomic_rename::locates(root, path, located) ==> (located matches Ok(location) && is_at(
                location,
                names,
            )),
{
    assert forall|located: Result<Location, Seq<char>>| #[trigger]
        atomic_rename::locates(root, path, located) implies (located matches Ok(location) && is_at(
        location,
        names,
    )) by {
        a_path_leads_to_its_last_name(root, path, names, located);
        assert(located->Ok_0.parents@.map_values(|parent: String| parent@) =~= text::views(
            located->Ok_0.parents@,
        ));
    }
}

proof fn an_opening_leads_on(
    rename: Rename,
    from: Seq<Seq<char>>,
    to: Seq<Seq<char>>,
    steps: Seq<RenameStep>,
    event: RenameEvent,
    next: RenameStep,
)
    requires
        steps.len() > 0,
        steps.last() is Open,
        leads(rename.root@, rename.source@, from),
        leads(rename.root@, rename.target@, to),
        on_the_way(rename, from, to, steps),
        rename_laws::leads_to(steps.last(), event, next),
    ensures
        on_the_way(rename, from, to, steps.push(next)),
        is_as_expected(rename, steps.last(), event) && without_nul(from) && without_nul(to)
            ==> goes_well(next),
{
    located_at(rename.root@, rename.source@, from);
    located_at(rename.root@, rename.target@, to);
    let more = steps.push(next);
    assert(more.drop_last() =~= steps);
    let source_opened = opened_names(steps, Side::Source);
    assert(source_opened.len() == 0 ==> source_opened =~= from.drop_last().take(0));
    let awaiting = steps.last()->Open_0;
    match awaiting.stage {
        OpenStage::Root => {},
        OpenStage::Source { location, opened } => {
            let parents = text::views(location.parents@);
            if opened < parents.len() {
                assert(location.parents.len() == location.parents@.len());
                assert(parents[opened as int] == location.parents@[opened as int]@);
                assert(from[opened as int] == from.drop_last()[opened as int]);
                assert(from.drop_last().take(opened + 1) =~= from.drop_last().take(
                    opened as int,
                ).push(parents[opened as int]));
                if next is Open {
                    assert(opened_names(more, Side::Source) =~= from.drop_last().take(opened + 1));
                }
            } else {
                assert(from.drop_last().take(opened as int) =~= from.drop_last());
                assert(opened_names(more, Side::Target) =~= to.drop_last().take(0));
            }
        },
        OpenStage::Target { source, location, opened } => {
            let parents = text::views(location.parents@);
            if opened < parents.len() {
                assert(location.parents.len() == location.parents@.len());
                assert(parents[opened as int] == location.parents@[opened as int]@);
                assert(to[opened as int] == to.drop_last()[opened as int]);
                assert(to.drop_last().take(opened + 1) =~= to.drop_last().take(opened as int).push(
                    parents[opened as int],
                ));
                if next is Open {
                    assert(opened_names(more, Side::Target) =~= to.drop_last().take(opened + 1));
                }
            } else {
                assert(to.drop_last().take(opened as int) =~= to.drop_last());
                assert(source.name@ == from[from.len() - 1]);
            }
        },
    }
}

proof fn a_check_leads_on(
    rename: Rename,
    from: Seq<Seq<char>>,
    to: Seq<Seq<char>>,
    steps: Seq<RenameStep>,
    event: RenameEvent,
    next: RenameStep,
)
    requires
        steps.len() > 0,
        !(steps.last() is Open),
        leads(rename.root@, rename.source@, from),
        leads(rename.root@, rename.target@, to),
        on_the_way(rename, from, to, steps),
        rename_laws::leads_to(steps.last(), event, next),
    ensures
        on_the_way(rename, from, to, steps.push(next)),
        is_as_expected(rename, steps.last(), event) && without_nul(from) && without_nul(to)
            ==> goes_well(next),
{
    located_at(rename.root@, rename.source@, from);
    located_at(rename.root@, rename.target@, to);
    let more = steps.push(next);
    assert(more.drop_last() =~= steps);
    let source_opened = opened_names(steps, Side::Source);
    assert(source_opened.len() == 0 ==> source_opened =~= from.drop_last().take(0));
    assert(from.last() == from[from.len() - 1]);
    assert(to.last() == to[to.len() - 1]);
    assert(from.drop_last().take(0) =~= Seq::empty());
}

proof fn the_way_so_far(
    rename: Rename,
    from: Seq<Seq<char>>,
    to: Seq<Seq<char>>,
    steps: Seq<RenameStep>,
    events: Seq<RenameEvent>,
    at: int,
)
    requires
        rename_laws::is_run(rename, steps, events),
        leads(rename.root@, rename.source@, from),
        leads(rename.root@, rename.target@, to),
        0 <= at < steps.len(),
    ensures
        on_the_way(rename, from, to, steps.take(at + 1)),
        at > 0 && is_as_expected(rename, steps[at - 1], events[at - 1]) && without_nul(from)
            && without_nul(to) ==> goes_well(steps[at]),
    decreases at,
{
    if at == 0 {
        let first = steps.take(1);
        assert(first.drop_last() =~= Seq::empty());
        assert(first.last() == steps[0]);
        assert(opened_names(first.drop_last(), Side::Source).len() == 0);
        assert(opened_names(first.drop_last(), Side::Target).len() == 0);
    } else {
        the_way_so_far(rename, from, to, steps, events, at - 1);
        let before = steps.take(at);
        assert(before.last() == steps[at - 1]);
        assert(rename_laws::leads_to(steps[at - 1], events[at - 1], steps[at - 1 + 1]));
        assert(steps.take(at + 1) =~= before.push(steps[at]));
        if steps[at - 1] is Open {
            an_opening_leads_on(rename, from, to, before, events[at - 1], steps[at]);
        } else {
            a_check_leads_on(rename, from, to, before, events[at - 1], steps[at]);
        }
    }
}

/// What is renamed is the last name of the source, to the last name of the target, and
/// the directories that were opened on the way to each are the names before it, in
/// order.
pub proof fn the_named_entry_is_renamed(
    rename: Rename,
    from: Seq<Seq<char>>,
    to: Seq<Seq<char>>,
    steps: Seq<RenameStep>,
    events: Seq<RenameEvent>,
    at: int,
)
    requires
        rename_laws::is_run(rename, steps, events),
        leads(rename.root@, rename.source@, from),
        leads(rename.root@, rename.target@, to),
        0 <= at < steps.len(),
        steps[at] is Rename,
    ensures
        (steps[at]->Rename_1)@ == from.last(),
        (steps[at]->Rename_2)@ == to.last(),
        opened_names(steps.take(at), Side::Source) == from.drop_last(),
        opened_names(steps.take(at), Side::Target) == to.drop_last(),
{
    the_way_so_far(rename, from, to, steps, events, at);
    assert(steps.take(at + 1).last() == steps[at]);
    assert(steps.take(at + 1).drop_last() =~= steps.take(at));
}

/// A rename between different paths below the root succeeds, and says that the entry was
/// renamed, wherever everything on the way is as expected.
pub proof fn a_rename_succeeds_where_all_is_as_expected(
    rename: Rename,
    from: Seq<Seq<char>>,
    to: Seq<Seq<char>>,
    steps: Seq<RenameStep>,
    events: Seq<RenameEvent>,
)
    requires
        rename_laws::is_run(rename, steps, events),
        leads(rename.root@, rename.source@, from),
        leads(rename.root@, rename.target@, to),
        without_nul(from),
        without_nul(to),
        !rename.root@.contains('\0'),
        !(rename.platform is Unsupported),
        from != to,
        forall|i: int|
            0 <= i < events.len() ==> is_as_expected(rename, #[trigger] steps[i], events[i]),
        steps.last() is Done,
    ensures
        steps.last() == (RenameStep::Done { renamed: true, result: Ok(()) }),
{
    let last = steps.len() - 1;
    different_names_are_different_paths(rename.root@, rename.source@, rename.target@, from, to);
    assert(last > 0);
    the_way_so_far(rename, from, to, steps, events, last);
    assert(is_as_expected(rename, steps[last - 1], events[last - 1]));
}

proof fn different_names_are_different_paths(
    root: Seq<char>,
    source: Seq<char>,
    target: Seq<char>,
    from: Seq<Seq<char>>,
    to: Seq<Seq<char>>,
)
    requires
        leads(root, source, from),
        leads(root, target, to),
        from != to,
    ensures
        !local_path::same(source, target),
{
    if local_path::same(source, target) {
        let before = local_path::components(root);
        let left = from.map_values(|name: Seq<char>| ComponentView::Name(name));
        let right = to.map_values(|name: Seq<char>| ComponentView::Name(name));
        assert((before + left).skip(before.len() as int) =~= left);
        assert((before + right).skip(before.len() as int) =~= right);
        assert forall|i: int| 0 <= i < from.len() implies from[i] == to[i] by {
            assert(left[i] == right[i]);
        }
        assert(from =~= to);
    }
}

/// A rename begins by opening its root. It is over at once where both paths are the same,
/// where the platform cannot rename without replacing, and where the root cannot be
/// handed to the system.
pub proof fn a_rename_begins_at_its_root(rename: Rename, step: RenameStep)
    requires
        rename.starts(step),
    ensures
        local_path::components(rename.source@) == local_path::components(rename.target@) ==> step
            == (RenameStep::Done { renamed: false, result: Ok(()) }),
        local_path::components(rename.source@) != local_path::components(rename.target@)
            ==> match rename.platform {
            Platform::Unsupported(platform) => step == (RenameStep::Done {
                renamed: false,
                result: Err(AppError::UnsupportedPlatform(platform)),
            }),
            _ => if rename.root@.contains('\0') {
                step matches RenameStep::Done { renamed: false, result: Err(AppError::Message(_)) }
            } else {
                step matches RenameStep::Open(awaiting, Open::Root) && awaiting.rename == rename
            },
        },
{
}

/// Two names are one entry where both lookups found the same one. On Linux the entry must
/// have no other name, and a name that nothing has is no other name of anything.
pub proof fn one_entry_under_two_names_is_left_alone(
    awaiting: AwaitingEntry,
    event: RenameEvent,
    step: RenameStep,
)
    requires
        awaiting.stage is Target,
        event matches RenameEvent::Entry(found) && awaiting.continues(found, step),
    ensures
        ({
            let found = event->Entry_0;
            let entry = awaiting.stage->Target_entry;
            let same = {
                &&& entry is Some
                &&& found is Ok
                &&& entry->0.identity == found->Ok_0.identity
                &&& awaiting.rename.platform is Linux ==> entry->0.links == 1 && found->Ok_0.links
                    == 1
            };
            &&& same <==> step == (RenameStep::Done { renamed: false, result: Ok(()) })
            &&& found matches Err(error) ==> error.kind != IoErrorKind::NotFound ==> step == (
            RenameStep::Done { renamed: false, result: Err(AppError::Io(error)) })
        }),
{
}

/// A rename that was made is over, unless a file was expected: then what has the new name
/// now is identified, and only the expected file is a success.
pub proof fn a_made_rename_is_checked(
    awaiting: AwaitingRename,
    made: RenameEvent,
    checked: RenameStep,
    found: RenameEvent,
    step: RenameStep,
)
    requires
        made matches RenameEvent::Renamed(result) && awaiting.continues(result, checked),
        checked matches RenameStep::IdentifyFile(file, _, _) ==> (found matches RenameEvent::File(
            result,
        ) && file.continues(result, step)),
    ensures
        (made->Renamed_0) matches Err(error) ==> checked == (RenameStep::Done {
            renamed: false,
            result: Err(AppError::Io(error)),
        }),
        (made->Renamed_0) is Ok ==> match awaiting.rename.identity.file {
            None => checked == (RenameStep::Done { renamed: true, result: Ok(()) }),
            Some(expected) => {
                &&& checked is IdentifyFile
                &&& checked->IdentifyFile_1 == Side::Target
                &&& checked->IdentifyFile_2 == awaiting.target.name
                &&& step matches RenameStep::Done { renamed: true, result } && (result is Ok <==> (
                found->File_0) == Ok::<FileIdentity, IoError>(
                    expected,
                ))
            },
        },
{
}


/// The component is a name.
pub open spec fn is_named(part: ComponentView) -> bool {
    part is Name
}

/// A path leads somewhere exactly where it is below the root, goes there through names
/// and the current directory alone, and has a name on the way. It leads through its
/// names, wherever the current directory stands between them.
pub proof fn the_current_directory_leads_nowhere_else(
    root: Seq<char>,
    path: Seq<char>,
    located: Result<Location, Seq<char>>,
)
    requires
        atomic_rename::locates(root, path, located),
    ensures
        ({
            let before = local_path::components(root);
            let whole = local_path::components(path);
            let way = whole.skip(before.len() as int);
            &&& located is Ok <==> {
                &&& before.is_prefix_of(whole)
                &&& forall|i: int|
                    0 <= i < way.len() ==> (#[trigger] way[i]) is Name || way[i] is Current
                &&& way.filter(|part: ComponentView| is_named(part)).len() > 0
            }
            &&& located matches Ok(location) ==> location.parents@.map_values(
                |parent: String| parent@,
            ).push(location.name@) == way.filter(
                |part: ComponentView| is_named(part),
            ).map_values(|part: ComponentView| part->Name_0)
        }),
{
    let before = local_path::components(root);
    let whole = local_path::components(path);
    if before.is_prefix_of(whole) {
        let way = whole.skip(before.len() as int);
        names_by_filter(way);
        if let Ok(location) = located {
            let names = atomic_rename::names(way);
            assert(location.parents@.map_values(|parent: String| parent@) =~= text::views(
                location.parents@,
            ));
            assert(names.drop_last().push(names.last()) =~= names);
        }
    }
}

proof fn names_by_filter(parts: Seq<ComponentView>)
    ensures
        atomic_rename::names(parts) == parts.filter(
            |part: ComponentView| is_named(part),
        ).map_values(|part: ComponentView| part->Name_0),
    decreases parts.len(),
{
    reveal(Seq::filter);
    let keep = |part: ComponentView| is_named(part);
    let taken = |part: ComponentView| part->Name_0;
    if parts.len() == 0 {
        assert(parts.filter(keep).map_values(taken) =~= Seq::empty());
    } else {
        let shorter = parts.drop_last();
        names_by_filter(shorter);
        let last = parts.last();
        if is_named(last) {
            assert(parts.filter(keep) == shorter.filter(keep).push(last));
            assert(parts.filter(keep).map_values(taken) =~= shorter.filter(keep).map_values(
                taken,
            ).push(last->Name_0));
        } else {
            assert(parts.filter(keep) == shorter.filter(keep));
        }
    }
}

/// A source that is not there does not keep the target from being looked up, and any other
/// failed lookup ends the rename.
pub proof fn a_missing_source_entry_is_no_failure(
    awaiting: AwaitingEntry,
    event: RenameEvent,
    step: RenameStep,
)
    requires
        awaiting.stage is Source,
        event matches RenameEvent::Entry(found) && awaiting.continues(found, step),
    ensures
        ({
            let found = event->Entry_0;
            let target = awaiting.stage->Source_target;
            let is_known = found is Ok || found->Err_0.kind == IoErrorKind::NotFound;
            &&& is_known && !target.name@.contains('\0') ==> {
                &&& step matches RenameStep::IdentifyEntry(next, side, name)
                &&& side == Side::Target
                &&& name == target.name
                &&& next.rename == awaiting.rename
                &&& next.stage matches EntryStage::Target { entry, source, target: kept }
                &&& kept == target
                &&& source == awaiting.stage->Source_source
                &&& match found {
                    Ok(identity) => entry == Some(identity),
                    Err(_) => entry is None,
                }
            }
            &&& !is_known ==> step == (RenameStep::Done {
                renamed: false,
                result: Err(AppError::Io(found->Err_0)),
            })
        }),
{
}

} // verus!
