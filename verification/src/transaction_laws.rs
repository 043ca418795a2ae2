//! What a transaction leaves behind. With all its changes carried out, the objects
//! stand under their new names; with every change undone, they stand under the
//! names that they had before.
use vstd::prelude::*;

use crate::object_path::ObjectPathView;
use crate::transaction;
use crate::transaction::ChangeView;

verus! {

/// One change to the objects that stand under names.
pub enum NameChange<T> {
    /// The object under the first name is moved to the second.
    Move(ObjectPathView, ObjectPathView),
    /// A new object is written under a name.
    Write(ObjectPathView, T),
    /// The object under a name is removed.
    Remove(ObjectPathView),
}

/// The objects after one change.
pub open spec fn changed<T>(
    objects: Map<ObjectPathView, T>,
    change: NameChange<T>,
) -> Map<ObjectPathView, T> {
    match change {
        NameChange::Move(from, to) => objects.remove(from).insert(to, objects[from]),
        NameChange::Write(to, content) => objects.insert(to, content),
        NameChange::Remove(from) => objects.remove(from),
    }
}

/// The objects after the changes, in order.
pub open spec fn after<T>(
    objects: Map<ObjectPathView, T>,
    changes: Seq<NameChange<T>>,
) -> Map<ObjectPathView, T>
    decreases changes.len(),
{
    if changes.len() == 0 {
        objects
    } else {
        changed(after(objects, changes.drop_last()), changes.last())
    }
}

/// The staging of moves: each object is moved away from its name.
pub open spec fn staging_moves<T>(staged: Seq<ChangeView>) -> Seq<NameChange<T>> {
    Seq::new(
        staged.len(),
        |i: int| NameChange::Move(staged[i].source, staged[i].target),
    )
}

/// The finalizing of moves: each staged object is moved on to its new name.
pub open spec fn finalizing_moves<T>(
    staged: Seq<ChangeView>,
    finalized: Seq<ChangeView>,
) -> Seq<NameChange<T>> {
    Seq::new(
        finalized.len(),
        |i: int| NameChange::Move(staged[i].target, finalized[i].target),
    )
}

/// The moving back of changes, each from its target to its source.
pub open spec fn moves_back<T>(changes: Seq<ChangeView>) -> Seq<NameChange<T>> {
    Seq::new(
        changes.len(),
        |i: int| NameChange::Move(changes[i].target, changes[i].source),
    )
}

/// The names of a transaction of moves do not get into one another's way: the
/// sources are different objects, and the staging names and the new names are
/// all different and free.
pub open spec fn moves_apart<T>(
    objects: Map<ObjectPathView, T>,
    staged: Seq<ChangeView>,
    finalized: Seq<ChangeView>,
) -> bool {
    &&& finalized.len() <= staged.len()
    &&& forall|i: int|
        0 <= i < finalized.len() ==> (#[trigger] finalized[i]).source == staged[i].source
    &&& forall|i: int|
        0 <= i < staged.len() ==> objects.contains_key((#[trigger] staged[i]).source)
            && !objects.contains_key(staged[i].target)
    &&& forall|i: int|
        0 <= i < finalized.len() ==> !objects.contains_key((#[trigger] finalized[i]).target)
    &&& forall|i: int, j: int|
        0 <= i < j < staged.len() ==> (#[trigger] staged[i]).source != (
        #[trigger] staged[j]).source && staged[i].target != staged[j].target
    &&& forall|i: int, j: int|
        0 <= i < j < finalized.len() ==> (#[trigger] finalized[i]).target != (
        #[trigger] finalized[j]).target
    &&& forall|i: int, j: int|
        0 <= i < staged.len() && 0 <= j < finalized.len() ==> (#[trigger] staged[i]).target != (
        #[trigger] finalized[j]).target
}

/// However far the moves of a transaction got, moving back what was finalized and
/// after that what was only staged, in the order of the undoing, puts every
/// object under the name that it had, and touches no other object.
pub proof fn undoing_moves_restores_every_name<T>(
    objects: Map<ObjectPathView, T>,
    staged: Seq<ChangeView>,
    finalized: Seq<ChangeView>,
)
    requires
        moves_apart(objects, staged, finalized),
    ensures
        after(
            objects,
            staging_moves(staged) + finalizing_moves(staged, finalized) + moves_back(
                finalized.reverse() + transaction::unfinalized(staged, finalized),
            ),
        ) == objects,
{
    let n = staged.len() as int;
    let m = finalized.len() as int;
    let start = moving(staged, finalized, 0, 0, 0, n);
    let rest = untouched(objects, start);
    let contents = Seq::new(staged.len(), |i: int| objects[staged[i].source]);
    sources_are_placed(objects, staged, finalized);
    stage_moves(objects, rest, contents, staged, finalized, n);
    finalize_moves(objects, rest, contents, staged, finalized, m);
    let back = finalized.reverse() + transaction::unfinalized(staged, finalized);
    transaction::every_change_is_undone_once(staged, finalized);
    move_back(objects, rest, contents, staged, finalized, n);
    assert(back =~= finalized.reverse() + staged.skip(m).reverse());
    assert(moving(staged, finalized, n, m, 0, m) =~= start);
    let first: Seq<NameChange<T>> = staging_moves(staged);
    let second: Seq<NameChange<T>> = finalizing_moves(staged, finalized);
    let third: Seq<NameChange<T>> = moves_back(back);
    assert(first.take(n) =~= first);
    assert(second.take(m) =~= second);
    assert(third.take(n) =~= third);
    after_both(objects, first, second);
    after_both(objects, first + second, third);
}

/// Where all the moves of a transaction are carried out, each object stands under
/// its new name, its old name and its staging name are free, and no other object
/// is touched.
pub proof fn finished_moves_rename_every_object<T>(
    objects: Map<ObjectPathView, T>,
    staged: Seq<ChangeView>,
    finalized: Seq<ChangeView>,
)
    requires
        moves_apart(objects, staged, finalized),
        finalized.len() == staged.len(),
    ensures
        ({
            let renamed = after(objects, staging_moves(staged) + finalizing_moves(staged, finalized));
            &&& forall|i: int|
                0 <= i < staged.len() ==> {
                    &&& renamed.contains_key((#[trigger] finalized[i]).target)
                    &&& renamed[finalized[i].target] == objects[staged[i].source]
                    &&& !renamed.contains_key(staged[i].source)
                    &&& !renamed.contains_key(staged[i].target)
                }
            &&& forall|name: ObjectPathView|
                (forall|i: int|
                    0 <= i < staged.len() ==> (#[trigger] finalized[i]).target != name
                        && staged[i].source != name) ==> {
                    &&& #[trigger] renamed.contains_key(name) == objects.contains_key(name)
                    &&& objects.contains_key(name) ==> renamed[name] == objects[name]
                }
        }),
{
    let n = staged.len() as int;
    let start = moving(staged, finalized, 0, 0, 0, n);
    let rest = untouched(objects, start);
    let contents = Seq::new(staged.len(), |i: int| objects[staged[i].source]);
    sources_are_placed(objects, staged, finalized);
    stage_moves(objects, rest, contents, staged, finalized, n);
    finalize_moves(objects, rest, contents, staged, finalized, n);
    moving_is_tidy(objects, rest, staged, finalized, n, n, n, n);
    let first: Seq<NameChange<T>> = staging_moves(staged);
    let second: Seq<NameChange<T>> = finalizing_moves(staged, finalized);
    assert(first.take(n) =~= first);
    assert(second.take(n) =~= second);
    after_both(objects, first, second);
    let places = moving(staged, finalized, n, n, n, n);
    let renamed = placed(rest, places, contents);
    assert forall|i: int| 0 <= i < n implies {
        &&& renamed.contains_key((#[trigger] finalized[i]).target)
        &&& renamed[finalized[i].target] == objects[staged[i].source]
        &&& !renamed.contains_key(staged[i].source)
        &&& !renamed.contains_key(staged[i].target)
    } by {
        assert(places[i] == Some(finalized[i].target));
        index_is(rest, places, i);
        assert(!stands_at(places, staged[i].source)) by {
            if stands_at(places, staged[i].source) {
                let j = index_of(places, staged[i].source);
                assert(!objects.contains_key(finalized[j].target));
            }
        }
        assert(!stands_at(places, staged[i].target)) by {
            if stands_at(places, staged[i].target) {
                let j = index_of(places, staged[i].target);
                assert(staged[i].target != finalized[j].target);
            }
        }
    }
    assert forall|name: ObjectPathView|
        (forall|i: int|
            0 <= i < n ==> (#[trigger] finalized[i]).target != name && staged[i].source
                != name) implies {
        &&& #[trigger] renamed.contains_key(name) == objects.contains_key(name)
        &&& objects.contains_key(name) ==> renamed[name] == objects[name]
    } by {
        assert(!stands_at(places, name)) by {
            if stands_at(places, name) {
                let j = index_of(places, name);
                assert(finalized[j].target == name);
            }
        }
        assert(!stands_at(start, name)) by {
            if stands_at(start, name) {
                let j = index_of(start, name);
                assert(finalized[j].target != name);
            }
        }
    }
}

/// The uploads of a transaction: each is written under its staging name.
pub open spec fn staging_writes<T>(staged: Seq<ChangeView>, contents: Seq<T>) -> Seq<
    NameChange<T>,
> {
    Seq::new(staged.len(), |i: int| NameChange::Write(staged[i].source, contents[i]))
}

/// The finalizing of uploads: each is moved from its staging name to its own.
pub open spec fn publishing_moves<T>(finalized: Seq<ChangeView>) -> Seq<NameChange<T>> {
    Seq::new(
        finalized.len(),
        |i: int| NameChange::Move(finalized[i].source, finalized[i].target),
    )
}

/// The removal of finalized uploads: each is moved back to its staging name and
/// removed there.
pub open spec fn withdrawals<T>(changes: Seq<ChangeView>) -> Seq<NameChange<T>>
    decreases changes.len(),
{
    if changes.len() == 0 {
        Seq::empty()
    } else {
        let change = changes.last();
        withdrawals(changes.drop_last()).push(
            NameChange::Move(change.target, change.source),
        ).push(NameChange::Remove(change.source))
    }
}

/// The removal of staged uploads.
pub open spec fn removals<T>(changes: Seq<ChangeView>) -> Seq<NameChange<T>> {
    Seq::new(changes.len(), |i: int| NameChange::Remove(changes[i].source))
}

/// The names of a transaction of uploads do not get into one another's way: the
/// staging names and the names of the uploads are all different and free.
pub open spec fn uploads_apart<T>(
    objects: Map<ObjectPathView, T>,
    staged: Seq<ChangeView>,
    finalized: Seq<ChangeView>,
) -> bool {
    &&& finalized.len() <= staged.len()
    &&& forall|i: int|
        0 <= i < finalized.len() ==> (#[trigger] finalized[i]).source == staged[i].source
            && !objects.contains_key(finalized[i].target)
    &&& forall|i: int|
        0 <= i < staged.len() ==> !objects.contains_key((#[trigger] staged[i]).source)
    &&& forall|i: int, j: int|
        0 <= i < j < staged.len() ==> (#[trigger] staged[i]).source != (
        #[trigger] staged[j]).source
    &&& forall|i: int, j: int|
        0 <= i < j < finalized.len() ==> (#[trigger] finalized[i]).target != (
        #[trigger] finalized[j]).target
    &&& forall|i: int, j: int|
        0 <= i < staged.len() && 0 <= j < finalized.len() ==> (#[trigger] staged[i]).source != (
        #[trigger] finalized[j]).target
}

/// However far the uploads of a transaction got, withdrawing what was finalized
/// and after that removing what was only staged, in the order of the undoing,
/// leaves the objects that stood there before, and nothing else.
pub proof fn undoing_uploads_leaves_nothing<T>(
    objects: Map<ObjectPathView, T>,
    staged: Seq<ChangeView>,
    finalized: Seq<ChangeView>,
    contents: Seq<T>,
)
    requires
        uploads_apart(objects, staged, finalized),
        contents.len() == staged.len(),
    ensures
        after(
            objects,
            staging_writes(staged, contents) + publishing_moves(finalized) + withdrawals(
                finalized.reverse(),
            ) + removals(transaction::unfinalized(staged, finalized)),
        ) == objects,
{
    let n = staged.len() as int;
    let m = finalized.len() as int;
    let nowhere = uploading(staged, finalized, 0, 0, 0);
    assert(placed(objects, nowhere, contents) =~= objects);
    stage_uploads(objects, contents, staged, finalized, n);
    publish_uploads(objects, contents, staged, finalized, m);
    withdraw_uploads(objects, contents, staged, finalized, m);
    remove_uploads(objects, contents, staged, finalized, n - m);
    transaction::every_change_is_undone_once(staged, finalized);
    let first: Seq<NameChange<T>> = staging_writes(staged, contents);
    let second: Seq<NameChange<T>> = publishing_moves(finalized);
    let third: Seq<NameChange<T>> = withdrawals(finalized.reverse());
    let fourth: Seq<NameChange<T>> = removals(staged.skip(m).reverse());
    assert(first.take(n) =~= first);
    assert(second.take(m) =~= second);
    assert(finalized.reverse().take(m) =~= finalized.reverse());
    assert(fourth.take(n - m) =~= fourth);
    after_both(objects, first, second);
    after_both(objects, first + second, third);
    after_both(objects, first + second + third, fourth);
    assert(uploading(staged, finalized, 0, m, m) =~= nowhere);
}

/// Where all the uploads of a transaction are carried out, each stands under its
/// own name, its staging name is free, and no other object is touched.
pub proof fn finished_uploads_stand_under_their_names<T>(
    objects: Map<ObjectPathView, T>,
    staged: Seq<ChangeView>,
    finalized: Seq<ChangeView>,
    contents: Seq<T>,
)
    requires
        uploads_apart(objects, staged, finalized),
        contents.len() == staged.len(),
        finalized.len() == staged.len(),
    ensures
        ({
            let uploaded = after(
                objects,
                staging_writes(staged, contents) + publishing_moves(finalized),
            );
            &&& forall|i: int|
                0 <= i < staged.len() ==> {
                    &&& uploaded.contains_key((#[trigger] finalized[i]).target)
                    &&& uploaded[finalized[i].target] == contents[i]
                    &&& !uploaded.contains_key(staged[i].source)
                }
            &&& forall|name: ObjectPathView|
                (forall|i: int| 0 <= i < staged.len() ==> (#[trigger] finalized[i]).target != name)
                    ==> {
                    &&& #[trigger] uploaded.contains_key(name) == objects.contains_key(name)
                    &&& objects.contains_key(name) ==> uploaded[name] == objects[name]
                }
        }),
{
    let n = staged.len() as int;
    assert(placed(objects, uploading(staged, finalized, 0, 0, 0), contents) =~= objects);
    stage_uploads(objects, contents, staged, finalized, n);
    publish_uploads(objects, contents, staged, finalized, n);
    uploading_is_tidy(objects, staged, finalized, n, n, n);
    let first: Seq<NameChange<T>> = staging_writes(staged, contents);
    let second: Seq<NameChange<T>> = publishing_moves(finalized);
    assert(first.take(n) =~= first);
    assert(second.take(n) =~= second);
    after_both(objects, first, second);
    let places = uploading(staged, finalized, n, n, n);
    let uploaded = placed(objects, places, contents);
    assert forall|i: int| 0 <= i < n implies {
        &&& uploaded.contains_key((#[trigger] finalized[i]).target)
        &&& uploaded[finalized[i].target] == contents[i]
        &&& !uploaded.contains_key(staged[i].source)
    } by {
        assert(places[i] == Some(finalized[i].target));
        index_is(objects, places, i);
        staging_name_is_free(objects, staged, finalized, n, n, n, i);
    }
    assert forall|name: ObjectPathView|
        (forall|i: int| 0 <= i < n ==> (#[trigger] finalized[i]).target != name) implies {
        &&& #[trigger] uploaded.contains_key(name) == objects.contains_key(name)
        &&& objects.contains_key(name) ==> uploaded[name] == objects[name]
    } by {
        assert(!stands_at(places, name)) by {
            if stands_at(places, name) {
                let j = index_of(places, name);
                assert(finalized[j].target == name);
            }
        }
    }
}

/// Whether one of the places is the name.
spec fn stands_at(places: Seq<Option<ObjectPathView>>, name: ObjectPathView) -> bool {
    exists|i: int| 0 <= i < places.len() && #[trigger] places[i] == Some(name)
}

spec fn index_of(places: Seq<Option<ObjectPathView>>, name: ObjectPathView) -> int {
    choose|i: int| 0 <= i < places.len() && #[trigger] places[i] == Some(name)
}

/// The objects where the contents stand at the places, beside the rest.
spec fn placed<T>(
    rest: Map<ObjectPathView, T>,
    places: Seq<Option<ObjectPathView>>,
    contents: Seq<T>,
) -> Map<ObjectPathView, T> {
    Map::new(
        |name: ObjectPathView| rest.contains_key(name) || stands_at(places, name),
        |name: ObjectPathView|
            if stands_at(places, name) {
                contents[index_of(places, name)]
            } else {
                rest[name]
            },
    )
}

/// The places are different and free of the rest.
spec fn tidy<T>(rest: Map<ObjectPathView, T>, places: Seq<Option<ObjectPathView>>) -> bool {
    &&& forall|i: int|
        0 <= i < places.len() && (#[trigger] places[i]) is Some ==> !rest.contains_key(places[i]->0)
    &&& forall|i: int, j: int|
        0 <= i < j < places.len() && (#[trigger] places[i]) is Some ==> places[i] != (
        #[trigger] places[j])
}

proof fn move_one<T>(
    rest: Map<ObjectPathView, T>,
    places: Seq<Option<ObjectPathView>>,
    contents: Seq<T>,
    at: int,
    to: ObjectPathView,
)
    requires
        tidy(rest, places),
        0 <= at < places.len(),
        places[at] is Some,
        !rest.contains_key(to),
        !stands_at(places, to),
    ensures
        changed(placed(rest, places, contents), NameChange::Move(places[at]->0, to)) == placed(
            rest,
            places.update(at, Some(to)),
            contents,
        ),
        tidy(rest, places.update(at, Some(to))),
{
    remove_one(rest, places, contents, at);
    write_one(rest, places.update(at, None), contents, at, to);
    assert(places.update(at, None).update(at, Some(to)) =~= places.update(at, Some(to)));
    assert(stands_at(places, places[at]->0));
    let i = index_of(places, places[at]->0);
    assert(i == at) by {
        if i < at {
            assert(places[i] != places[at]);
        } else if i > at {
            assert(places[at] != places[i]);
        }
    }
}

proof fn write_one<T>(
    rest: Map<ObjectPathView, T>,
    places: Seq<Option<ObjectPathView>>,
    contents: Seq<T>,
    at: int,
    to: ObjectPathView,
)
    requires
        tidy(rest, places),
        0 <= at < places.len(),
        places[at] is None,
        !rest.contains_key(to),
        !stands_at(places, to),
    ensures
        changed(placed(rest, places, contents), NameChange::Write(to, contents[at])) == placed(
            rest,
            places.update(at, Some(to)),
            contents,
        ),
        tidy(rest, places.update(at, Some(to))),
{
    let filled = places.update(at, Some(to));
    assert(filled[at] == Some(to));
    assert forall|i: int, j: int|
        0 <= i < j < filled.len() && (#[trigger] filled[i]) is Some implies filled[i] != (
    #[trigger] filled[j]) by {
        if i == at {
            assert(places[j] != Some(to));
        } else if j == at {
            assert(places[i] != Some(to));
        } else {
            assert(places[i] != places[j]);
        }
    }
    assert forall|i: int| 0 <= i < filled.len() && (#[trigger] filled[i]) is Some implies
        !rest.contains_key(filled[i]->0) by {
        if i != at {
            assert(places[i] == filled[i]);
        }
    }
    same_elsewhere(rest, places, filled, at, to);
    index_is(rest, filled, at);
    assert(placed(rest, places, contents).insert(to, contents[at]) =~= placed(
        rest,
        filled,
        contents,
    ));
}

proof fn remove_one<T>(
    rest: Map<ObjectPathView, T>,
    places: Seq<Option<ObjectPathView>>,
    contents: Seq<T>,
    at: int,
)
    requires
        tidy(rest, places),
        0 <= at < places.len(),
        places[at] is Some,
    ensures
        changed(placed(rest, places, contents), NameChange::Remove(places[at]->0)) == placed(
            rest,
            places.update(at, None),
            contents,
        ),
        tidy(rest, places.update(at, None)),
{
    let emptied = places.update(at, None);
    let name = places[at]->0;
    assert forall|i: int, j: int|
        0 <= i < j < emptied.len() && (#[trigger] emptied[i]) is Some implies emptied[i] != (
    #[trigger] emptied[j]) by {
        if j != at {
            assert(places[i] != places[j]);
        }
    }
    assert forall|i: int| 0 <= i < emptied.len() && (#[trigger] emptied[i]) is Some implies
        !rest.contains_key(emptied[i]->0) by {
        assert(places[i] == emptied[i]);
    }
    assert(emptied.update(at, Some(name)) =~= places);
    same_elsewhere(rest, emptied, places, at, name);
    assert(!stands_at(emptied, name)) by {
        if stands_at(emptied, name) {
            let i = index_of(emptied, name);
            assert(places[i] == Some(name));
            if i < at {
                assert(places[i] != places[at]);
            } else {
                assert(places[at] != places[i]);
            }
        }
    }
    assert(!rest.contains_key(name));
    assert(placed(rest, places, contents).remove(name) =~= placed(rest, emptied, contents));
}

/// The place at an index is the only one of that name.
proof fn index_is<T>(
    rest: Map<ObjectPathView, T>,
    places: Seq<Option<ObjectPathView>>,
    at: int,
)
    requires
        tidy(rest, places),
        0 <= at < places.len(),
        places[at] is Some,
    ensures
        stands_at(places, places[at]->0),
        index_of(places, places[at]->0) == at,
{
    let i = index_of(places, places[at]->0);
    assert(places[at] == Some(places[at]->0));
    assert(places[i] == places[at]);
    if i < at {
        assert(places[i] != places[at]);
    } else if i > at {
        assert(places[at] != places[i]);
    }
}

/// Filling one place changes nothing of the other names.
proof fn same_elsewhere<T>(
    rest: Map<ObjectPathView, T>,
    places: Seq<Option<ObjectPathView>>,
    filled: Seq<Option<ObjectPathView>>,
    at: int,
    to: ObjectPathView,
)
    requires
        tidy(rest, places),
        tidy(rest, filled),
        0 <= at < places.len(),
        places[at] is None,
        filled == places.update(at, Some(to)),
    ensures
        forall|name: ObjectPathView|
            name != to ==> stands_at(places, name) == stands_at(filled, name),
        forall|name: ObjectPathView|
            name != to && #[trigger] stands_at(filled, name) ==> index_of(places, name) == index_of(
                filled,
                name,
            ),
{
    assert forall|name: ObjectPathView| name != to implies stands_at(places, name) == stands_at(
        filled,
        name,
    ) by {
        if stands_at(places, name) {
            let i = index_of(places, name);
            assert(filled[i] == Some(name));
        }
        if stands_at(filled, name) {
            let i = index_of(filled, name);
            assert(places[i] == Some(name));
        }
    }
    assert forall|name: ObjectPathView|
        name != to && #[trigger] stands_at(filled, name) implies index_of(places, name) == index_of(
        filled,
        name,
    ) by {
        let i = index_of(filled, name);
        assert(filled[i] == Some(name));
        assert(places[i] == Some(name));
        index_is(rest, places, i);
    }
}

proof fn after_both<T>(
    objects: Map<ObjectPathView, T>,
    first: Seq<NameChange<T>>,
    second: Seq<NameChange<T>>,
)
    ensures
        after(objects, first + second) == after(after(objects, first), second),
    decreases second.len(),
{
    if second.len() == 0 {
        assert(first + second =~= first);
    } else {
        after_both(objects, first, second.drop_last());
        assert((first + second).drop_last() =~= first + second.drop_last());
    }
}

/// One more change after a prefix of the changes.
proof fn after_next<T>(objects: Map<ObjectPathView, T>, changes: Seq<NameChange<T>>, count: int)
    requires
        0 < count <= changes.len(),
    ensures
        after(objects, changes.take(count)) == changed(
            after(objects, changes.take(count - 1)),
            changes[count - 1],
        ),
{
    assert(changes.take(count).drop_last() =~= changes.take(count - 1));
}

/// Where the objects of a transaction of moves stand once `away` of them are
/// staged and `published` are finalized, of which those from `kept` on are moved
/// back, as are the staged ones from `waiting` on.
spec fn moving(
    staged: Seq<ChangeView>,
    finalized: Seq<ChangeView>,
    away: int,
    published: int,
    kept: int,
    waiting: int,
) -> Seq<Option<ObjectPathView>> {
    Seq::new(
        staged.len(),
        |i: int|
            if i < published {
                if i < kept {
                    Some(finalized[i].target)
                } else {
                    Some(staged[i].source)
                }
            } else if i < away && i < waiting {
                Some(staged[i].target)
            } else {
                Some(staged[i].source)
            },
    )
}

spec fn keeps_the_rest<T>(
    objects: Map<ObjectPathView, T>,
    rest: Map<ObjectPathView, T>,
    staged: Seq<ChangeView>,
) -> bool {
    &&& forall|name: ObjectPathView| rest.contains_key(name) ==> objects.contains_key(name)
    &&& forall|i: int| 0 <= i < staged.len() ==> !rest.contains_key((#[trigger] staged[i]).source)
}

/// The objects that stand at none of the places.
spec fn untouched<T>(
    objects: Map<ObjectPathView, T>,
    places: Seq<Option<ObjectPathView>>,
) -> Map<ObjectPathView, T> {
    Map::new(
        |name: ObjectPathView| objects.contains_key(name) && !stands_at(places, name),
        |name: ObjectPathView| objects[name],
    )
}

/// The objects are the sources of the moves and the untouched ones.
proof fn sources_are_placed<T>(
    objects: Map<ObjectPathView, T>,
    staged: Seq<ChangeView>,
    finalized: Seq<ChangeView>,
)
    requires
        moves_apart(objects, staged, finalized),
    ensures
        ({
            let start = moving(staged, finalized, 0, 0, 0, staged.len() as int);
            let contents = Seq::new(staged.len(), |i: int| objects[staged[i].source]);
            &&& keeps_the_rest(objects, untouched(objects, start), staged)
            &&& placed(untouched(objects, start), start, contents) == objects
        }),
{
    let n = staged.len() as int;
    let start = moving(staged, finalized, 0, 0, 0, n);
    let rest = untouched(objects, start);
    let contents = Seq::new(staged.len(), |i: int| objects[staged[i].source]);
    assert forall|i: int| 0 <= i < n implies !rest.contains_key((#[trigger] staged[i]).source) by {
        assert(start[i] == Some(staged[i].source));
    }
    assert forall|name: ObjectPathView| #[trigger] stands_at(start, name) implies
        objects.contains_key(name) && contents[index_of(start, name)] == objects[name] by {
        let i = index_of(start, name);
        assert(start[i] == Some(name));
        assert(staged[i].source == name);
    }
    assert(placed(rest, start, contents) =~= objects);
}

proof fn moving_is_tidy<T>(
    objects: Map<ObjectPathView, T>,
    rest: Map<ObjectPathView, T>,
    staged: Seq<ChangeView>,
    finalized: Seq<ChangeView>,
    away: int,
    published: int,
    kept: int,
    waiting: int,
)
    requires
        moves_apart(objects, staged, finalized),
        keeps_the_rest(objects, rest, staged),
        0 <= published <= finalized.len(),
        0 <= away <= staged.len(),
    ensures
        tidy(rest, moving(staged, finalized, away, published, kept, waiting)),
{
    let places = moving(staged, finalized, away, published, kept, waiting);
    assert forall|i: int, j: int|
        0 <= i < j < places.len() && (#[trigger] places[i]) is Some implies places[i] != (
    #[trigger] places[j]) by {
        assert(staged[i].source != staged[j].source);
        assert(objects.contains_key(staged[i].source) && objects.contains_key(staged[j].source));
        if i < finalized.len() {
            assert(!objects.contains_key(finalized[i].target));
            assert(staged[j].target != finalized[i].target);
        }
        if j < finalized.len() {
            assert(!objects.contains_key(finalized[j].target));
            assert(finalized[i].target != finalized[j].target);
            assert(staged[i].target != finalized[j].target);
        }
    }
    assert forall|i: int| 0 <= i < places.len() && (#[trigger] places[i]) is Some implies
        !rest.contains_key(places[i]->0) by {
        assert(!rest.contains_key(staged[i].source));
        if i < finalized.len() {
            assert(!objects.contains_key(finalized[i].target));
        }
    }
}

proof fn stage_moves<T>(
    objects: Map<ObjectPathView, T>,
    rest: Map<ObjectPathView, T>,
    contents: Seq<T>,
    staged: Seq<ChangeView>,
    finalized: Seq<ChangeView>,
    count: int,
)
    requires
        moves_apart(objects, staged, finalized),
        keeps_the_rest(objects, rest, staged),
        objects == placed(rest, moving(staged, finalized, 0, 0, 0, staged.len() as int), contents),
        0 <= count <= staged.len(),
    ensures
        after(objects, staging_moves(staged).take(count)) == placed(
            rest,
            moving(staged, finalized, count, 0, 0, staged.len() as int),
            contents,
        ),
    decreases count,
{
    if count > 0 {
        let n = staged.len() as int;
        stage_moves(objects, rest, contents, staged, finalized, count - 1);
        after_next(objects, staging_moves(staged), count);
        let places = moving(staged, finalized, count - 1, 0, 0, n);
        moving_is_tidy(objects, rest, staged, finalized, count - 1, 0, 0, n);
        let to = staged[count - 1].target;
        assert(!stands_at(places, to)) by {
            if stands_at(places, to) {
                let i = index_of(places, to);
                assert(objects.contains_key(staged[i].source));
                assert(i < count - 1);
                assert(staged[i].target != staged[count - 1].target);
            }
        }
        move_one(rest, places, contents, count - 1, to);
        assert(places.update(count - 1, Some(to)) =~= moving(staged, finalized, count, 0, 0, n));
    }
}

proof fn finalize_moves<T>(
    objects: Map<ObjectPathView, T>,
    rest: Map<ObjectPathView, T>,
    contents: Seq<T>,
    staged: Seq<ChangeView>,
    finalized: Seq<ChangeView>,
    count: int,
)
    requires
        moves_apart(objects, staged, finalized),
        keeps_the_rest(objects, rest, staged),
        0 <= count <= finalized.len(),
    ensures
        after(
            placed(
                rest,
                moving(staged, finalized, staged.len() as int, 0, 0, staged.len() as int),
                contents,
            ),
            finalizing_moves(staged, finalized).take(count),
        ) == placed(
            rest,
            moving(staged, finalized, staged.len() as int, count, count, staged.len() as int),
            contents,
        ),
    decreases count,
{
    let n = staged.len() as int;
    let before = placed(rest, moving(staged, finalized, n, 0, 0, n), contents);
    if count > 0 {
        finalize_moves(objects, rest, contents, staged, finalized, count - 1);
        after_next(before, finalizing_moves(staged, finalized), count);
        let places = moving(staged, finalized, n, count - 1, count - 1, n);
        moving_is_tidy(objects, rest, staged, finalized, n, count - 1, count - 1, n);
        let to = finalized[count - 1].target;
        assert(!stands_at(places, to)) by {
            if stands_at(places, to) {
                let i = index_of(places, to);
                assert(staged[i].target != to);
                assert(i < count - 1);
                assert(finalized[i].target != finalized[count - 1].target);
            }
        }
        move_one(rest, places, contents, count - 1, to);
        assert(places.update(count - 1, Some(to)) =~= moving(staged, finalized, n, count, count, n));
    }
}

proof fn move_back<T>(
    objects: Map<ObjectPathView, T>,
    rest: Map<ObjectPathView, T>,
    contents: Seq<T>,
    staged: Seq<ChangeView>,
    finalized: Seq<ChangeView>,
    count: int,
)
    requires
        moves_apart(objects, staged, finalized),
        keeps_the_rest(objects, rest, staged),
        0 <= count <= staged.len(),
    ensures
        after(
            placed(
                rest,
                moving(
                    staged,
                    finalized,
                    staged.len() as int,
                    finalized.len() as int,
                    finalized.len() as int,
                    staged.len() as int,
                ),
                contents,
            ),
            moves_back(
                finalized.reverse() + staged.skip(finalized.len() as int).reverse(),
            ).take(count),
        ) == placed(rest, moved_back_places(staged, finalized, count), contents),
    decreases count,
{
    let n = staged.len() as int;
    let m = finalized.len() as int;
    let before = placed(rest, moving(staged, finalized, n, m, m, n), contents);
    let back = finalized.reverse() + staged.skip(m).reverse();
    if count > 0 {
        move_back(objects, rest, contents, staged, finalized, count - 1);
        after_next(before, moves_back(back), count);
        let places = moved_back_places(staged, finalized, count - 1);
        let at = if count <= m {
            m - count
        } else {
            n - (count - m)
        };
        if count <= m {
            moving_is_tidy(objects, rest, staged, finalized, n, m, at + 1, n);
            assert(back[count - 1] == finalized[at]);
        } else {
            moving_is_tidy(objects, rest, staged, finalized, n, m, 0, at + 1);
            assert(staged.skip(m).reverse()[count - 1 - m] == staged[at]);
            assert(back[count - 1] == staged[at]);
        }
        let to = staged[at].source;
        assert(!stands_at(places, to)) by {
            if stands_at(places, to) {
                let i = index_of(places, to);
                assert(places[i] == Some(to));
                assert(objects.contains_key(to));
                assert(!objects.contains_key(staged[i].target));
                if i < m {
                    assert(!objects.contains_key(finalized[i].target));
                }
                assert(staged[i].source == to);
                if i < at {
                    assert(staged[i].source != staged[at].source);
                } else if i > at {
                    assert(staged[at].source != staged[i].source);
                }
            }
        }
        move_one(rest, places, contents, at, to);
        assert(places.update(at, Some(to)) =~= moved_back_places(staged, finalized, count));
    }
}

/// Where the objects stand once the first `count` changes are moved back.
spec fn moved_back_places(
    staged: Seq<ChangeView>,
    finalized: Seq<ChangeView>,
    count: int,
) -> Seq<Option<ObjectPathView>> {
    let n = staged.len() as int;
    let m = finalized.len() as int;
    if count <= m {
        moving(staged, finalized, n, m, m - count, n)
    } else {
        moving(staged, finalized, n, m, 0, n - (count - m))
    }
}

/// Where the uploads of a transaction stand: the first `published` under their own
/// names, those of the staged range under their staging names, and no other.
spec fn uploading(
    staged: Seq<ChangeView>,
    finalized: Seq<ChangeView>,
    published: int,
    from: int,
    to: int,
) -> Seq<Option<ObjectPathView>> {
    Seq::new(
        staged.len(),
        |i: int|
            if i < published {
                Some(finalized[i].target)
            } else if from <= i < to {
                Some(staged[i].source)
            } else {
                None
            },
    )
}

proof fn uploading_is_tidy<T>(
    objects: Map<ObjectPathView, T>,
    staged: Seq<ChangeView>,
    finalized: Seq<ChangeView>,
    published: int,
    from: int,
    to: int,
)
    requires
        uploads_apart(objects, staged, finalized),
        0 <= published <= finalized.len(),
    ensures
        tidy(objects, uploading(staged, finalized, published, from, to)),
{
    let places = uploading(staged, finalized, published, from, to);
    assert forall|i: int, j: int|
        0 <= i < j < places.len() && (#[trigger] places[i]) is Some implies places[i] != (
    #[trigger] places[j]) by {
        assert(staged[i].source != staged[j].source);
        if i < published {
            assert(staged[j].source != finalized[i].target);
        }
        if j < published {
            assert(finalized[i].target != finalized[j].target);
        }
    }
    assert forall|i: int| 0 <= i < places.len() && (#[trigger] places[i]) is Some implies
        !objects.contains_key(places[i]->0) by {
        assert(!objects.contains_key(staged[i].source));
        if i < published {
            assert(!objects.contains_key(finalized[i].target));
        }
    }
}

/// A staging name is free where its own upload does not stand under it.
proof fn staging_name_is_free<T>(
    objects: Map<ObjectPathView, T>,
    staged: Seq<ChangeView>,
    finalized: Seq<ChangeView>,
    published: int,
    from: int,
    to: int,
    at: int,
)
    requires
        uploads_apart(objects, staged, finalized),
        0 <= published <= finalized.len(),
        0 <= at < staged.len(),
        at < published || at < from || to <= at,
    ensures
        !objects.contains_key(staged[at].source),
        !stands_at(uploading(staged, finalized, published, from, to), staged[at].source),
{
    let places = uploading(staged, finalized, published, from, to);
    let name = staged[at].source;
    if stands_at(places, name) {
        let i = index_of(places, name);
        assert(places[i] == Some(name));
        if i < published {
            assert(staged[at].source != finalized[i].target);
        } else if i < at {
            assert(staged[i].source != staged[at].source);
        } else if i > at {
            assert(staged[at].source != staged[i].source);
        }
    }
}

proof fn stage_uploads<T>(
    objects: Map<ObjectPathView, T>,
    contents: Seq<T>,
    staged: Seq<ChangeView>,
    finalized: Seq<ChangeView>,
    count: int,
)
    requires
        uploads_apart(objects, staged, finalized),
        contents.len() == staged.len(),
        objects == placed(objects, uploading(staged, finalized, 0, 0, 0), contents),
        0 <= count <= staged.len(),
    ensures
        after(objects, staging_writes(staged, contents).take(count)) == placed(
            objects,
            uploading(staged, finalized, 0, 0, count),
            contents,
        ),
    decreases count,
{
    if count > 0 {
        stage_uploads(objects, contents, staged, finalized, count - 1);
        after_next(objects, staging_writes(staged, contents), count);
        let places = uploading(staged, finalized, 0, 0, count - 1);
        uploading_is_tidy(objects, staged, finalized, 0, 0, count - 1);
        staging_name_is_free(objects, staged, finalized, 0, 0, count - 1, count - 1);
        let to = staged[count - 1].source;
        write_one(objects, places, contents, count - 1, to);
        assert(places.update(count - 1, Some(to)) =~= uploading(staged, finalized, 0, 0, count));
    }
}

proof fn publish_uploads<T>(
    objects: Map<ObjectPathView, T>,
    contents: Seq<T>,
    staged: Seq<ChangeView>,
    finalized: Seq<ChangeView>,
    count: int,
)
    requires
        uploads_apart(objects, staged, finalized),
        0 <= count <= finalized.len(),
    ensures
        after(
            placed(objects, uploading(staged, finalized, 0, 0, staged.len() as int), contents),
            publishing_moves(finalized).take(count),
        ) == placed(
            objects,
            uploading(staged, finalized, count, count, staged.len() as int),
            contents,
        ),
    decreases count,
{
    let n = staged.len() as int;
    let before = placed(objects, uploading(staged, finalized, 0, 0, n), contents);
    if count > 0 {
        publish_uploads(objects, contents, staged, finalized, count - 1);
        after_next(before, publishing_moves(finalized), count);
        let places = uploading(staged, finalized, count - 1, count - 1, n);
        uploading_is_tidy(objects, staged, finalized, count - 1, count - 1, n);
        let to = finalized[count - 1].target;
        assert(!stands_at(places, to)) by {
            if stands_at(places, to) {
                let i = index_of(places, to);
                assert(places[i] == Some(to));
                assert(staged[i].source != to);
                assert(finalized[i].target != finalized[count - 1].target);
            }
        }
        assert(finalized[count - 1].source == staged[count - 1].source);
        move_one(objects, places, contents, count - 1, to);
        assert(places.update(count - 1, Some(to)) =~= uploading(staged, finalized, count, count, n));
    }
}

proof fn withdraw_uploads<T>(
    objects: Map<ObjectPathView, T>,
    contents: Seq<T>,
    staged: Seq<ChangeView>,
    finalized: Seq<ChangeView>,
    count: int,
)
    requires
        uploads_apart(objects, staged, finalized),
        0 <= count <= finalized.len(),
    ensures
        after(
            placed(
                objects,
                uploading(
                    staged,
                    finalized,
                    finalized.len() as int,
                    finalized.len() as int,
                    staged.len() as int,
                ),
                contents,
            ),
            withdrawals(finalized.reverse().take(count)),
        ) == placed(
            objects,
            uploading(
                staged,
                finalized,
                finalized.len() - count,
                finalized.len() as int,
                staged.len() as int,
            ),
            contents,
        ),
    decreases count,
{
    let n = staged.len() as int;
    let m = finalized.len() as int;
    let before = placed(objects, uploading(staged, finalized, m, m, n), contents);
    if count > 0 {
        withdraw_uploads(objects, contents, staged, finalized, count - 1);
        let at = m - count;
        let done = finalized.reverse().take(count);
        let change = finalized[at];
        assert(done.drop_last() =~= finalized.reverse().take(count - 1));
        assert(done.last() == change);
        assert(change.source == staged[at].source);
        let earlier: Seq<NameChange<T>> = withdrawals(done.drop_last());
        let moved = earlier.push(NameChange::Move(change.target, change.source));
        let removed = moved.push(NameChange::Remove(change.source));
        assert(moved.drop_last() =~= earlier);
        assert(removed.drop_last() =~= moved);
        assert(withdrawals::<T>(done) == removed);
        assert(after(before, moved) == changed(after(before, earlier), moved.last()));
        let places = uploading(staged, finalized, at + 1, m, n);
        uploading_is_tidy(objects, staged, finalized, at + 1, m, n);
        staging_name_is_free(objects, staged, finalized, at + 1, m, n, at);
        move_one(objects, places, contents, at, change.source);
        let returned = places.update(at, Some(change.source));
        remove_one(objects, returned, contents, at);
        assert(returned.update(at, None) =~= uploading(staged, finalized, at, m, n));
    } else {
        assert(withdrawals::<T>(finalized.reverse().take(0)) =~= Seq::empty());
    }
}

proof fn remove_uploads<T>(
    objects: Map<ObjectPathView, T>,
    contents: Seq<T>,
    staged: Seq<ChangeView>,
    finalized: Seq<ChangeView>,
    count: int,
)
    requires
        uploads_apart(objects, staged, finalized),
        0 <= count <= staged.len() - finalized.len(),
    ensures
        after(
            placed(
                objects,
                uploading(staged, finalized, 0, finalized.len() as int, staged.len() as int),
                contents,
            ),
            removals(staged.skip(finalized.len() as int).reverse()).take(count),
        ) == placed(
            objects,
            uploading(staged, finalized, 0, finalized.len() as int, staged.len() - count),
            contents,
        ),
    decreases count,
{
    let n = staged.len() as int;
    let m = finalized.len() as int;
    let before = placed(objects, uploading(staged, finalized, 0, m, n), contents);
    let last_first = staged.skip(m).reverse();
    if count > 0 {
        remove_uploads(objects, contents, staged, finalized, count - 1);
        after_next(before, removals(last_first), count);
        let at = n - count;
        assert(last_first[count - 1] == staged[at]);
        let places = uploading(staged, finalized, 0, m, at + 1);
        uploading_is_tidy(objects, staged, finalized, 0, m, at + 1);
        remove_one(objects, places, contents, at);
        assert(places.update(at, None) =~= uploading(staged, finalized, 0, m, at));
    }
}

} // verus!
