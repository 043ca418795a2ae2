//! What giving every name its NFC form means for the names.
use vstd::prelude::*;

use crate::change_laws;
use crate::error::AppError;
use crate::normalization_plan;
use crate::normalization_plan::Entry;
use crate::normalize;
use crate::normalize::PlannedMove;
use crate::object_path::ObjectPath;
use crate::object_path;
use crate::object_path::ObjectPathView;
use crate::remote_run::PlannedView;
use crate::remote_run::RunStepView;
use crate::restoration_laws;
use crate::session::Call;
use crate::text;
use crate::transaction_laws;
use crate::unique_name;

verus! {

/// Thirty-two digits of which each is one of `0` to `9` and `a` to `f`.
pub open spec fn is_mark(text: Seq<char>) -> bool {
    &&& text.len() == 32
    &&& forall|i: int|
        0 <= i < text.len() ==> '0' <= (#[trigger] text[i]) <= '9' || 'a' <= text[i] <= 'f'
}

/// The move takes the object that the first text names to the one that the second
/// text names, by way of the first name with a mark behind it.
pub open spec fn moves_between(planned: PlannedMove, source: Seq<char>, target: Seq<char>) -> bool {
    &&& object_path::names_object(source, planned.source.bucket@, planned.source.object@)
    &&& object_path::names_object(target, planned.target.bucket@, planned.target.object@)
    &&& planned.temporary.bucket@ == planned.source.bucket@
    &&& exists|mark: Seq<char>| #[trigger]
        is_mark(mark) && planned.temporary.object@ == planned.source.object@
            + ".task-googlecloud-"@ + mark
}

/// The text names an object whose name takes at most so many bytes.
pub open spec fn names_within(text: Seq<char>, bytes: nat) -> bool {
    exists|bucket: Seq<char>, object: Seq<char>|
        {
            &&& #[trigger] object_path::names_object(text, bucket, object)
            &&& vstd::utf8::encode_utf8(object).len() <= bytes
        }
}

/// The entry can be carried out: both texts name objects, the target fits into the
/// 1024 bytes of an object name, and so does the source with 50 bytes behind it.
pub open spec fn can_be_moved(entry: Entry) -> bool {
    &&& names_within(entry.source@, 974)
    &&& names_within(entry.target@, 1024)
}

/// The entry gives an object another name.
pub open spec fn changes(entry: Entry) -> bool {
    entry.source@ != entry.target@
}

/// The entries that give an object another name, in order.
pub open spec fn wanted_of(plan: Seq<Entry>) -> Seq<Entry> {
    plan.filter(|entry: Entry| changes(entry))
}

/// What the error of an entry that cannot be moved says.
pub open spec fn tells_why(entry: Entry, error: AppError) -> bool {
    match error {
        AppError::InvalidStorageUri(uri) => {
            ||| {
                &&& uri@ == entry.source@
                &&& forall|bucket: Seq<char>, object: Seq<char>|
                    !#[trigger] object_path::names_object(entry.source@, bucket, object)
            }
            ||| {
                &&& uri@ == entry.target@
                &&& forall|bucket: Seq<char>, object: Seq<char>|
                    !#[trigger] object_path::names_object(entry.target@, bucket, object)
            }
        },
        AppError::Message(message) => {
            ||| {
                &&& message@ == "Object name is too long for normalized target: "@ + entry.target@
                &&& !names_within(entry.target@, 1024)
            }
            ||| {
                &&& exists|mark: Seq<char>| #[trigger]
                    is_mark(mark) && message@
                        == "Object name is too long for temporary staging: "@ + entry.source@
                        + ".task-googlecloud-"@ + mark
                &&& !names_within(entry.source@, 974)
            }
        },
        _ => false,
    }
}

/// There is a move for every entry that changes a name, and no other, in the order
/// of the entries. There are none at all where one of these entries cannot be moved.
pub open spec fn moves_every_change(
    plan: Seq<Entry>,
    moves: Result<Vec<PlannedMove>, AppError>,
) -> bool {
    &&& moves is Ok <==> forall|i: int|
        0 <= i < plan.len() && changes(#[trigger] plan[i]) ==> can_be_moved(plan[i])
    &&& match moves {
        Ok(moves) => {
            let wanted = wanted_of(plan);
            &&& moves@.len() == wanted.len()
            &&& forall|k: int|
                0 <= k < moves@.len() ==> moves_between(
                    #[trigger] moves@[k],
                    wanted[k].source@,
                    wanted[k].target@,
                )
            &&& forall|i: int|
                0 <= i < plan.len() && changes(#[trigger] plan[i]) ==> exists|k: int|
                    0 <= k < moves@.len() && moves_between(
                        #[trigger] moves@[k],
                        plan[i].source@,
                        plan[i].target@,
                    )
        },
        Err(error) => exists|i: int|
            {
                &&& 0 <= i < plan.len()
                &&& changes(#[trigger] plan[i])
                &&& !can_be_moved(plan[i])
                &&& tells_why(plan[i], error)
                &&& forall|j: int|
                    0 <= j < i && changes(#[trigger] plan[j]) ==> can_be_moved(plan[j])
            },
    }
}

/// Planning gives every entry whose source differs from its target a move of that
/// source to that target, whatever the names are, and fails only for an entry that
/// cannot be moved, of which it tells the first.
pub proof fn every_name_that_changes_is_moved(
    plan: Seq<Entry>,
    moves: Result<Vec<PlannedMove>, AppError>,
)
    requires
        normalize::plans(plan, moves),
    ensures
        moves_every_change(plan, moves),
{
    let wanted = wanted_of(plan);
    let entries = normalize::changing(plan);
    the_changing_entries(plan);
    match moves {
        Ok(moves) => {
            assert forall|k: int| 0 <= k < moves@.len() implies moves_between(
                #[trigger] moves@[k],
                wanted[k].source@,
                wanted[k].target@,
            ) && can_be_moved(wanted[k]) by {
                assert(normalize::is_move_of(entries[k], moves@[k]));
                a_move_moves(entries[k], moves@[k]);
            }
            assert forall|i: int| 0 <= i < plan.len() && changes(#[trigger] plan[i]) implies {
                &&& can_be_moved(plan[i])
                &&& exists|k: int|
                    0 <= k < moves@.len() && moves_between(
                        #[trigger] moves@[k],
                        plan[i].source@,
                        plan[i].target@,
                    )
            } by {
                let k = choose|k: int| 0 <= k < wanted.len() && #[trigger] wanted[k] == plan[i];
                assert(moves_between(moves@[k], wanted[k].source@, wanted[k].target@));
            }
        },
        Err(error) => {
            let k = choose|k: int|
                {
                    &&& 0 <= k < entries.len()
                    &&& normalize::is_unmovable(#[trigger] entries[k], error)
                    &&& forall|l: int|
                        0 <= l < k ==> normalize::is_movable(#[trigger] entries[l])
                };
            an_unmovable_entry_tells_why(entries[k], error);
            let i = first_place(plan, k);
            assert forall|j: int| 0 <= j < i && changes(#[trigger] plan[j]) implies can_be_moved(
                plan[j],
            ) by {
                let l = choose|l: int| 0 <= l < k && #[trigger] wanted[l] == plan[j];
                assert(normalize::is_movable(entries[l]));
                a_movable_entry_can_be_moved(entries[l]);
            }
        },
    }
}

proof fn the_changing_entries(plan: Seq<Entry>)
    ensures
        normalize::changing(plan) == wanted_of(plan),
        forall|i: int|
            0 <= i < plan.len() && changes(#[trigger] plan[i]) ==> exists|k: int|
                0 <= k < wanted_of(plan).len() && #[trigger] wanted_of(plan)[k] == plan[i],
    decreases plan.len(),
{
    reveal(Seq::filter);
    if plan.len() > 0 {
        let shorter = plan.drop_last();
        the_changing_entries(shorter);
        let earlier = wanted_of(shorter);
        assert forall|i: int| 0 <= i < plan.len() && changes(#[trigger] plan[i]) implies exists|
            k: int,
        | 0 <= k < wanted_of(plan).len() && #[trigger] wanted_of(plan)[k] == plan[i] by {
            if i < plan.len() - 1 {
                assert(shorter[i] == plan[i]);
                let k = choose|k: int| 0 <= k < earlier.len() && #[trigger] earlier[k] == plan[i];
                assert(wanted_of(plan)[k] == plan[i]);
            } else {
                assert(wanted_of(plan)[earlier.len() as int] == plan[i]);
            }
        }
    }
}

/// Where the changing entry stands in the plan: those before it come before it there
/// too.
proof fn first_place(plan: Seq<Entry>, k: int) -> (i: int)
    requires
        0 <= k < wanted_of(plan).len(),
    ensures
        0 <= i < plan.len(),
        changes(plan[i]),
        plan[i] == wanted_of(plan)[k],
        forall|j: int|
            0 <= j < i && changes(#[trigger] plan[j]) ==> exists|l: int|
                0 <= l < k && #[trigger] wanted_of(plan)[l] == plan[j],
    decreases plan.len(),
{
    reveal(Seq::filter);
    let shorter = plan.drop_last();
    let earlier = wanted_of(shorter);
    let whole = wanted_of(plan);
    if k < earlier.len() {
        let i = first_place(shorter, k);
        assert(plan[i] == shorter[i]);
        assert(whole[k] == earlier[k]);
        assert forall|j: int| 0 <= j < i && changes(#[trigger] plan[j]) implies exists|l: int|
            0 <= l < k && #[trigger] whole[l] == plan[j] by {
            assert(shorter[j] == plan[j]);
            let l = choose|l: int| 0 <= l < k && #[trigger] earlier[l] == plan[j];
            assert(whole[l] == plan[j]);
        }
        i
    } else {
        let i = plan.len() - 1;
        the_changing_entries(shorter);
        assert forall|j: int| 0 <= j < i && changes(#[trigger] plan[j]) implies exists|l: int|
            0 <= l < k && #[trigger] whole[l] == plan[j] by {
            assert(shorter[j] == plan[j]);
            let l = choose|l: int| 0 <= l < earlier.len() && #[trigger] earlier[l] == plan[j];
            assert(whole[l] == plan[j]);
        }
        i
    }
}

proof fn a_token_is_a_mark(suffix: Seq<char>) -> (mark: Seq<char>)
    requires
        normalize::is_temporary_suffix(suffix),
    ensures
        is_mark(mark),
        suffix == ".task-googlecloud-"@ + mark,
        vstd::utf8::encode_utf8(suffix).len() == 50,
{
    let token = choose|token: Seq<char>| #[trigger]
        unique_name::is_token(token) && suffix == ".task-googlecloud-"@ + token;
    assert forall|i: int| 0 <= i < token.len() implies '0' <= (#[trigger] token[i]) <= '9' || 'a'
        <= token[i] <= 'f' by {
        assert(unique_name::lower_hex(token[i]));
    }
    reveal_strlit(".task-googlecloud-");
    assert(vstd::utf8::is_ascii_chars(suffix)) by {
        assert forall|i: int| 0 <= i < suffix.len() implies '\0' <= #[trigger] suffix[i]
            <= '\u{7f}' by {
            if i >= 18 {
                assert(suffix[i] == token[i - 18]);
            }
        }
    }
    vstd::utf8::is_ascii_chars_encode_utf8(suffix);
    token
}

proof fn a_path_is_within(text: Seq<char>, path: ObjectPathView, bytes: nat)
    requires
        path.nameable(),
        path.uri() == text,
    ensures
        object_path::names_object(text, path.bucket, path.object),
        names_within(text, bytes) <==> vstd::utf8::encode_utf8(path.object).len() <= bytes,
{
    object_path::an_object_is_named_by_its_uri(path);
    assert(object_path::names_object(text, path.bucket, path.object));
    if names_within(text, bytes) {
        let (bucket, object) = choose|bucket: Seq<char>, object: Seq<char>|
            {
                &&& #[trigger] object_path::names_object(text, bucket, object)
                &&& vstd::utf8::encode_utf8(object).len() <= bytes
            };
        object_path::a_text_names_one_object(text, bucket, object, text, path.bucket, path.object);
    }
}

proof fn no_path_is_named(text: Seq<char>)
    requires
        !normalize::is_uri(text),
    ensures
        forall|bucket: Seq<char>, object: Seq<char>|
            !#[trigger] object_path::names_object(text, bucket, object),
{
    assert forall|bucket: Seq<char>, object: Seq<char>| !#[trigger] object_path::names_object(
        text,
        bucket,
        object,
    ) by {
        let path = ObjectPathView { bucket, object };
        object_path::an_object_is_named_by_its_uri(path);
        if object_path::names_object(text, bucket, object) {
            assert(path.nameable() && path.uri() == text);
        }
    }
}

proof fn a_move_moves(entry: Entry, planned: PlannedMove)
    requires
        normalize::is_move_of(entry, planned),
    ensures
        moves_between(planned, entry.source@, entry.target@),
        can_be_moved(entry),
{
    a_path_is_within(entry.source@, planned.source@, 974);
    a_path_is_within(entry.target@, planned.target@, 1024);
    let suffix = choose|suffix: Seq<char>| #[trigger]
        normalize::is_temporary_suffix(suffix) && planned.temporary@ == normalize::suffixed(
            planned.source@,
            suffix,
        );
    let mark = a_token_is_a_mark(suffix);
    assert(planned.temporary.object@ =~= planned.source.object@ + ".task-googlecloud-"@ + mark);
}

proof fn a_movable_entry_can_be_moved(entry: Entry)
    requires
        normalize::is_movable(entry),
    ensures
        can_be_moved(entry),
{
    let (source, target) = choose|source: ObjectPathView, target: ObjectPathView|
        {
            &&& source.nameable()
            &&& target.nameable()
            &&& #[trigger] source.uri() == entry.source@
            &&& #[trigger] target.uri() == entry.target@
            &&& target.name_bytes() <= object_path::MAX_OBJECT_NAME_BYTES
            &&& source.name_bytes() + normalize::TEMPORARY_SUFFIX_BYTES
                <= object_path::MAX_OBJECT_NAME_BYTES
        };
    a_path_is_within(entry.source@, source, 974);
    a_path_is_within(entry.target@, target, 1024);
}

proof fn an_unmovable_entry_tells_why(entry: Entry, error: AppError)
    requires
        normalize::is_unmovable(entry, error),
    ensures
        !can_be_moved(entry),
        tells_why(entry, error),
{
    if normalize::not_a_uri(entry.source@, error) {
        no_path_is_named(entry.source@);
    } else if normalize::not_a_uri(entry.target@, error) {
        no_path_is_named(entry.target@);
    } else if exists|target: ObjectPathView|
        {
            &&& target.nameable()
            &&& #[trigger] target.uri() == entry.target@
            &&& target.name_bytes() > object_path::MAX_OBJECT_NAME_BYTES
            &&& object_path::too_long(error, target, "normalized target"@)
        } {
        let target = choose|target: ObjectPathView|
            {
                &&& target.nameable()
                &&& #[trigger] target.uri() == entry.target@
                &&& target.name_bytes() > object_path::MAX_OBJECT_NAME_BYTES
                &&& object_path::too_long(error, target, "normalized target"@)
            };
        a_path_is_within(entry.target@, target, 1024);
        reveal_strlit("Object name is too long for ");
        reveal_strlit("normalized target");
        reveal_strlit(": ");
        reveal_strlit("Object name is too long for normalized target: ");
        assert("Object name is too long for "@ + "normalized target"@ + ": "@
            =~= "Object name is too long for normalized target: "@);
    } else {
        let (source, target) = choose|source: ObjectPathView, target: ObjectPathView|
            {
                &&& source.nameable()
                &&& target.nameable()
                &&& #[trigger] source.uri() == entry.source@
                &&& #[trigger] target.uri() == entry.target@
                &&& target.name_bytes() <= object_path::MAX_OBJECT_NAME_BYTES
                &&& source.name_bytes() + normalize::TEMPORARY_SUFFIX_BYTES
                    > object_path::MAX_OBJECT_NAME_BYTES
                &&& normalize::overflows_staging(source, error)
            };
        a_path_is_within(entry.source@, source, 974);
        let suffix = choose|suffix: Seq<char>| #[trigger]
            normalize::is_temporary_suffix(suffix) && object_path::too_long(
                error,
                normalize::suffixed(source, suffix),
                "temporary staging"@,
            );
        let mark = a_token_is_a_mark(suffix);
        reveal_strlit("Object name is too long for ");
        reveal_strlit("temporary staging");
        reveal_strlit(": ");
        reveal_strlit("Object name is too long for temporary staging: ");
        assert("Object name is too long for "@ + "temporary staging"@ + ": "@
            =~= "Object name is too long for temporary staging: "@);
        assert(normalize::suffixed(source, suffix).uri() =~= entry.source@ + ".task-googlecloud-"@
            + mark);
        assert(error->Message_0@ =~= "Object name is too long for temporary staging: "@
            + entry.source@ + ".task-googlecloud-"@ + mark);
    }
}

/// The object ends in a mark, as temporary names do.
pub open spec fn ends_in_a_mark(name: ObjectPathView) -> bool {
    exists|base: Seq<char>, mark: Seq<char>| #[trigger]
        is_mark(mark) && name.object == #[trigger] (base + ".task-googlecloud-"@) + mark
}

/// The texts name the objects, each once, and nothing else is there. Their NFC forms
/// are in NFC, and neither the objects nor the NFC forms end in a mark.
pub open spec fn lists<T>(names: Seq<Seq<char>>, objects: Map<ObjectPathView, T>) -> bool {
    &&& forall|i: int|
        0 <= i < names.len() ==> exists|path: ObjectPathView| #[trigger]
            objects.contains_key(path) && object_path::names_object(
                #[trigger] names[i],
                path.bucket,
                path.object,
            )
    &&& forall|path: ObjectPathView| #[trigger]
        objects.contains_key(path) ==> exists|i: int|
            0 <= i < names.len() && object_path::names_object(
                #[trigger] names[i],
                path.bucket,
                path.object,
            )
    &&& forall|i: int, j: int|
        0 <= i < j < names.len() ==> #[trigger] names[i] != #[trigger] names[j]
    &&& forall|i: int|
        0 <= i < names.len() ==> normalization_plan::nfc(
            normalization_plan::nfc(#[trigger] names[i]),
        ) == normalization_plan::nfc(names[i])
    &&& forall|path: ObjectPathView| #[trigger]
        objects.contains_key(path) ==> !ends_in_a_mark(path)
    &&& forall|i: int, path: ObjectPathView|
        0 <= i < names.len() && object_path::names_object(
            normalization_plan::nfc(#[trigger] names[i]),
            path.bucket,
            path.object,
        ) ==> !(#[trigger] ends_in_a_mark(path))
}

/// The object of a name stands under the NFC form of that name.
pub open spec fn stands_normalized<T>(
    name: Seq<char>,
    before: Map<ObjectPathView, T>,
    after: Map<ObjectPathView, T>,
) -> bool {
    exists|path: ObjectPathView, target: ObjectPathView|
        {
            &&& #[trigger] before.contains_key(path)
            &&& object_path::names_object(name, path.bucket, path.object)
            &&& #[trigger] after.contains_key(target)
            &&& object_path::names_object(
                normalization_plan::nfc(name),
                target.bucket,
                target.object,
            )
            &&& after[target] == before[path]
        }
}

/// After a successful normalization every listed object stands under the NFC form of
/// its name, with the content that it had, and no other object is there.
pub proof fn a_normalized_bucket_holds_every_object_under_its_nfc_name<T>(
    names: Seq<Seq<char>>,
    calls: Seq<Call>,
    objects: Map<ObjectPathView, T>,
    content: spec_fn(Seq<char>) -> T,
)
    requires
        normalize::names_normalized(names, calls, Ok(())),
        lists(names, objects),
    ensures
        ({
            let left = transaction_laws::after(objects, restoration_laws::effects(calls, content));
            &&& forall|i: int|
                0 <= i < names.len() ==> stands_normalized(#[trigger] names[i], objects, left)
            &&& forall|path: ObjectPathView| #[trigger]
                left.contains_key(path) ==> exists|i: int|
                    0 <= i < names.len() && object_path::names_object(
                        normalization_plan::nfc(#[trigger] names[i]),
                        path.bucket,
                        path.object,
                    )
        }),
{
    let (entries, moves) = the_moves(names, calls);
    let left = transaction_laws::after(objects, restoration_laws::effects(calls, content));
    the_moves_are_made(names, entries, moves, calls, objects, content);
    assert forall|i: int| 0 <= i < names.len() implies stands_normalized(
        #[trigger] names[i],
        objects,
        left,
    ) by {
        one_stands_normalized(names, entries, moves, objects, left, i);
    }
    assert forall|path: ObjectPathView| #[trigger] left.contains_key(path) implies exists|i: int|
        0 <= i < names.len() && object_path::names_object(
            normalization_plan::nfc(#[trigger] names[i]),
            path.bucket,
            path.object,
        ) by {
        nothing_else_stands(names, entries, moves, objects, left, path);
    }
}

/// The objects were moved as the moves say, and no others.
spec fn moved<T>(
    moves: Seq<PlannedMove>,
    objects: Map<ObjectPathView, T>,
    left: Map<ObjectPathView, T>,
) -> bool {
    &&& forall|k: int|
        0 <= k < moves.len() ==> {
            &&& left.contains_key((#[trigger] moves[k]).target@)
            &&& left[moves[k].target@] == objects[moves[k].source@]
            &&& !left.contains_key(moves[k].source@)
        }
    &&& forall|name: ObjectPathView|
        (forall|k: int|
            0 <= k < moves.len() ==> (#[trigger] moves[k]).target@ != name && moves[k].source@
                != name) ==> {
            &&& #[trigger] left.contains_key(name) == objects.contains_key(name)
            &&& objects.contains_key(name) ==> left[name] == objects[name]
        }
}

proof fn the_moves(names: Seq<Seq<char>>, calls: Seq<Call>) -> (found: (
    Seq<Entry>,
    Seq<PlannedMove>,
))
    requires
        normalize::names_normalized(names, calls, Ok(())),
    ensures
        follow(names, found.0, found.1),
        normalize::moves_made(found.1, calls, Ok(())),
{
    let entries = choose|entries: Seq<Entry>|
        {
            &&& #[trigger] normalization_plan::entries_of(names, entries)
            &&& forall|text: Seq<char>| !#[trigger] normalization_plan::collides(names, text)
            &&& exists|moves: Seq<PlannedMove>|
                {
                    &&& moves.len() == normalize::changing(entries).len()
                    &&& forall|i: int|
                        0 <= i < moves.len() ==> normalize::is_move_of(
                            normalize::changing(entries)[i],
                            #[trigger] moves[i],
                        )
                    &&& #[trigger] normalize::moves_made(moves, calls, Ok(()))
                }
        };
    let moves = choose|moves: Seq<PlannedMove>|
        {
            &&& moves.len() == normalize::changing(entries).len()
            &&& forall|i: int|
                0 <= i < moves.len() ==> normalize::is_move_of(
                    normalize::changing(entries)[i],
                    #[trigger] moves[i],
                )
            &&& #[trigger] normalize::moves_made(moves, calls, Ok(()))
        };
    let wanted = wanted_of(entries);
    the_changing_entries(entries);
    assert forall|k: int| 0 <= k < moves.len() implies moves_between(
        #[trigger] moves[k],
        wanted[k].source@,
        wanted[k].target@,
    ) by {
        a_move_moves(wanted[k], moves[k]);
    }
    (entries, moves)
}

proof fn the_moves_are_made<T>(
    names: Seq<Seq<char>>,
    entries: Seq<Entry>,
    moves: Seq<PlannedMove>,
    calls: Seq<Call>,
    objects: Map<ObjectPathView, T>,
    content: spec_fn(Seq<char>) -> T,
)
    requires
        follow(names, entries, moves),
        lists(names, objects),
        normalize::moves_made(moves, calls, Ok(())),
    ensures
        moved(
            moves,
            objects,
            transaction_laws::after(objects, restoration_laws::effects(calls, content)),
        ),
{
    let plan = normalize::move_plan(moves);
    assert(forall|i: int| 0 <= i < plan.len() ==> (#[trigger] plan[i]) is Move);
    plan_of_moves(plan);
    moves_are_apart(names, entries, moves, objects);
    restoration_laws::a_completed_transaction_makes_every_change(
        false,
        plan,
        calls,
        objects,
        content,
    );
    let left = transaction_laws::after(objects, restoration_laws::effects(calls, content));
    assert forall|k: int| 0 <= k < moves.len() implies {
        &&& left.contains_key((#[trigger] moves[k]).target@)
        &&& left[moves[k].target@] == objects[moves[k].source@]
        &&& !left.contains_key(moves[k].source@)
    } by {
        assert(restoration_laws::destination(plan[k]) == moves[k].target@);
        assert(restoration_laws::origin(plan[k]) == moves[k].source@);
    }
    assert forall|name: ObjectPathView|
        (forall|k: int|
            0 <= k < moves.len() ==> (#[trigger] moves[k]).target@ != name && moves[k].source@
                != name) implies {
        &&& #[trigger] left.contains_key(name) == objects.contains_key(name)
        &&& objects.contains_key(name) ==> left[name] == objects[name]
    } by {
        assert forall|k: int| 0 <= k < plan.len() implies restoration_laws::destination(
            #[trigger] plan[k],
        ) != name && restoration_laws::origin(plan[k]) != name by {
            assert(moves[k].target@ != name && moves[k].source@ != name);
        }
        assert(restoration_laws::no_name_of(plan, name));
    }
}

proof fn one_stands_normalized<T>(
    names: Seq<Seq<char>>,
    entries: Seq<Entry>,
    moves: Seq<PlannedMove>,
    objects: Map<ObjectPathView, T>,
    left: Map<ObjectPathView, T>,
    i: int,
)
    requires
        follow(names, entries, moves),
        lists(names, objects),
        moved(moves, objects, left),
        0 <= i < names.len(),
    ensures
        stands_normalized(names[i], objects, left),
{
    let wanted = wanted_of(entries);
    let path = choose|path: ObjectPathView| #[trigger]
        objects.contains_key(path) && object_path::names_object(
            names[i],
            path.bucket,
            path.object,
        );
    assert(entries[i].source@ == names[i]);
    assert(normalization_plan::targets_of(names)[i] == normalization_plan::nfc(names[i]));
    if changes(entries[i]) {
        the_changing_entries(entries);
        let k = choose|k: int| 0 <= k < wanted.len() && #[trigger] wanted[k] == entries[i];
        assert(moves_between(moves[k], wanted[k].source@, wanted[k].target@));
        let source = moves[k].source@;
        object_path::a_text_names_one_object(
            names[i],
            path.bucket,
            path.object,
            names[i],
            source.bucket,
            source.object,
        );
        assert(source == path);
        assert(left.contains_key(moves[k].target@));
    } else {
        assert forall|k: int| 0 <= k < moves.len() implies (#[trigger] moves[k]).target@ != path
            && moves[k].source@ != path by {
            an_unchanged_name_is_apart(names, entries, moves, i, k, path);
        }
        assert(left.contains_key(path) == objects.contains_key(path));
    }
}

proof fn nothing_else_stands<T>(
    names: Seq<Seq<char>>,
    entries: Seq<Entry>,
    moves: Seq<PlannedMove>,
    objects: Map<ObjectPathView, T>,
    left: Map<ObjectPathView, T>,
    path: ObjectPathView,
)
    requires
        follow(names, entries, moves),
        lists(names, objects),
        moved(moves, objects, left),
        left.contains_key(path),
    ensures
        exists|i: int|
            0 <= i < names.len() && object_path::names_object(
                normalization_plan::nfc(#[trigger] names[i]),
                path.bucket,
                path.object,
            ),
{
    let wanted = wanted_of(entries);
    if exists|k: int|
        0 <= k < moves.len() && ((#[trigger] moves[k]).target@ == path || moves[k].source@
            == path) {
        let k = choose|k: int|
            0 <= k < moves.len() && ((#[trigger] moves[k]).target@ == path || moves[k].source@
                == path);
        assert(!left.contains_key(moves[k].source@));
        assert(moves_between(moves[k], wanted[k].source@, wanted[k].target@));
        let i = place_of(names, entries, k);
        assert(object_path::names_object(
            normalization_plan::nfc(names[i]),
            path.bucket,
            path.object,
        ));
    } else {
        assert(left.contains_key(path) == objects.contains_key(path));
        let i = choose|i: int|
            0 <= i < names.len() && object_path::names_object(
                #[trigger] names[i],
                path.bucket,
                path.object,
            );
        assert(entries[i].source@ == names[i]);
        assert(normalization_plan::targets_of(names)[i] == normalization_plan::nfc(names[i]));
        if changes(entries[i]) {
            the_changing_entries(entries);
            let k = choose|k: int| 0 <= k < wanted.len() && #[trigger] wanted[k] == entries[i];
            assert(moves_between(moves[k], wanted[k].source@, wanted[k].target@));
            let source = moves[k].source@;
            object_path::a_text_names_one_object(
                names[i],
                path.bucket,
                path.object,
                names[i],
                source.bucket,
                source.object,
            );
        }
    }
}

/// Every wanted entry is an entry, and no two of them are the same one.
proof fn wanted_entries(plan: Seq<Entry>)
    ensures
        forall|k: int|
            0 <= k < wanted_of(plan).len() ==> exists|i: int|
                0 <= i < plan.len() && (#[trigger] wanted_of(plan)[k]) == #[trigger] plan[i]
                    && changes(plan[i]),
        forall|k: int, l: int|
            0 <= k < l < wanted_of(plan).len() ==> exists|i: int, j: int|
                0 <= i < j < plan.len() && (#[trigger] wanted_of(plan)[k]) == #[trigger] plan[i] && (
                #[trigger] wanted_of(plan)[l]) == #[trigger] plan[j],
    decreases plan.len(),
{
    reveal(Seq::filter);
    if plan.len() > 0 {
        let shorter = plan.drop_last();
        wanted_entries(shorter);
        let earlier = wanted_of(shorter);
        let whole = wanted_of(plan);
        assert forall|k: int| 0 <= k < whole.len() implies exists|i: int|
            0 <= i < plan.len() && (#[trigger] whole[k]) == #[trigger] plan[i] && changes(
                plan[i],
            ) by {
            if k < earlier.len() {
                assert(whole[k] == earlier[k]);
                let i = choose|i: int|
                    0 <= i < shorter.len() && earlier[k] == #[trigger] shorter[i] && changes(
                        shorter[i],
                    );
                assert(plan[i] == shorter[i]);
            } else {
                assert(whole[k] == plan[plan.len() - 1]);
            }
        }
        assert forall|k: int, l: int| 0 <= k < l < whole.len() implies exists|i: int, j: int|
            0 <= i < j < plan.len() && (#[trigger] whole[k]) == #[trigger] plan[i] && (
            #[trigger] whole[l]) == #[trigger] plan[j] by {
            assert(whole[k] == earlier[k]);
            if l < earlier.len() {
                assert(whole[l] == earlier[l]);
                let (i, j) = choose|i: int, j: int|
                    0 <= i < j < shorter.len() && earlier[k] == #[trigger] shorter[i] && earlier[l]
                        == #[trigger] shorter[j];
                assert(plan[i] == shorter[i] && plan[j] == shorter[j]);
            } else {
                let i = choose|i: int|
                    0 <= i < shorter.len() && earlier[k] == #[trigger] shorter[i] && changes(
                        shorter[i],
                    );
                assert(plan[i] == shorter[i]);
                assert(whole[l] == plan[plan.len() - 1]);
            }
        }
    }
}

proof fn plan_of_moves(plan: Seq<PlannedView>)
    requires
        forall|i: int| 0 <= i < plan.len() ==> (#[trigger] plan[i]) is Move,
    ensures
        restoration_laws::changes_of(plan) == plan,
    decreases plan.len(),
{
    if plan.len() > 0 {
        let shorter = plan.drop_last();
        assert forall|i: int| 0 <= i < shorter.len() implies (#[trigger] shorter[i]) is Move by {
            assert(shorter[i] == plan[i]);
        }
        plan_of_moves(shorter);
        assert(plan.last() == plan[plan.len() - 1]);
        assert(shorter.push(plan.last()) =~= plan);
    }
}

/// The moves follow from the entries of the listed names.
spec fn follow(names: Seq<Seq<char>>, entries: Seq<Entry>, moves: Seq<PlannedMove>) -> bool {
    let wanted = wanted_of(entries);
    &&& normalization_plan::entries_of(names, entries)
    &&& forall|text: Seq<char>| !#[trigger] normalization_plan::collides(names, text)
    &&& moves.len() == wanted.len()
    &&& forall|k: int|
        0 <= k < moves.len() ==> moves_between(
            #[trigger] moves[k],
            wanted[k].source@,
            wanted[k].target@,
        )
}

/// The entry of a wanted move.
proof fn place_of(names: Seq<Seq<char>>, entries: Seq<Entry>, k: int) -> (i: int)
    requires
        normalization_plan::entries_of(names, entries),
        0 <= k < wanted_of(entries).len(),
    ensures
        0 <= i < names.len(),
        wanted_of(entries)[k] == entries[i],
        entries[i].source@ == names[i],
        entries[i].target@ == normalization_plan::nfc(names[i]),
        names[i] != normalization_plan::nfc(names[i]),
{
    wanted_entries(entries);
    let i = choose|i: int|
        0 <= i < entries.len() && wanted_of(entries)[k] == #[trigger] entries[i] && changes(
            entries[i],
        );
    assert(normalization_plan::targets_of(names)[i] == normalization_plan::nfc(names[i]));
    i
}

/// An object whose name stays is neither the source nor the target of a move.
proof fn an_unchanged_name_is_apart(
    names: Seq<Seq<char>>,
    entries: Seq<Entry>,
    moves: Seq<PlannedMove>,
    i: int,
    k: int,
    path: ObjectPathView,
)
    requires
        follow(names, entries, moves),
        0 <= i < names.len(),
        !changes(entries[i]),
        0 <= k < moves.len(),
        object_path::names_object(names[i], path.bucket, path.object),
    ensures
        moves[k].source@ != path,
        moves[k].target@ != path,
{
    let wanted = wanted_of(entries);
    let j = place_of(names, entries, k);
    assert(entries[i].source@ == names[i]);
    assert(normalization_plan::targets_of(names)[i] == normalization_plan::nfc(names[i]));
    assert(moves_between(moves[k], wanted[k].source@, wanted[k].target@));
    let source = moves[k].source@;
    let target = moves[k].target@;
    object_path::a_text_names_one_object(
        names[i],
        path.bucket,
        path.object,
        names[j],
        source.bucket,
        source.object,
    );
    object_path::a_text_names_one_object(
        names[i],
        path.bucket,
        path.object,
        normalization_plan::nfc(names[j]),
        target.bucket,
        target.object,
    );
    if target == path {
        two_targets_differ(names, entries, i, j);
    }
}

proof fn two_targets_differ(names: Seq<Seq<char>>, entries: Seq<Entry>, i: int, j: int)
    requires
        normalization_plan::entries_of(names, entries),
        forall|text: Seq<char>| !#[trigger] normalization_plan::collides(names, text),
        0 <= i < names.len(),
        0 <= j < names.len(),
        i != j,
    ensures
        normalization_plan::nfc(names[i]) != normalization_plan::nfc(names[j]),
{
    let targets = normalization_plan::targets_of(names);
    assert(targets[i] == normalization_plan::nfc(names[i]));
    assert(targets[j] == normalization_plan::nfc(names[j]));
    if i < j {
        normalization_plan::accepted_targets_differ(names, entries, i, j);
    } else {
        normalization_plan::accepted_targets_differ(names, entries, j, i);
    }
}

proof fn a_temporary_ends_in_a_mark(planned: PlannedMove, source: Seq<char>, target: Seq<char>)
    requires
        moves_between(planned, source, target),
    ensures
        ends_in_a_mark(planned.temporary@),
        planned.temporary.object@.len() == planned.source.object@.len() + 50,
        planned.temporary.object@.take(planned.source.object@.len() as int)
            == planned.source.object@,
{
    let mark = choose|mark: Seq<char>| #[trigger]
        is_mark(mark) && planned.temporary.object@ == planned.source.object@
            + ".task-googlecloud-"@ + mark;
    reveal_strlit(".task-googlecloud-");
    let base = planned.source.object@;
    assert(is_mark(mark) && planned.temporary@.object == (base + ".task-googlecloud-"@) + mark);
    assert(planned.temporary.object@.take(base.len() as int) =~= base);
}

proof fn moves_are_apart<T>(
    names: Seq<Seq<char>>,
    entries: Seq<Entry>,
    moves: Seq<PlannedMove>,
    objects: Map<ObjectPathView, T>,
)
    requires
        follow(names, entries, moves),
        lists(names, objects),
    ensures
        restoration_laws::names_apart(false, objects, normalize::move_plan(moves)),
{
    let plan = normalize::move_plan(moves);
    let wanted = wanted_of(entries);
    assert forall|k: int| 0 <= k < plan.len() implies {
        &&& objects.contains_key(restoration_laws::origin(#[trigger] plan[k]))
        &&& !objects.contains_key(restoration_laws::stop(plan[k]))
        &&& !objects.contains_key(restoration_laws::destination(plan[k]))
    } by {
        let i = place_of(names, entries, k);
        let planned = moves[k];
        assert(moves_between(planned, wanted[k].source@, wanted[k].target@));
        a_temporary_ends_in_a_mark(planned, wanted[k].source@, wanted[k].target@);
        let path = choose|path: ObjectPathView| #[trigger]
            objects.contains_key(path) && object_path::names_object(
                names[i],
                path.bucket,
                path.object,
            );
        object_path::a_text_names_one_object(
            names[i],
            path.bucket,
            path.object,
            names[i],
            planned.source@.bucket,
            planned.source@.object,
        );
        assert(path == planned.source@);
        if objects.contains_key(planned.target@) {
            let j = choose|j: int|
                0 <= j < names.len() && object_path::names_object(
                    #[trigger] names[j],
                    planned.target@.bucket,
                    planned.target@.object,
                );
            object_path::a_text_names_one_object(
                names[j],
                planned.target@.bucket,
                planned.target@.object,
                normalization_plan::nfc(names[i]),
                planned.target@.bucket,
                planned.target@.object,
            );
            assert(normalization_plan::nfc(names[j]) == normalization_plan::nfc(names[i]));
            two_targets_differ(names, entries, i, j);
        }
    }
    assert forall|k: int, l: int| 0 <= k < l < plan.len() implies {
        &&& restoration_laws::origin(#[trigger] plan[k]) != restoration_laws::origin(
            #[trigger] plan[l],
        )
        &&& restoration_laws::stop(plan[k]) != restoration_laws::stop(plan[l])
        &&& restoration_laws::destination(plan[k]) != restoration_laws::destination(plan[l])
    } by {
        wanted_entries(entries);
        let (i, j) = choose|i: int, j: int|
            0 <= i < j < entries.len() && wanted[k] == #[trigger] entries[i] && wanted[l]
                == #[trigger] entries[j];
        let targets = normalization_plan::targets_of(names);
        assert(targets[i] == normalization_plan::nfc(names[i]));
        assert(targets[j] == normalization_plan::nfc(names[j]));
        assert(names[i] != names[j]);
        two_targets_differ(names, entries, i, j);
        assert(moves_between(moves[k], wanted[k].source@, wanted[k].target@));
        assert(moves_between(moves[l], wanted[l].source@, wanted[l].target@));
        a_temporary_ends_in_a_mark(moves[k], wanted[k].source@, wanted[k].target@);
        a_temporary_ends_in_a_mark(moves[l], wanted[l].source@, wanted[l].target@);
        object_path::a_text_names_one_object(
            names[i],
            moves[k].source@.bucket,
            moves[k].source@.object,
            names[j],
            moves[l].source@.bucket,
            moves[l].source@.object,
        );
        object_path::a_text_names_one_object(
            normalization_plan::nfc(names[i]),
            moves[k].target@.bucket,
            moves[k].target@.object,
            normalization_plan::nfc(names[j]),
            moves[l].target@.bucket,
            moves[l].target@.object,
        );
    }
    assert forall|k: int, l: int|
        0 <= k < plan.len() && 0 <= l < plan.len() implies restoration_laws::stop(
        #[trigger] plan[k],
    ) != restoration_laws::destination(#[trigger] plan[l]) by {
        let j = place_of(names, entries, l);
        assert(moves_between(moves[k], wanted[k].source@, wanted[k].target@));
        assert(moves_between(moves[l], wanted[l].source@, wanted[l].target@));
        a_temporary_ends_in_a_mark(moves[k], wanted[k].source@, wanted[k].target@);
        assert(object_path::names_object(
            normalization_plan::nfc(names[j]),
            moves[l].target@.bucket,
            moves[l].target@.object,
        ));
        assert(!ends_in_a_mark(moves[l].target@));
    }
}


/// The buckets of moves are those of their sources, targets and temporary names, move
/// after move.
pub proof fn every_bucket_of_a_move_is_named(left: Seq<PlannedMove>, right: Seq<PlannedMove>)
    ensures
        normalize::buckets_of(left + right) == normalize::buckets_of(left) + normalize::buckets_of(
            right,
        ),
        left.len() == 1 ==> normalize::buckets_of(left) == seq![
            left[0].source.bucket@,
            left[0].target.bucket@,
            left[0].temporary.bucket@,
        ],
        left.len() == 0 ==> normalize::buckets_of(left).len() == 0,
    decreases right.len(),
{
    if left.len() == 1 {
        assert(left.drop_last() =~= Seq::empty());
        assert(normalize::buckets_of(left.drop_last()).len() == 0);
        assert(normalize::buckets_of(left) =~= seq![
            left[0].source.bucket@,
            left[0].target.bucket@,
            left[0].temporary.bucket@,
        ]);
    }
    if right.len() == 0 {
        assert(left + right =~= left);
        assert(normalize::buckets_of(left) + normalize::buckets_of(right)
            =~= normalize::buckets_of(left));
    } else {
        every_bucket_of_a_move_is_named(left, right.drop_last());
        assert((left + right).drop_last() =~= left + right.drop_last());
        assert((left + right).last() == right.last());
        assert(normalize::buckets_of(left + right) =~= normalize::buckets_of(left)
            + normalize::buckets_of(right));
    }
}

/// A collision lists the names that two sources would get, each once, in order, and no
/// others.
pub proof fn a_collision_lists_what_collides(names: Seq<Seq<char>>, error: AppError)
    requires
        normalization_plan::names_collisions(names, error),
    ensures
        exists|texts: Seq<Seq<char>>|
            {
                &&& error matches AppError::Collision(list) && list@ == #[trigger] text::joined(
                    texts,
                    ", "@,
                )
                &&& texts.len() > 0
                &&& forall|i: int, j: int|
                    0 <= i < j < texts.len() ==> #[trigger] text::before(texts[i], texts[j])
                &&& forall|text: Seq<char>| #[trigger]
                    texts.contains(text) <==> exists|i: int, j: int|
                        {
                            &&& 0 <= i < j < names.len()
                            &&& normalization_plan::nfc(#[trigger] names[i]) == text
                            &&& normalization_plan::nfc(#[trigger] names[j]) == text
                        }
            },
{
    let targets = normalization_plan::targets_of(names);
    let texts = choose|texts: Seq<Seq<char>>|
        {
            &&& #[trigger] normalization_plan::repetitions(targets, texts)
            &&& texts.len() > 0
            &&& error->Collision_0@ == text::joined(texts, ", "@)
        };
    assert forall|text: Seq<char>| #[trigger]
        texts.contains(text) <==> exists|i: int, j: int|
            {
                &&& 0 <= i < j < names.len()
                &&& normalization_plan::nfc(#[trigger] names[i]) == text
                &&& normalization_plan::nfc(#[trigger] names[j]) == text
            } by {
        if texts.contains(text) {
            let (i, j) = choose|i: int, j: int|
                0 <= i < j < targets.len() && #[trigger] targets[i] == text && #[trigger] targets[j]
                    == text;
            assert(normalization_plan::nfc(names[i]) == text && normalization_plan::nfc(names[j])
                == text);
        }
        if exists|i: int, j: int|
            {
                &&& 0 <= i < j < names.len()
                &&& normalization_plan::nfc(#[trigger] names[i]) == text
                &&& normalization_plan::nfc(#[trigger] names[j]) == text
            } {
            let (i, j) = choose|i: int, j: int|
                {
                    &&& 0 <= i < j < names.len()
                    &&& normalization_plan::nfc(#[trigger] names[i]) == text
                    &&& normalization_plan::nfc(#[trigger] names[j]) == text
                };
            assert(targets[i] == text && targets[j] == text);
            assert(normalization_plan::repeats(targets, text));
        }
    }
    assert(error->Collision_0@ == text::joined(texts, ", "@));
}

/// The name changes but cannot be moved: it or its NFC form names no object, or is too
/// long.
pub open spec fn is_stuck(name: Seq<char>) -> bool {
    &&& normalization_plan::nfc(name) != name
    &&& !(names_within(name, 974) && names_within(normalization_plan::nfc(name), 1024))
}

/// The normalization of listed names fails only where two of them have the same NFC form,
/// where one that changes cannot be moved, or where a call fails or an interrupt is seen.
pub proof fn a_normalization_fails_only_for_a_reason(
    names: Seq<Seq<char>>,
    calls: Seq<Call>,
    result: Result<(), AppError>,
)
    requires
        normalize::names_normalized(names, calls, result),
        forall|i: int, j: int|
            0 <= i < j < names.len() ==> normalization_plan::nfc(#[trigger] names[i])
                != normalization_plan::nfc(#[trigger] names[j]),
        forall|i: int| 0 <= i < names.len() ==> !is_stuck(#[trigger] names[i]),
        forall|i: int| 0 <= i < calls.len() ==> change_laws::is_good(#[trigger] calls[i]),
    ensures
        result is Ok,
{
    if let Err(error) = result {
        if normalization_plan::names_collisions(names, error) && calls.len() == 0 {
            a_collision_lists_what_collides(names, error);
            let texts = choose|texts: Seq<Seq<char>>|
                {
                    &&& error matches AppError::Collision(list) && list@ == #[trigger] text::joined(
                        texts,
                        ", "@,
                    )
                    &&& texts.len() > 0
                    &&& forall|i: int, j: int|
                        0 <= i < j < texts.len() ==> #[trigger] text::before(texts[i], texts[j])
                    &&& forall|text: Seq<char>| #[trigger]
                        texts.contains(text) <==> exists|i: int, j: int|
                            {
                                &&& 0 <= i < j < names.len()
                                &&& normalization_plan::nfc(#[trigger] names[i]) == text
                                &&& normalization_plan::nfc(#[trigger] names[j]) == text
                            }
                };
            assert(texts.contains(texts[0]));
        } else {
            planned_moves_fail_only_for_a_reason(names, calls, error);
        }
    }
}

proof fn planned_moves_fail_only_for_a_reason(
    names: Seq<Seq<char>>,
    calls: Seq<Call>,
    error: AppError,
)
    requires
        normalize::names_normalized(names, calls, Err(error)),
        !(normalization_plan::names_collisions(names, error) && calls.len() == 0),
    ensures
        ({
            ||| exists|i: int| 0 <= i < names.len() && is_stuck(#[trigger] names[i])
            ||| exists|i: int| 0 <= i < calls.len() && !change_laws::is_good(#[trigger] calls[i])
        }),
{
    let entries = choose|entries: Seq<Entry>|
        {
            &&& #[trigger] normalization_plan::entries_of(names, entries)
            &&& {
                ||| normalize::fails_at_first(normalize::changing(entries), error) && calls.len()
                    == 0
                ||| exists|moves: Seq<PlannedMove>|
                    {
                        &&& moves.len() == normalize::changing(entries).len()
                        &&& forall|i: int|
                            0 <= i < moves.len() ==> normalize::is_move_of(
                                normalize::changing(entries)[i],
                                #[trigger] moves[i],
                            )
                        &&& #[trigger] normalize::moves_made(moves, calls, Err(error))
                    }
            }
        };
    the_changing_entries(entries);
    let wanted = wanted_of(entries);
    if normalize::fails_at_first(normalize::changing(entries), error) && calls.len() == 0 {
        let k = choose|k: int|
            {
                &&& 0 <= k < wanted.len()
                &&& normalize::is_unmovable(#[trigger] wanted[k], error)
                &&& forall|l: int| 0 <= l < k ==> normalize::is_movable(#[trigger] wanted[l])
            };
        an_unmovable_entry_tells_why(wanted[k], error);
        let i = place_of(names, entries, k);
        assert(is_stuck(names[i]));
    } else if forall|i: int| 0 <= i < calls.len() ==> change_laws::is_good(#[trigger] calls[i]) {
        let moves = choose|moves: Seq<PlannedMove>|
            {
                &&& moves.len() == normalize::changing(entries).len()
                &&& forall|i: int|
                    0 <= i < moves.len() ==> normalize::is_move_of(
                        normalize::changing(entries)[i],
                        #[trigger] moves[i],
                    )
                &&& #[trigger] normalize::moves_made(moves, calls, Err(error))
            };
        let plan = normalize::move_plan(moves);
        assert(forall|i: int| 0 <= i < plan.len() ==> (#[trigger] plan[i]) is Move);
        let ended = RunStepView::start(false, plan).after(calls)->0;
        change_laws::a_transaction_without_failures_succeeds(
            false,
            plan,
            calls,
            ended->Done_0,
            ended->Done_1,
        );
    }
}


/// Every path triple is one move, with its own source, target and temporary name, in
/// order.
pub proof fn every_triple_is_one_move(
    paths: Seq<(ObjectPath, ObjectPath, ObjectPath)>,
    moves: Seq<PlannedMove>,
)
    requires
        normalize::planned_from(paths, moves),
    ensures
        moves.len() == paths.len(),
        forall|i: int|
            0 <= i < moves.len() ==> (#[trigger] moves[i]).source == paths[i].0 && moves[i].target
                == paths[i].1 && moves[i].temporary == paths[i].2,
{
}

} // verus!
