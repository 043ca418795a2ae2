//! Giving every object of a bucket its NFC name.
use vstd::prelude::*;

use crate::error::AppError;
use crate::interrupt::InterruptFlag;
use crate::naming_laws;
use crate::normalization_plan;
use crate::normalization_plan::Entry;
use crate::object_path;
use crate::object_path::ObjectPath;
use crate::object_path::ObjectPathView;
use crate::object_path::MAX_OBJECT_NAME_BYTES;
use crate::remote_run;
use crate::remote_run::Planned;
use crate::remote_run::PlannedView;
use crate::remote_run::RunStepView;
use crate::session;
use crate::session::Asked;
use crate::session::Call;
use crate::session::Session;
use crate::session::Told;
use crate::storage;
use crate::storage::StorageClient;
use crate::text;
use crate::unique_name;

verus! {

const TEMPORARY_SUFFIX_PREFIX: &'static str = ".task-googlecloud-";

/// The size of a temporary suffix.
pub const TEMPORARY_SUFFIX_BYTES: usize = 50;

/// One move, by way of a temporary name.
#[derive(Debug)]
pub struct PlannedMove {
    pub source: ObjectPath,
    pub target: ObjectPath,
    pub temporary: ObjectPath,
}

/// The suffix of a temporary name: a fixed mark and a unique token.
pub open spec fn is_temporary_suffix(suffix: Seq<char>) -> bool {
    exists|token: Seq<char>| #[trigger]
        unique_name::is_token(token) && suffix == ".task-googlecloud-"@ + token
}

/// A suffix that no other run uses.
pub fn temporary_suffix() -> (suffix: String)
    ensures
        is_temporary_suffix(suffix@),
        vstd::utf8::encode_utf8(suffix@).len() == TEMPORARY_SUFFIX_BYTES,
{
    let token = unique_name::fresh_token();
    let suffix = TEMPORARY_SUFFIX_PREFIX.to_string().concat(token.as_str());
    proof {
        reveal_strlit(".task-googlecloud-");
        assert(unique_name::is_token(token@) && suffix@ == ".task-googlecloud-"@ + token@);
        assert(vstd::utf8::is_ascii_chars(suffix@)) by {
            assert forall|i: int| 0 <= i < suffix@.len() implies '\0' <= #[trigger] suffix@[i]
                <= '\u{7f}' by {
                if i >= 18 {
                    assert(suffix@[i] == token@[i - 18]);
                    assert(unique_name::lower_hex(token@[i - 18]));
                }
            }
        }
        vstd::utf8::is_ascii_chars_encode_utf8(suffix@);
    }
    suffix
}

/// The object under its own name with the suffix appended.
pub open spec fn suffixed(source: ObjectPathView, suffix: Seq<char>) -> ObjectPathView {
    ObjectPathView { bucket: source.bucket, object: source.object + suffix }
}

/// The name that an object has between its two moves. It exists where the
/// object's name leaves room for the suffix.
pub fn temporary_path(source: &ObjectPath) -> (temporary: Result<ObjectPath, AppError>)
    ensures
        match temporary {
            Ok(path) => {
                &&& source@.name_bytes() + TEMPORARY_SUFFIX_BYTES <= MAX_OBJECT_NAME_BYTES
                &&& is_temporary_of(source@, path@)
            },
            Err(error) => {
                &&& source@.name_bytes() + TEMPORARY_SUFFIX_BYTES > MAX_OBJECT_NAME_BYTES
                &&& overflows_staging(source@, error)
            },
        },
{
    let suffix = temporary_suffix();
    proof {
        text::encoding_of_both(source.object@, suffix@);
        assert(is_temporary_suffix(suffix@));
    }
    suffixed_path(source, suffix.as_str())
}

/// The name of an object with a suffix, where Cloud Storage can take it.
pub fn suffixed_path(source: &ObjectPath, suffix: &str) -> (path: Result<ObjectPath, AppError>)
    ensures
        ({
            let whole = suffixed(source@, suffix@);
            match path {
                Ok(path) => path@ == whole && whole.name_bytes() <= MAX_OBJECT_NAME_BYTES,
                Err(error) => whole.name_bytes() > MAX_OBJECT_NAME_BYTES && object_path::too_long(
                    error,
                    whole,
                    "temporary staging"@,
                ),
            }
        }),
{
    let path = ObjectPath::from_parts(
        source.bucket.as_str(),
        source.object.clone().concat(suffix).as_str(),
    );
    assert(path@ == suffixed(source@, suffix@));
    match path.validate_name_length("temporary staging") {
        Ok(()) => Ok(path),
        Err(error) => Err(error),
    }
}

/// The path is a temporary name of the source.
pub open spec fn is_temporary_of(source: ObjectPathView, path: ObjectPathView) -> bool {
    exists|suffix: Seq<char>| #[trigger]
        is_temporary_suffix(suffix) && path == suffixed(source, suffix)
}

/// The error for a name that leaves no room for a temporary suffix.
pub open spec fn overflows_staging(source: ObjectPathView, error: AppError) -> bool {
    exists|suffix: Seq<char>| #[trigger]
        is_temporary_suffix(suffix) && object_path::too_long(
            error,
            suffixed(source, suffix),
            "temporary staging"@,
        )
}

/// The move that an entry asks for.
pub open spec fn is_move_of(entry: Entry, planned: PlannedMove) -> bool {
    &&& planned.source@.nameable()
    &&& planned.source@.uri() == entry.source@
    &&& planned.target@.nameable()
    &&& planned.target@.uri() == entry.target@
    &&& planned.target@.name_bytes() <= MAX_OBJECT_NAME_BYTES
    &&& planned.source@.name_bytes() + TEMPORARY_SUFFIX_BYTES <= MAX_OBJECT_NAME_BYTES
    &&& is_temporary_of(planned.source@, planned.temporary@)
}

/// An entry can be moved: its names are URIs, the target's name is not too long,
/// and the source's name leaves room for a temporary suffix.
pub open spec fn is_movable(entry: Entry) -> bool {
    exists|source: ObjectPathView, target: ObjectPathView|
        {
            &&& source.nameable()
            &&& target.nameable()
            &&& #[trigger] source.uri() == entry.source@
            &&& #[trigger] target.uri() == entry.target@
            &&& target.name_bytes() <= MAX_OBJECT_NAME_BYTES
            &&& source.name_bytes() + TEMPORARY_SUFFIX_BYTES <= MAX_OBJECT_NAME_BYTES
        }
}

/// Why an entry cannot be moved: one of its names is no URI, the target's name
/// is too long, or the source's name leaves no room for a temporary suffix,
/// whichever comes first.
pub open spec fn is_unmovable(entry: Entry, error: AppError) -> bool {
    ||| not_a_uri(entry.source@, error)
    ||| is_uri(entry.source@) && not_a_uri(entry.target@, error)
    ||| is_uri(entry.source@) && exists|target: ObjectPathView|
        {
            &&& target.nameable()
            &&& #[trigger] target.uri() == entry.target@
            &&& target.name_bytes() > MAX_OBJECT_NAME_BYTES
            &&& object_path::too_long(error, target, "normalized target"@)
        }
    ||| exists|source: ObjectPathView, target: ObjectPathView|
        {
            &&& source.nameable()
            &&& target.nameable()
            &&& #[trigger] source.uri() == entry.source@
            &&& #[trigger] target.uri() == entry.target@
            &&& target.name_bytes() <= MAX_OBJECT_NAME_BYTES
            &&& source.name_bytes() + TEMPORARY_SUFFIX_BYTES > MAX_OBJECT_NAME_BYTES
            &&& overflows_staging(source, error)
        }
}

/// The text is the URI of an object.
pub open spec fn is_uri(text: Seq<char>) -> bool {
    exists|path: ObjectPathView| path.nameable() && #[trigger] path.uri() == text
}

/// The error for a text that is the URI of no object.
pub open spec fn not_a_uri(text: Seq<char>, error: AppError) -> bool {
    &&& !is_uri(text)
    &&& error matches AppError::InvalidStorageUri(uri) && uri@ == text
}

/// The entries that change a name, in order.
pub open spec fn changing(entries: Seq<Entry>) -> Seq<Entry>
    decreases entries.len(),
{
    if entries.len() == 0 {
        Seq::empty()
    } else if entries.last().source@ == entries.last().target@ {
        changing(entries.drop_last())
    } else {
        changing(entries.drop_last()).push(entries.last())
    }
}

fn plan_move(entry: &Entry) -> (planned: Result<PlannedMove, AppError>)
    ensures
        match planned {
            Ok(planned) => is_move_of(*entry, planned),
            Err(error) => is_unmovable(*entry, error),
        },
{
    let source = ObjectPath::parse(entry.source.as_str())?;
    assert(source@.nameable() && source@.uri() == entry.source@);
    let target = ObjectPath::parse(entry.target.as_str())?;
    assert(target@.nameable() && target@.uri() == entry.target@);
    target.validate_name_length("normalized target")?;
    let temporary = temporary_path(&source)?;
    Ok(PlannedMove { source, target, temporary })
}

/// The error of the first entry that cannot be moved.
pub open spec fn fails_at_first(entries: Seq<Entry>, error: AppError) -> bool {
    exists|i: int|
        {
            &&& 0 <= i < entries.len()
            &&& is_unmovable(#[trigger] entries[i], error)
            &&& forall|k: int| 0 <= k < i ==> is_movable(#[trigger] entries[k])
        }
}

/// The moves that the plan asks for: one for every entry that changes a name, in
/// order, or the error of the first that cannot be moved.
pub open spec fn plans(plan: Seq<Entry>, moves: Result<Vec<PlannedMove>, AppError>) -> bool {
    let entries = changing(plan);
    match moves {
        Ok(planned) => {
            &&& planned@.len() == entries.len()
            &&& forall|i: int|
                0 <= i < entries.len() ==> is_move_of(entries[i], #[trigger] planned@[i])
        },
        Err(error) => fails_at_first(entries, error),
    }
}

/// Plans one move for every entry that changes a name, or fails with the first
/// that cannot be moved.
pub fn plan_moves(plan: Vec<Entry>) -> (moves: Result<Vec<PlannedMove>, AppError>)
    ensures
        plans(plan@, moves),
        naming_laws::moves_every_change(plan@, moves),
{
    let mut planned: Vec<PlannedMove> = Vec::new();
    let mut i: usize = 0;
    while i < plan.len()
        invariant
            i <= plan@.len(),
            planned@.len() == changing(plan@.take(i as int)).len(),
            forall|k: int|
                0 <= k < planned@.len() ==> is_move_of(
                    changing(plan@.take(i as int))[k],
                    #[trigger] planned@[k],
                ),
        decreases plan@.len() - i,
    {
        let ghost earlier = changing(plan@.take(i as int));
        assert(plan@.take(i + 1).drop_last() =~= plan@.take(i as int));
        if !text::same_text(plan[i].source.as_str(), plan[i].target.as_str()) {
            match plan_move(&plan[i]) {
                Ok(planned_move) => {
                    planned.push(planned_move);
                },
                Err(error) => {
                    proof {
                        let entries = changing(plan@);
                        changing_prefix(plan@, i + 1);
                        let prefix = changing(plan@.take(i + 1));
                        assert(prefix == earlier.push(plan@[i as int]));
                        assert(prefix[earlier.len() as int] == entries[earlier.len() as int]);
                        assert(entries[earlier.len() as int] == plan@[i as int]);
                        assert(is_unmovable(entries[earlier.len() as int], error));
                        assert forall|k: int| 0 <= k < earlier.len() implies is_movable(
                            #[trigger] entries[k],
                        ) by {
                            assert(prefix[k] == entries[k]);
                            assert(is_move_of(earlier[k], planned@[k]));
                            let source = planned@[k].source@;
                            let target = planned@[k].target@;
                            assert(source.uri() == entries[k].source@);
                            assert(target.uri() == entries[k].target@);
                        }
                        naming_laws::every_name_that_changes_is_moved(plan@, Err(error));
                    }
                    return Err(error);
                },
            }
        }
        i += 1;
    }
    assert(plan@.take(plan@.len() as int) =~= plan@);
    proof {
        naming_laws::every_name_that_changes_is_moved(plan@, Ok(planned));
    }
    Ok(planned)
}

/// The changing entries of a prefix come first among all of them.
proof fn changing_prefix(entries: Seq<Entry>, count: int)
    requires
        0 <= count <= entries.len(),
    ensures
        changing(entries.take(count)).is_prefix_of(changing(entries)),
    decreases entries.len() - count,
{
    if count == entries.len() {
        assert(entries.take(count) =~= entries);
    } else {
        changing_prefix(entries, count + 1);
        assert(entries.take(count + 1).drop_last() =~= entries.take(count));
    }
}

/// The plan of the moves.
pub open spec fn move_plan(moves: Seq<PlannedMove>) -> Seq<PlannedView> {
    moves.map_values(|planned: PlannedMove| Planned::Move(planned)@)
}

fn plan_of(moves: &[PlannedMove]) -> (plan: Vec<Planned>)
    ensures
        remote_run::plan_views(plan@) == move_plan(moves@),
        remote_run::plannable(false, remote_run::plan_views(plan@)),
{
    let mut plan: Vec<Planned> = Vec::new();
    let mut i: usize = 0;
    assert(remote_run::plan_views(plan@) =~= move_plan(moves@).take(0));
    while i < moves.len()
        invariant
            i <= moves@.len(),
            remote_run::plan_views(plan@) == move_plan(moves@).take(i as int),
        decreases moves@.len() - i,
    {
        let ghost so_far = remote_run::plan_views(plan@);
        plan.push(
            Planned::Move(
                PlannedMove {
                    source: moves[i].source.clone(),
                    target: moves[i].target.clone(),
                    temporary: moves[i].temporary.clone(),
                },
            ),
        );
        assert(remote_run::plan_views(plan@) =~= so_far.push(Planned::Move(moves@[i as int])@));
        assert(move_plan(moves@).take(i + 1) =~= so_far.push(move_plan(moves@)[i as int]));
        i += 1;
    }
    assert(move_plan(moves@).take(moves@.len() as int) =~= move_plan(moves@));
    plan
}

/// The calls make the moves as one transaction, with the result.
pub open spec fn moves_made(
    moves: Seq<PlannedMove>,
    calls: Seq<Call>,
    result: Result<(), AppError>,
) -> bool {
    RunStepView::start(false, move_plan(moves)).gives(calls, result)
}

/// The moves are made in a session under the locks, with the result.
pub open spec fn moves_give<S: StorageClient>(
    storage: S,
    interrupt: InterruptFlag,
    held: Option<Seq<Seq<char>>>,
    moves: Seq<PlannedMove>,
    result: Result<(), AppError>,
) -> bool {
    exists|session: Session<S>|
        {
            &&& #[trigger] session.belongs(storage, Some(interrupt), held)
            &&& moves_made(moves, session.calls(), result)
        }
}

/// Moves every object to its temporary name and then to its target, and moves
/// everything back where any of it fails.
pub fn make_moves<S: StorageClient>(session: &mut Session<'_, S>, moves: &[PlannedMove]) -> (result:
    Result<(), AppError>)
    requires
        old(session).wf(),
        old(session).interrupt() is Some,
    ensures
        final(session).belongs(old(session).storage(), old(session).interrupt(), old(session).held()),
        exists|calls: Seq<Call>|
            {
                &&& final(session).calls() == old(session).calls() + calls
                &&& #[trigger] moves_made(moves@, calls, result)
            },
{
    let plan = plan_of(moves);
    let silent = |line: &str| {};
    let result = remote_run::carry_out(session, false, plan, &silent);
    proof {
        let calls = choose|calls: Seq<Call>|
            {
                &&& session.calls() == old(session).calls() + calls
                &&& #[trigger] RunStepView::start(false, move_plan(moves@)).gives(calls, result)
            };
        assert(moves_made(moves@, calls, result));
    }
    result
}

/// Makes the moves in a session of its own. The caller holds the locks.
pub fn process_moves_unlocked<S: StorageClient>(
    storage: &S,
    interrupt: &InterruptFlag,
    moves: &[PlannedMove],
) -> (result: Result<(), AppError>)
    ensures
        moves_give(*storage, *interrupt, None, moves@, result),
{
    let mut session = Session::new(storage, interrupt);
    make_moves(&mut session, moves)
}

/// The buckets that a move touches, move after move.
pub open spec fn buckets_of(moves: Seq<PlannedMove>) -> Seq<Seq<char>>
    decreases moves.len(),
{
    if moves.len() == 0 {
        Seq::empty()
    } else {
        buckets_of(moves.drop_last()) + seq![
            moves.last().source@.bucket,
            moves.last().target@.bucket,
            moves.last().temporary@.bucket,
        ]
    }
}

/// The buckets to lock before the moves are made.
pub fn bucket_names(moves: &[PlannedMove]) -> (names: Vec<String>)
    ensures
        text::views(names@) == buckets_of(moves@),
{
    let mut names: Vec<String> = Vec::new();
    let mut i: usize = 0;
    while i < moves.len()
        invariant
            i <= moves@.len(),
            text::views(names@) == buckets_of(moves@.take(i as int)),
        decreases moves@.len() - i,
    {
        let ghost so_far = text::views(names@);
        assert(moves@.take(i + 1).drop_last() =~= moves@.take(i as int));
        names.push(moves[i].source.bucket.clone());
        names.push(moves[i].target.bucket.clone());
        names.push(moves[i].temporary.bucket.clone());
        assert(text::views(names@) =~= so_far + seq![
            moves@[i as int].source@.bucket,
            moves@[i as int].target@.bucket,
            moves@[i as int].temporary@.bucket,
        ]);
        i += 1;
    }
    assert(moves@.take(moves@.len() as int) =~= moves@);
    names
}

/// The planned moves of source, target and temporary paths.
pub open spec fn planned_from(
    paths: Seq<(ObjectPath, ObjectPath, ObjectPath)>,
    moves: Seq<PlannedMove>,
) -> bool {
    &&& moves.len() == paths.len()
    &&& forall|i: int|
        0 <= i < paths.len() ==> #[trigger] moves[i] == (PlannedMove {
            source: paths[i].0,
            target: paths[i].1,
            temporary: paths[i].2,
        })
}

/// The result of making the moves while all their buckets are locked.
pub open spec fn locked_moves_give<S: StorageClient>(
    storage: S,
    interrupt: InterruptFlag,
    moves: Seq<PlannedMove>,
    result: Result<(), AppError>,
) -> bool {
    exists|ran: Option<Result<(), AppError>>|
        {
            &&& #[trigger] storage.locks(
                buckets_of(moves),
                storage::outcome_if_run(ran),
                storage::outcome(result),
            )
            &&& ran matches Some(value) ==> moves_give(
                storage,
                interrupt,
                Some(buckets_of(moves)),
                moves,
                value,
            )
            &&& result is Ok ==> ran == Some(result)
        }
}

/// Makes the moves, given as source, target and temporary paths, while all
/// their buckets are locked.
pub fn process_moves<S: StorageClient>(
    storage: &S,
    interrupt: &InterruptFlag,
    moves: Vec<(ObjectPath, ObjectPath, ObjectPath)>,
) -> (result: Result<(), AppError>)
    ensures
        exists|planned: Seq<PlannedMove>| #[trigger]
            planned_from(moves@, planned) && locked_moves_give(*storage, *interrupt, planned, result),
{
    let mut planned: Vec<PlannedMove> = Vec::new();
    let mut i: usize = 0;
    while i < moves.len()
        invariant
            i <= moves@.len(),
            planned_from(moves@.take(i as int), planned@),
        decreases moves@.len() - i,
    {
        planned.push(
            PlannedMove {
                source: moves[i].0.clone(),
                target: moves[i].1.clone(),
                temporary: moves[i].2.clone(),
            },
        );
        i += 1;
    }
    assert(moves@.take(moves@.len() as int) =~= moves@);
    let names = bucket_names(planned.as_slice());
    let buckets = text::as_slices(&names);
    let process = |begun: Session<'_, S>| -> (result: Result<(), AppError>)
        requires
            begun.wf(),
            begun.interrupt() is Some,
            begun.calls().len() == 0,
        ensures
            exists|ended: Session<S>|
                {
                    &&& #[trigger] ended.belongs(begun.storage(), begun.interrupt(), begun.held())
                    &&& moves_made(planned@, ended.calls(), result)
                },
        {
            let mut session = begun;
            make_moves(&mut session, planned.as_slice())
        };
    let result = session::locked(storage, interrupt, buckets.as_slice(), process);
    assert(locked_moves_give(*storage, *interrupt, planned@, result));
    result
}

/// The calls normalize a bucket, with the result: the bucket is listed, and a
/// failed listing ends it.
pub open spec fn normalization_made(
    bucket: Seq<char>,
    calls: Seq<Call>,
    result: Result<(), AppError>,
) -> bool {
    &&& calls.len() > 0
    &&& calls[0].asked == Asked::List(bucket)
    &&& match calls[0].told {
        Told::Names(Err(error)) => result == Err::<(), AppError>(error) && calls.len() == 1,
        Told::Names(Ok(names)) => names_normalized(names, calls.skip(1), result),
        _ => false,
    }
}

/// The calls normalize the listed names, with the result: a collision or a name
/// that cannot be moved, before any call is made, or the result of the moves.
pub open spec fn names_normalized(
    names: Seq<Seq<char>>,
    calls: Seq<Call>,
    result: Result<(), AppError>,
) -> bool {
    ||| {
        &&& result matches Err(error) && normalization_plan::names_collisions(names, error)
        &&& calls.len() == 0
    }
    ||| exists|entries: Seq<Entry>|
        {
            &&& #[trigger] normalization_plan::entries_of(names, entries)
            &&& forall|text: Seq<char>| !#[trigger] normalization_plan::collides(names, text)
            &&& {
                ||| {
                    &&& result matches Err(error) && fails_at_first(changing(entries), error)
                    &&& calls.len() == 0
                }
                ||| exists|moves: Seq<PlannedMove>|
                    {
                        &&& moves.len() == changing(entries).len()
                        &&& forall|i: int|
                            0 <= i < moves.len() ==> is_move_of(
                                changing(entries)[i],
                                #[trigger] moves[i],
                            )
                        &&& #[trigger] moves_made(moves, calls, result)
                    }
            }
        }
}

/// Gives the listed names their NFC form. Nothing is moved unless every name can
/// be.
pub fn normalize_names<S: StorageClient>(session: &mut Session<'_, S>, names: Vec<String>) -> (result:
    Result<(), AppError>)
    requires
        old(session).wf(),
        old(session).interrupt() is Some,
    ensures
        final(session).belongs(old(session).storage(), old(session).interrupt(), old(session).held()),
        exists|calls: Seq<Call>|
            {
                &&& final(session).calls() == old(session).calls() + calls
                &&& #[trigger] names_normalized(text::views(names@), calls, result)
            },
{
    let ghost listed = text::views(names@);
    let ghost none: Seq<Call> = Seq::empty();
    assert(session.calls() =~= session.calls() + none);
    match normalization_plan::build(names.as_slice()) {
        Err(error) => {
            assert(names_normalized(listed, none, Err(error)));
            Err(error)
        },
        Ok(plan) => {
            let ghost entries = plan@;
            assert(normalization_plan::entries_of(listed, entries));
            match plan_moves(plan) {
                Err(error) => {
                    assert(names_normalized(listed, none, Err(error)));
                    Err(error)
                },
                Ok(moves) => {
                    let result = make_moves(session, moves.as_slice());
                    proof {
                        let calls = choose|calls: Seq<Call>|
                            {
                                &&& session.calls() == old(session).calls() + calls
                                &&& #[trigger] moves_made(moves@, calls, result)
                            };
                        assert(names_normalized(listed, calls, result));
                    }
                    result
                },
            }
        },
    }
}

/// Lists the bucket and gives every object its NFC name.
pub fn normalize_listed<S: StorageClient>(session: &mut Session<'_, S>, bucket: &str) -> (result: Result<
    (),
    AppError,
>)
    requires
        old(session).wf(),
        old(session).interrupt() is Some,
        old(session).calls().len() == 0,
    ensures
        final(session).belongs(old(session).storage(), old(session).interrupt(), old(session).held()),
        normalization_made(bucket@, final(session).calls(), result),
{
    match session.list_objects(bucket) {
        Err(error) => Err(error),
        Ok(names) => {
            let ghost listed = session.calls();
            let result = normalize_names(session, names);
            proof {
                let calls = choose|calls: Seq<Call>|
                    {
                        &&& session.calls() == listed + calls
                        &&& #[trigger] names_normalized(text::views(names@), calls, result)
                    };
                assert(session.calls().skip(1) =~= calls);
            }
            result
        },
    }
}

/// Gives every object of the bucket its NFC name, while the bucket is locked.
pub fn normalize_bucket<S: StorageClient>(
    storage: &S,
    interrupt: &InterruptFlag,
    bucket: &str,
) -> (result: Result<(), AppError>)
    ensures
        exists|ran: Option<Result<(), AppError>>|
            {
                &&& #[trigger] storage.locks(
                    seq![bucket@],
                    storage::outcome_if_run(ran),
                    storage::outcome(result),
                )
                &&& ran matches Some(value) ==> exists|session: Session<S>|
                    {
                        &&& #[trigger] session.belongs(
                            *storage,
                            Some(*interrupt),
                            Some(seq![bucket@]),
                        )
                        &&& normalization_made(bucket@, session.calls(), value)
                    }
                &&& result is Ok ==> ran == Some(result)
            },
{
    let buckets: Vec<&str> = vec![bucket];
    assert(text::slice_views(buckets@) =~= seq![bucket@]);
    let process = |begun: Session<'_, S>| -> (result: Result<(), AppError>)
        requires
            begun.wf(),
            begun.interrupt() is Some,
            begun.calls().len() == 0,
        ensures
            exists|ended: Session<S>|
                {
                    &&& #[trigger] ended.belongs(begun.storage(), begun.interrupt(), begun.held())
                    &&& normalization_made(bucket@, ended.calls(), result)
                },
        {
            let mut session = begun;
            normalize_listed(&mut session, bucket)
        };
    session::locked(storage, interrupt, buckets.as_slice(), process)
}

} // verus!
