//! Which file is uploaded where.
use vstd::prelude::*;

use crate::error::AppError;
use crate::local;
use crate::local::LocalPath;
use crate::local::LocalPathView;
use crate::local_path;
use crate::local_path::ComponentView;
use crate::normalization_plan;
use crate::normalization_plan::Entry;
use crate::object_path;
use crate::object_path::ObjectPathView;
use crate::path_laws;
use crate::remote_run;
use crate::remote_run::PlannedView;
use crate::restoration_laws;
use crate::session::Call;
use crate::text;
use crate::transaction_laws;
use crate::upload;
use crate::upload::PlannedUpload;
use crate::upload::UploadPlan;

verus! {

/// The name that a directory ends in is the UTF-8 encoding of the bucket.
pub open spec fn ends_in_bucket(directory: LocalPathView, bucket: Seq<char>) -> bool {
    local_path::name_of(directory.bytes.map_values(|byte: u8| byte as char)) == Some(
        vstd::utf8::encode_utf8(bucket).map_values(|byte: u8| byte as char),
    )
}

/// The new name of a path is the second side of the last pair whose first side is the
/// same path.
pub open spec fn renames(pairs: Seq<(String, String)>, path: Seq<char>, name: Seq<char>) -> bool {
    exists|j: int|
        {
            &&& 0 <= j < pairs.len()
            &&& local_path::same((#[trigger] pairs[j]).0@, path)
            &&& pairs[j].1@ == name
            &&& forall|k: int|
                j < k < pairs.len() ==> !local_path::same((#[trigger] pairs[k]).0@, path)
        }
}

/// The upload takes the file, under its new name, to the bucket of its directory, by way
/// of a name under the prefix.
pub open spec fn is_upload_of(
    upload: PlannedUpload,
    directory: LocalPathView,
    file: LocalPathView,
    pairs: Seq<(String, String)>,
    prefix: Seq<char>,
) -> bool {
    &&& exists|path: Seq<char>| #[trigger]
        vstd::utf8::encode_utf8(path) == file.bytes && renames(pairs, path, upload.file@)
    &&& ends_in_bucket(directory, upload.target.bucket@)
    &&& local_path::name_of(upload.file@) == Some(upload.target.object@)
    &&& upload.staging.bucket@ == upload.target.bucket@
    &&& upload.staging.object@ == prefix + "/"@ + upload.target.object@
}

/// Every file of every directory has its upload, in order, to the bucket that its
/// directory is named after, under the name that it gets.
pub proof fn every_file_is_planned_to_its_bucket(
    directories: Seq<(LocalPath, Vec<LocalPath>)>,
    pairs: Seq<(String, String)>,
    prefix: Seq<char>,
    planned: Vec<(String, Vec<PlannedUpload>)>,
)
    requires
        upload::plans_uploads(directories, pairs, prefix, Ok(planned)),
    ensures
        planned@.len() == directories.len(),
        forall|d: int|
            0 <= d < directories.len() ==> {
                &&& (#[trigger] planned@[d]).0@ == text::lossy(directories[d].0@.bytes)
                &&& planned@[d].1@.len() == directories[d].1@.len()
                &&& forall|f: int|
                    0 <= f < directories[d].1@.len() ==> is_upload_of(
                        #[trigger] planned@[d].1@[f],
                        directories[d].0@,
                        directories[d].1@[f]@,
                        pairs,
                        prefix,
                    )
            },
{
    assert forall|d: int| 0 <= d < directories.len() implies {
        &&& (#[trigger] planned@[d]).0@ == text::lossy(directories[d].0@.bytes)
        &&& planned@[d].1@.len() == directories[d].1@.len()
        &&& forall|f: int|
            0 <= f < directories[d].1@.len() ==> is_upload_of(
                #[trigger] planned@[d].1@[f],
                directories[d].0@,
                directories[d].1@[f]@,
                pairs,
                prefix,
            )
    } by {
        let directory = directories[d].0@;
        let files = directories[d].1@;
        let uploads = planned@[d].1@;
        assert(upload::plans_directory(directory, files, pairs, prefix, Ok(planned@[d])));
        let bucket = choose|bucket: Seq<char>|
            {
                &&& #[trigger] upload::bucket_name_of(directory, Some(bucket))
                &&& planned@[d].0@ == text::lossy(directory.bytes)
                &&& uploads.len() == files.len()
                &&& forall|i: int|
                    0 <= i < files.len() ==> upload::plans_upload(
                        bucket,
                        files[i]@,
                        pairs,
                        prefix,
                        Ok(#[trigger] uploads[i]),
                    )
            };
        assert forall|f: int| 0 <= f < files.len() implies is_upload_of(
            #[trigger] uploads[f],
            directory,
            files[f]@,
            pairs,
            prefix,
        ) by {
            a_planned_upload(bucket, directory, files[f]@, pairs, prefix, uploads[f]);
        }
    }
}

proof fn the_new_name(pairs: Seq<(String, String)>, path: Seq<char>)
    ensures
        match upload::new_name(pairs, path) {
            Some(name) => renames(pairs, path, name@),
            None => forall|j: int|
                0 <= j < pairs.len() ==> !local_path::same((#[trigger] pairs[j]).0@, path),
        },
    decreases pairs.len(),
{
    if pairs.len() > 0 {
        let shorter = pairs.drop_last();
        let n = pairs.len() - 1;
        if local_path::same(pairs.last().0@, path) {
            assert(local_path::same(pairs[n].0@, path) && pairs[n].1@ == pairs.last().1@);
        } else {
            the_new_name(shorter, path);
            match upload::new_name(shorter, path) {
                Some(name) => {
                    let j = choose|j: int|
                        {
                            &&& 0 <= j < shorter.len()
                            &&& local_path::same((#[trigger] shorter[j]).0@, path)
                            &&& shorter[j].1@ == name@
                            &&& forall|k: int|
                                j < k < shorter.len() ==> !local_path::same(
                                    (#[trigger] shorter[k]).0@,
                                    path,
                                )
                        };
                    assert(pairs[j] == shorter[j]);
                    assert forall|k: int| j < k < pairs.len() implies !local_path::same(
                        (#[trigger] pairs[k]).0@,
                        path,
                    ) by {
                        if k < n {
                            assert(pairs[k] == shorter[k]);
                        }
                    }
                },
                None => {
                    assert forall|j: int| 0 <= j < pairs.len() implies !local_path::same(
                        (#[trigger] pairs[j]).0@,
                        path,
                    ) by {
                        if j < n {
                            assert(pairs[j] == shorter[j]);
                        }
                    }
                },
            }
        }
    }
}

/// A name in a path is not empty and has no slash.
pub proof fn a_name_has_no_slash(path: Seq<char>, name: Seq<char>)
    requires
        local_path::name_of(path) == Some(name),
    ensures
        path_laws::is_name(name),
{
    pieces_have_no_slash(path);
    names_are_names(local_path::pieces(path));
    let parts = local_path::components(path);
    let inner = local_path::components_of(local_path::pieces(path));
    assert(parts.last() == ComponentView::Name(name));
    assert(inner.len() > 0 && inner.last() == parts.last());
}

proof fn pieces_have_no_slash(path: Seq<char>)
    ensures
        local_path::pieces(path).len() > 0,
        forall|k: int|
            0 <= k < local_path::pieces(path).len() ==> path_laws::is_piece(
                #[trigger] local_path::pieces(path)[k],
            ),
    decreases path.len(),
{
    if path.len() > 0 {
        pieces_have_no_slash(path.drop_last());
        let front = local_path::pieces(path.drop_last());
        let all = local_path::pieces(path);
        assert forall|k: int| 0 <= k < all.len() implies path_laws::is_piece(
            #[trigger] all[k],
        ) by {
            if path.last() != '/' && k == front.len() - 1 {
                assert(path_laws::is_piece(front[k]));
                assert(all[k] =~= front[k].push(path.last()));
            } else if k < front.len() {
                assert(all[k] == front[k]);
            }
        }
    }
}

proof fn names_are_names(all: Seq<Seq<char>>)
    requires
        forall|k: int| 0 <= k < all.len() ==> path_laws::is_piece(#[trigger] all[k]),
    ensures
        forall|i: int|
            0 <= i < local_path::components_of(all).len() ==> (
            #[trigger] local_path::components_of(all)[i] matches ComponentView::Name(name)
                ==> path_laws::is_name(name)),
    decreases all.len(),
{
    if all.len() > 0 {
        let shorter = all.drop_last();
        assert forall|k: int| 0 <= k < shorter.len() implies path_laws::is_piece(
            #[trigger] shorter[k],
        ) by {
            assert(shorter[k] == all[k]);
        }
        names_are_names(shorter);
        assert(path_laws::is_piece(all[all.len() - 1]));
        let front = local_path::components_of(shorter);
        let parts = local_path::components_of(all);
        assert forall|i: int| 0 <= i < parts.len() implies (
        #[trigger] parts[i] matches ComponentView::Name(name) ==> path_laws::is_name(name)) by {
            if i < front.len() {
                assert(parts[i] == front[i]);
            }
        }
    }
}

/// A bucket that a directory is named after is not empty and has no slash.
pub proof fn a_bucket_has_no_slash(directory: LocalPathView, bucket: Seq<char>)
    requires
        ends_in_bucket(directory, bucket),
    ensures
        bucket.len() > 0,
        !bucket.contains('/'),
{
    let encoded = vstd::utf8::encode_utf8(bucket);
    let name = encoded.map_values(|byte: u8| byte as char);
    a_name_has_no_slash(directory.bytes.map_values(|byte: u8| byte as char), name);
    if bucket.len() == 0 {
        assert(bucket =~= Seq::empty());
        assert(encoded.len() == 0);
    }
    if bucket.contains('/') {
        let i = choose|i: int| 0 <= i < bucket.len() && bucket[i] == '/';
        let before = bucket.take(i);
        let behind = bucket.skip(i + 1);
        let slash = seq!['/'];
        assert(bucket =~= before + slash + behind);
        text::encoding_of_both(before + slash, behind);
        text::encoding_of_both(before, slash);
        vstd::utf8::is_ascii_chars_encode_utf8(slash);
        let at = vstd::utf8::encode_utf8(before).len() as int;
        assert(slash[0] as u8 == vstd::utf8::encode_utf8(slash)[0]);
        assert(encoded[at] == 0x2f);
        assert(name[at] == '/');
    }
}

proof fn a_planned_upload(
    bucket: Seq<char>,
    directory: LocalPathView,
    file: LocalPathView,
    pairs: Seq<(String, String)>,
    prefix: Seq<char>,
    planned: PlannedUpload,
)
    requires
        upload::bucket_name_of(directory, Some(bucket)),
        upload::plans_upload(bucket, file, pairs, prefix, Ok(planned)),
    ensures
        is_upload_of(planned, directory, file, pairs, prefix),
{
    assert(directory.bytes.map_values(|byte: u8| byte as char) =~= upload::byte_chars(
        directory.bytes,
    ));
    assert(vstd::utf8::encode_utf8(bucket).map_values(|byte: u8| byte as char)
        =~= upload::byte_chars(vstd::utf8::encode_utf8(bucket)));
    assert(ends_in_bucket(directory, bucket));
    a_bucket_has_no_slash(directory, bucket);
    let name = choose|name: Option<String>|
        {
            &&& #[trigger] upload::is_new_name(pairs, file, name)
            &&& match name {
                None => false,
                Some(path) => match local_path::name_of(path@) {
                    None => false,
                    Some(object) => upload::plans_named_upload(
                        bucket,
                        path,
                        object,
                        prefix,
                        Ok(planned),
                    ),
                },
            }
        };
    let path = choose|path: Seq<char>| #[trigger]
        local::is_text_of(file.bytes, path) && name == upload::new_name(pairs, path);
    the_new_name(pairs, path);
    assert(vstd::utf8::encode_utf8(path) == file.bytes && renames(pairs, path, planned.file@));
    let object = local_path::name_of(planned.file@)->0;
    a_name_has_no_slash(planned.file@, object);
    let wanted = ObjectPathView { bucket, object };
    assert(wanted.nameable());
    object_path::uris_name_one_object(planned.target@, wanted);
}

/// An upload can be planned wherever the file has a new name that ends in a file name
/// and the staging name fits into the 1024 bytes of an object name.
pub proof fn an_upload_is_planned_where_its_names_allow_it(
    bucket: Seq<char>,
    directory: LocalPathView,
    file: LocalPathView,
    pairs: Seq<(String, String)>,
    prefix: Seq<char>,
    path: Seq<char>,
    new_path: Seq<char>,
    object: Seq<char>,
    planned: Result<PlannedUpload, AppError>,
)
    requires
        upload::plans_upload(bucket, file, pairs, prefix, planned),
        ends_in_bucket(directory, bucket),
        vstd::utf8::encode_utf8(path) == file.bytes,
        renames(pairs, path, new_path),
        local_path::name_of(new_path) == Some(object),
    ensures
        planned is Ok <==> vstd::utf8::encode_utf8(prefix + "/"@ + object).len() <= 1024,
{
    a_bucket_has_no_slash(directory, bucket);
    a_name_has_no_slash(new_path, object);
    let name = choose|name: Option<String>|
        {
            &&& #[trigger] upload::is_new_name(pairs, file, name)
            &&& match name {
                None => {
                    &&& planned matches Err(AppError::Message(message))
                    &&& message@ == "Missing normalized path for "@ + file.shown
                },
                Some(path) => match local_path::name_of(path@) {
                    None => {
                        &&& planned matches Err(AppError::Message(message))
                        &&& message@ == "File is not valid UTF-8: "@ + text::quoted_path(path@)
                    },
                    Some(object) => upload::plans_named_upload(
                        bucket,
                        path,
                        object,
                        prefix,
                        planned,
                    ),
                },
            }
        };
    vstd::utf8::encode_utf8_valid_utf8(path);
    let read = choose|read: Seq<char>| #[trigger]
        local::is_text_of(file.bytes, read) && name == upload::new_name(pairs, read);
    text::encodings_are_unique(read, path);
    the_new_name(pairs, path);
    let j = choose|j: int|
        {
            &&& 0 <= j < pairs.len()
            &&& local_path::same((#[trigger] pairs[j]).0@, path)
            &&& pairs[j].1@ == new_path
            &&& forall|k: int|
                j < k < pairs.len() ==> !local_path::same((#[trigger] pairs[k]).0@, path)
        };
    assert(name is Some);
    let found = choose|found: int|
        {
            &&& 0 <= found < pairs.len()
            &&& local_path::same((#[trigger] pairs[found]).0@, path)
            &&& pairs[found].1@ == name->0@
            &&& forall|k: int|
                found < k < pairs.len() ==> !local_path::same((#[trigger] pairs[k]).0@, path)
        };
    assert(found == j);
    assert(name->0@ == new_path);
    let wanted = ObjectPathView { bucket, object };
    assert(wanted.nameable());
    assert(wanted.uri() == "gs://"@ + bucket + "/"@ + object);
}

/// Two files that are the same path are the same text.
pub open spec fn paths_differ(directories: Seq<(LocalPath, Vec<LocalPath>)>) -> bool {
    forall|d: int, f: int, e: int, g: int, path: Seq<char>, other: Seq<char>|
        {
            &&& 0 <= d < directories.len()
            &&& 0 <= e < directories.len()
            &&& 0 <= f < directories[d].1@.len()
            &&& 0 <= g < directories[e].1@.len()
            &&& vstd::utf8::encode_utf8(path) == (#[trigger] directories[d].1@[f])@.bytes
            &&& vstd::utf8::encode_utf8(other) == (#[trigger] directories[e].1@[g])@.bytes
            &&& #[trigger] local_path::same(path, other)
        } ==> path == other
}

/// A planned run gives every file its NFC name and uploads it under the last part of
/// that name to the bucket that its directory is named after.
pub proof fn every_file_is_uploaded_under_its_nfc_name(
    directories: Seq<(LocalPath, Vec<LocalPath>)>,
    prefix: Seq<char>,
    plan: UploadPlan,
    d: int,
    f: int,
    path: Seq<char>,
)
    requires
        upload::plans_run(directories, prefix, Ok(plan)),
        paths_differ(directories),
        0 <= d < directories.len(),
        0 <= f < directories[d].1@.len(),
        vstd::utf8::encode_utf8(path) == directories[d].1@[f]@.bytes,
    ensures
        plan.uploads@.len() == directories.len(),
        plan.uploads@[d].1@.len() == directories[d].1@.len(),
        ({
            let upload = plan.uploads@[d].1@[f];
            &&& upload.file@ == normalization_plan::nfc(path)
            &&& local_path::name_of(normalization_plan::nfc(path)) == Some(upload.target.object@)
            &&& ends_in_bucket(directories[d].0@, upload.target.bucket@)
            &&& upload.staging.bucket@ == upload.target.bucket@
            &&& upload.staging.object@ == prefix + "/"@ + upload.target.object@
        }),
{
    let files = upload::files_in(directories);
    let texts = choose|texts: Result<Seq<Seq<char>>, AppError>|
        {
            &&& #[trigger] upload::texts_of(files, texts)
            &&& match texts {
                Err(error) => false,
                Ok(names) => upload::plans_named_run(directories, names, prefix, Ok(plan)),
            }
        };
    let names = texts->Ok_0;
    let entries = choose|entries: Seq<Entry>|
        {
            &&& #[trigger] normalization_plan::entries_of(names, entries)
            &&& plan.entries@ == entries
            &&& upload::plans_uploads(
                directories,
                local::pairs_of(entries),
                prefix,
                Ok(plan.uploads),
            )
        };
    let pairs = local::pairs_of(entries);
    every_file_is_planned_to_its_bucket(directories, pairs, prefix, plan.uploads);
    assert(plan.uploads@[d].1@.len() == directories[d].1@.len());
    let planned = plan.uploads@[d].1@[f];
    let file = directories[d].1@[f]@;
    assert(is_upload_of(planned, directories[d].0@, file, pairs, prefix));
    let read = choose|read: Seq<char>| #[trigger]
        vstd::utf8::encode_utf8(read) == file.bytes && renames(pairs, read, planned.file@);
    text::encodings_are_unique(read, path);
    let j = choose|j: int|
        {
            &&& 0 <= j < pairs.len()
            &&& local_path::same((#[trigger] pairs[j]).0@, path)
            &&& pairs[j].1@ == planned.file@
            &&& forall|k: int|
                j < k < pairs.len() ==> !local_path::same((#[trigger] pairs[k]).0@, path)
        };
    assert(pairs[j] == (entries[j].source, entries[j].target));
    assert(normalization_plan::targets_of(names)[j] == normalization_plan::nfc(names[j]));
    assert(entries[j].source@ == names[j]);
    assert(local::is_text_of(files[j]@.bytes, names[j]));
    let (e, g) = file_place(directories, j);
    assert(vstd::utf8::encode_utf8(names[j]) == directories[e].1@[g]@.bytes);
    assert(local_path::same(names[j], path));
    assert(names[j] == path);
}

/// Where a file of all files stands.
proof fn file_place(directories: Seq<(LocalPath, Vec<LocalPath>)>, j: int) -> (place: (int, int))
    requires
        0 <= j < upload::files_in(directories).len(),
    ensures
        0 <= place.0 < directories.len(),
        0 <= place.1 < directories[place.0].1@.len(),
        upload::files_in(directories)[j] == directories[place.0].1@[place.1],
    decreases directories.len(),
{
    let shorter = directories.drop_last();
    let front = upload::files_in(shorter);
    if j < front.len() {
        let place = file_place(shorter, j);
        assert(directories[place.0] == shorter[place.0]);
        place
    } else {
        (directories.len() - 1, j - front.len())
    }
}

/// The planned upload is among the changes of the plan.
proof fn an_upload_is_a_change(
    directories: Seq<(String, Vec<PlannedUpload>)>,
    d: int,
    f: int,
) -> (at: int)
    requires
        0 <= d < directories.len(),
        0 <= f < directories[d].1@.len(),
    ensures
        ({
            let changes = restoration_laws::changes_of(upload::upload_plan(directories));
            let planned = directories[d].1@[f];
            &&& 0 <= at < changes.len()
            &&& changes[at] == (PlannedView::Upload {
                file: planned.file@,
                staging: planned.staging@,
                target: planned.target@,
            })
        }),
    decreases directories.len(),
{
    let shorter = directories.drop_last();
    let last = directories.last();
    let earlier = upload::upload_plan(shorter).push(PlannedView::Line(last.0@));
    let entries = upload::upload_entries(last.1@);
    let before = restoration_laws::changes_of(earlier);
    assert(earlier.drop_last() =~= upload::upload_plan(shorter));
    assert(before == restoration_laws::changes_of(upload::upload_plan(shorter)));
    changes_of_uploads(earlier, entries);
    if d < shorter.len() {
        assert(shorter[d] == directories[d]);
        let at = an_upload_is_a_change(shorter, d, f);
        assert((before + entries)[at] == before[at]);
        at
    } else {
        let at = before.len() + f;
        assert((before + entries)[at] == entries[f]);
        at
    }
}

proof fn changes_of_uploads(earlier: Seq<PlannedView>, entries: Seq<PlannedView>)
    requires
        forall|i: int| 0 <= i < entries.len() ==> !((#[trigger] entries[i]) is Line),
    ensures
        restoration_laws::changes_of(earlier + entries) == restoration_laws::changes_of(earlier)
            + entries,
    decreases entries.len(),
{
    let whole = earlier + entries;
    if entries.len() == 0 {
        assert(whole =~= earlier);
        assert(restoration_laws::changes_of(earlier) + entries =~= restoration_laws::changes_of(
            earlier,
        ));
    } else {
        let shorter = entries.drop_last();
        assert forall|i: int| 0 <= i < shorter.len() implies !((#[trigger] shorter[i]) is Line) by {
            assert(shorter[i] == entries[i]);
        }
        changes_of_uploads(earlier, shorter);
        assert(whole.drop_last() =~= earlier + shorter);
        assert(whole.last() == entries[entries.len() - 1]);
        assert((restoration_laws::changes_of(earlier) + shorter).push(whole.last())
            =~= restoration_laws::changes_of(earlier) + entries);
    }
}

proof fn an_upload_plan_holds_uploads(directories: Seq<(String, Vec<PlannedUpload>)>)
    ensures
        remote_run::plannable(true, upload::upload_plan(directories)),
    decreases directories.len(),
{
    if directories.len() > 0 {
        an_upload_plan_holds_uploads(directories.drop_last());
        let front = upload::upload_plan(directories.drop_last());
        let plan = upload::upload_plan(directories);
        assert forall|i: int| 0 <= i < plan.len() implies !((#[trigger] plan[i]) is Move) by {
            if i < front.len() {
                assert(plan[i] == front[i]);
            }
        }
    }
}

/// After successful uploads every planned file stands under its name, with its own
/// content, and its staging name is free.
pub proof fn uploaded_files_stand_under_their_names<T>(
    directories: Seq<(String, Vec<PlannedUpload>)>,
    calls: Seq<Call>,
    objects: Map<ObjectPathView, T>,
    content: spec_fn(Seq<char>) -> T,
    d: int,
    f: int,
)
    requires
        upload::uploads_made(directories, calls, Ok(())),
        restoration_laws::names_apart(
            true,
            objects,
            restoration_laws::changes_of(upload::upload_plan(directories)),
        ),
        0 <= d < directories.len(),
        0 <= f < directories[d].1@.len(),
    ensures
        ({
            let left = transaction_laws::after(objects, restoration_laws::effects(calls, content));
            let planned = directories[d].1@[f];
            &&& left.contains_key(planned.target@)
            &&& left[planned.target@] == content(planned.file@)
            &&& !left.contains_key(planned.staging@)
        }),
{
    let plan = upload::upload_plan(directories);
    an_upload_plan_holds_uploads(directories);
    restoration_laws::a_completed_transaction_makes_every_change(
        true,
        plan,
        calls,
        objects,
        content,
    );
    let at = an_upload_is_a_change(directories, d, f);
    let changes = restoration_laws::changes_of(plan);
    assert(restoration_laws::destination(changes[at]) == directories[d].1@[f].target@);
    assert(restoration_laws::stop(changes[at]) == directories[d].1@[f].staging@);
}

/// The directory is named after a bucket.
pub open spec fn names_a_bucket(directory: LocalPathView) -> bool {
    exists|bucket: Seq<char>| #[trigger] ends_in_bucket(directory, bucket)
}

/// Each directory belongs to the bucket that it is named after. The first that is named
/// after none, because its name is no text or it has none, is a failure.
pub proof fn every_directory_names_its_bucket(
    directories: Seq<(LocalPath, Vec<LocalPath>)>,
    names: Result<Seq<Seq<char>>, AppError>,
)
    requires
        upload::buckets_of_directories(directories, names),
    ensures
        names is Ok <==> forall|d: int|
            0 <= d < directories.len() ==> names_a_bucket((#[trigger] directories[d]).0@),
        names matches Ok(names) ==> names.len() == directories.len() && forall|d: int|
            0 <= d < names.len() ==> ends_in_bucket(directories[d].0@, #[trigger] names[d]),
        names matches Err(error) ==> error is Message,
{
    match names {
        Ok(names) => {
            assert forall|d: int| 0 <= d < names.len() implies ends_in_bucket(
                directories[d].0@,
                #[trigger] names[d],
            ) by {
                same_bucket(directories[d].0@, names[d]);
            }
            assert forall|d: int| 0 <= d < directories.len() implies names_a_bucket(
                (#[trigger] directories[d]).0@,
            ) by {
                assert(ends_in_bucket(directories[d].0@, names[d]));
            }
        },
        Err(error) => {
            let i = choose|i: int|
                {
                    &&& 0 <= i < directories.len()
                    &&& upload::not_a_bucket((#[trigger] directories[i]).0@, error)
                    &&& forall|k: int|
                        0 <= k < i ==> upload::is_bucket_directory((#[trigger] directories[k]).0@)
                };
            let directory = directories[i].0@;
            assert forall|bucket: Seq<char>| !#[trigger] ends_in_bucket(directory, bucket) by {
                same_bucket(directory, bucket);
                let encoded = vstd::utf8::encode_utf8(bucket);
                vstd::utf8::encode_utf8_valid_utf8(bucket);
                assert(local_path::name_of(upload::byte_chars(directory.bytes)) == Some(
                    upload::byte_chars(encoded),
                ) ==> !vstd::utf8::valid_utf8(encoded));
            }
            assert(!names_a_bucket(directories[i].0@));
        },
    }
}

proof fn same_bucket(directory: LocalPathView, bucket: Seq<char>)
    ensures
        ends_in_bucket(directory, bucket) <==> upload::bucket_name_of(directory, Some(bucket)),
{
    assert(directory.bytes.map_values(|byte: u8| byte as char) =~= upload::byte_chars(
        directory.bytes,
    ));
    assert(vstd::utf8::encode_utf8(bucket).map_values(|byte: u8| byte as char)
        =~= upload::byte_chars(vstd::utf8::encode_utf8(bucket)));
}


/// The plan of uploads shows each directory and then uploads its files, each one once and
/// in order, directory after directory.
pub proof fn a_plan_shows_each_directory_before_its_uploads(
    left: Seq<(String, Vec<PlannedUpload>)>,
    right: Seq<(String, Vec<PlannedUpload>)>,
)
    ensures
        upload::upload_plan(left + right) == upload::upload_plan(left) + upload::upload_plan(right),
        left.len() == 0 ==> upload::upload_plan(left).len() == 0,
        left.len() == 1 ==> upload::upload_plan(left) == seq![PlannedView::Line(left[0].0@)]
            + left[0].1@.map_values(
            |planned: PlannedUpload|
                PlannedView::Upload {
                    file: planned.file@,
                    staging: planned.staging@,
                    target: planned.target@,
                },
        ),
    decreases right.len(),
{
    if left.len() == 1 {
        assert(left.drop_last() =~= Seq::empty());
        assert(upload::upload_plan(left.drop_last()).len() == 0);
        assert(upload::upload_plan(left) =~= seq![PlannedView::Line(left[0].0@)]
            + left[0].1@.map_values(
            |planned: PlannedUpload|
                PlannedView::Upload {
                    file: planned.file@,
                    staging: planned.staging@,
                    target: planned.target@,
                },
        ));
    }
    let whole = left + right;
    if right.len() == 0 {
        assert(whole =~= left);
        assert(upload::upload_plan(left) + upload::upload_plan(right) =~= upload::upload_plan(
            left,
        ));
    } else {
        a_plan_shows_each_directory_before_its_uploads(left, right.drop_last());
        assert(whole.drop_last() =~= left + right.drop_last());
        assert(whole.last() == right.last());
        assert(upload::upload_plan(whole) =~= upload::upload_plan(left) + upload::upload_plan(
            right,
        ));
    }
}

/// The buckets of uploads are those of their targets, upload after upload.
pub proof fn every_bucket_of_an_upload_is_named(
    left: Seq<(String, Vec<PlannedUpload>)>,
    right: Seq<(String, Vec<PlannedUpload>)>,
)
    ensures
        upload::target_buckets(upload::uploads_in(left + right)) == upload::target_buckets(
            upload::uploads_in(left),
        ) + upload::target_buckets(upload::uploads_in(right)),
        left.len() == 0 ==> upload::target_buckets(upload::uploads_in(left)).len() == 0,
        left.len() == 1 ==> upload::target_buckets(upload::uploads_in(left))
            == left[0].1@.map_values(|planned: PlannedUpload| planned.target.bucket@),
{
    if left.len() == 1 {
        assert(left.drop_last() =~= Seq::empty());
        assert(upload::uploads_in(left.drop_last()).len() == 0);
        assert(upload::target_buckets(upload::uploads_in(left)) =~= left[0].1@.map_values(
            |planned: PlannedUpload| planned.target.bucket@,
        ));
    }
    uploads_of_both(left, right);
    let first = upload::uploads_in(left);
    let second = upload::uploads_in(right);
    assert(upload::target_buckets(first + second) =~= upload::target_buckets(first)
        + upload::target_buckets(second));
}

proof fn uploads_of_both(
    left: Seq<(String, Vec<PlannedUpload>)>,
    right: Seq<(String, Vec<PlannedUpload>)>,
)
    ensures
        upload::uploads_in(left + right) == upload::uploads_in(left) + upload::uploads_in(right),
    decreases right.len(),
{
    let whole = left + right;
    if right.len() == 0 {
        assert(whole =~= left);
        assert(upload::uploads_in(left) + upload::uploads_in(right) =~= upload::uploads_in(left));
    } else {
        uploads_of_both(left, right.drop_last());
        assert(whole.drop_last() =~= left + right.drop_last());
        assert(whole.last() == right.last());
        assert(upload::uploads_in(whole) =~= upload::uploads_in(left) + upload::uploads_in(right));
    }
}

/// All files are the files of the directories, directory after directory.
pub proof fn every_file_of_a_directory_is_counted(
    left: Seq<(LocalPath, Vec<LocalPath>)>,
    right: Seq<(LocalPath, Vec<LocalPath>)>,
)
    ensures
        upload::files_in(left + right) == upload::files_in(left) + upload::files_in(right),
        left.len() == 0 ==> upload::files_in(left).len() == 0,
        left.len() == 1 ==> upload::files_in(left) == left[0].1@,
    decreases right.len(),
{
    if left.len() == 1 {
        assert(left.drop_last() =~= Seq::empty());
        assert(upload::files_in(left.drop_last()).len() == 0);
        assert(upload::files_in(left) =~= left[0].1@);
    }
    let whole = left + right;
    if right.len() == 0 {
        assert(whole =~= left);
        assert(upload::files_in(left) + upload::files_in(right) =~= upload::files_in(left));
    } else {
        every_file_of_a_directory_is_counted(left, right.drop_last());
        assert(whole.drop_last() =~= left + right.drop_last());
        assert(whole.last() == right.last());
        assert(upload::files_in(whole) =~= upload::files_in(left) + upload::files_in(right));
    }
}

/// The file can be uploaded: its path is text whose NFC form ends in a name that leaves
/// room for the prefix within the 1024 bytes of an object name.
pub open spec fn is_uploadable(file: LocalPathView, prefix: Seq<char>) -> bool {
    exists|path: Seq<char>|
        {
            &&& #[trigger] vstd::utf8::encode_utf8(path) == file.bytes
            &&& local_path::name_of(normalization_plan::nfc(path)) is Some
            &&& vstd::utf8::encode_utf8(
                prefix + "/"@ + local_path::name_of(normalization_plan::nfc(path))->0,
            ).len() <= 1024
        }
}

/// The two files get different names.
pub open spec fn get_different_names(left: LocalPathView, right: LocalPathView) -> bool {
    forall|path: Seq<char>, other: Seq<char>|
        #[trigger] vstd::utf8::encode_utf8(path) == left.bytes && #[trigger] vstd::utf8::encode_utf8(
            other,
        ) == right.bytes ==> normalization_plan::nfc(path) != normalization_plan::nfc(other)
}

/// A run can be planned wherever every directory is named after a bucket, every file can be
/// uploaded, and no two files would get the same name.
pub proof fn a_run_is_planned_where_its_names_allow_it(
    directories: Seq<(LocalPath, Vec<LocalPath>)>,
    prefix: Seq<char>,
    plan: Result<UploadPlan, AppError>,
)
    requires
        upload::plans_run(directories, prefix, plan),
        paths_differ(directories),
        forall|d: int| 0 <= d < directories.len() ==> names_a_bucket((#[trigger] directories[d]).0@),
        forall|i: int|
            0 <= i < upload::files_in(directories).len() ==> is_uploadable(
                (#[trigger] upload::files_in(directories)[i])@,
                prefix,
            ),
        forall|i: int, j: int|
            0 <= i < j < upload::files_in(directories).len() ==> get_different_names(
                (#[trigger] upload::files_in(directories)[i])@,
                (#[trigger] upload::files_in(directories)[j])@,
            ),
    ensures
        plan is Ok,
{
    let files = upload::files_in(directories);
    let texts = choose|texts: Result<Seq<Seq<char>>, AppError>|
        {
            &&& #[trigger] upload::texts_of(files, texts)
            &&& match texts {
                Err(error) => plan == Err::<UploadPlan, AppError>(error),
                Ok(names) => upload::plans_named_run(directories, names, prefix, plan),
            }
        };
    match texts {
        Err(_) => {
            let i = choose|i: int|
                0 <= i < files.len() && !vstd::utf8::valid_utf8((#[trigger] files[i])@.bytes);
            assert(is_uploadable(files[i]@, prefix));
            let path = choose|path: Seq<char>| #[trigger]
                vstd::utf8::encode_utf8(path) == files[i]@.bytes;
            vstd::utf8::encode_utf8_valid_utf8(path);
        },
        Ok(names) => {
            if let Err(error) = plan {
                if normalization_plan::names_collisions(names, error) {
                    no_collision(files, names, error);
                } else {
                    let entries = choose|entries: Seq<Entry>|
                        {
                            &&& #[trigger] normalization_plan::entries_of(names, entries)
                            &&& upload::plans_uploads(
                                directories,
                                local::pairs_of(entries),
                                prefix,
                                Err(error),
                            )
                        };
                    let d = choose|d: int|
                        {
                            &&& 0 <= d < directories.len()
                            &&& upload::plans_directory(
                                (#[trigger] directories[d]).0@,
                                directories[d].1@,
                                local::pairs_of(entries),
                                prefix,
                                Err(error),
                            )
                        };
                    a_directory_is_planned(directories, names, entries, prefix, d, error);
                }
            }
        },
    }
}

proof fn no_collision(files: Seq<LocalPath>, names: Seq<Seq<char>>, error: AppError)
    requires
        upload::texts_of(files, Ok(names)),
        normalization_plan::names_collisions(names, error),
    ensures
        exists|i: int, j: int|
            0 <= i < j < files.len() && !get_different_names(
                (#[trigger] files[i])@,
                (#[trigger] files[j])@,
            ),
{
    let targets = normalization_plan::targets_of(names);
    let texts = choose|texts: Seq<Seq<char>>| #[trigger]
        normalization_plan::repetitions(targets, texts) && texts.len() > 0;
    assert(texts.contains(texts[0]));
    let (i, j) = choose|i: int, j: int|
        0 <= i < j < targets.len() && #[trigger] targets[i] == texts[0] && #[trigger] targets[j]
            == texts[0];
    assert(local::is_text_of(files[i]@.bytes, names[i]));
    assert(local::is_text_of(files[j]@.bytes, names[j]));
    assert(vstd::utf8::encode_utf8(names[i]) == files[i]@.bytes);
    assert(vstd::utf8::encode_utf8(names[j]) == files[j]@.bytes);
    assert(normalization_plan::nfc(names[i]) == normalization_plan::nfc(names[j]));
    assert(!get_different_names(files[i]@, files[j]@));
}

/// The place of a file among all files.
proof fn place_among_files(
    directories: Seq<(LocalPath, Vec<LocalPath>)>,
    d: int,
    f: int,
) -> (j: int)
    requires
        0 <= d < directories.len(),
        0 <= f < directories[d].1@.len(),
    ensures
        0 <= j < upload::files_in(directories).len(),
        upload::files_in(directories)[j] == directories[d].1@[f],
    decreases directories.len(),
{
    let shorter = directories.drop_last();
    if d < shorter.len() {
        assert(shorter[d] == directories[d]);
        place_among_files(shorter, d, f)
    } else {
        upload::files_in(shorter).len() + f
    }
}

proof fn a_directory_is_planned(
    directories: Seq<(LocalPath, Vec<LocalPath>)>,
    names: Seq<Seq<char>>,
    entries: Seq<Entry>,
    prefix: Seq<char>,
    d: int,
    error: AppError,
)
    requires
        paths_differ(directories),
        upload::texts_of(upload::files_in(directories), Ok(names)),
        normalization_plan::entries_of(names, entries),
        0 <= d < directories.len(),
        upload::plans_directory(
            directories[d].0@,
            directories[d].1@,
            local::pairs_of(entries),
            prefix,
            Err(error),
        ),
    ensures
        !names_a_bucket(directories[d].0@) || exists|i: int|
            0 <= i < upload::files_in(directories).len() && !is_uploadable(
                (#[trigger] upload::files_in(directories)[i])@,
                prefix,
            ),
{
    let directory = directories[d].0@;
    let files = directories[d].1@;
    let pairs = local::pairs_of(entries);
    if names_a_bucket(directory) {
        let named = choose|bucket: Seq<char>| #[trigger] ends_in_bucket(directory, bucket);
        same_bucket(directory, named);
        let encoded = vstd::utf8::encode_utf8(named);
        vstd::utf8::encode_utf8_valid_utf8(named);
        assert(local_path::name_of(upload::byte_chars(directory.bytes)) == Some(
            upload::byte_chars(encoded),
        ));
        assert(!upload::bucket_name_of(directory, None));
        let bucket = choose|bucket: Seq<char>|
            {
                &&& #[trigger] upload::bucket_name_of(directory, Some(bucket))
                &&& exists|i: int|
                    {
                        &&& 0 <= i < files.len()
                        &&& upload::plans_upload(
                            bucket,
                            (#[trigger] files[i])@,
                            pairs,
                            prefix,
                            Err(error),
                        )
                    }
            };
        let f = choose|i: int|
            {
                &&& 0 <= i < files.len()
                &&& upload::plans_upload(bucket, (#[trigger] files[i])@, pairs, prefix, Err(error))
            };
        same_bucket(directory, bucket);
        let j = place_among_files(directories, d, f);
        if is_uploadable(files[f]@, prefix) {
            let path = choose|path: Seq<char>|
                {
                    &&& #[trigger] vstd::utf8::encode_utf8(path) == files[f]@.bytes
                    &&& local_path::name_of(normalization_plan::nfc(path)) is Some
                    &&& vstd::utf8::encode_utf8(
                        prefix + "/"@ + local_path::name_of(normalization_plan::nfc(path))->0,
                    ).len() <= 1024
                };
            the_file_is_renamed(directories, names, entries, d, f, j, path);
            an_upload_is_planned_where_its_names_allow_it(
                bucket,
                directory,
                files[f]@,
                pairs,
                prefix,
                path,
                normalization_plan::nfc(path),
                local_path::name_of(normalization_plan::nfc(path))->0,
                Err(error),
            );
        }
        assert(!is_uploadable(upload::files_in(directories)[j]@, prefix));
    }
}

proof fn the_file_is_renamed(
    directories: Seq<(LocalPath, Vec<LocalPath>)>,
    names: Seq<Seq<char>>,
    entries: Seq<Entry>,
    d: int,
    f: int,
    j: int,
    path: Seq<char>,
)
    requires
        paths_differ(directories),
        upload::texts_of(upload::files_in(directories), Ok(names)),
        normalization_plan::entries_of(names, entries),
        0 <= d < directories.len(),
        0 <= f < directories[d].1@.len(),
        0 <= j < upload::files_in(directories).len(),
        upload::files_in(directories)[j] == directories[d].1@[f],
        vstd::utf8::encode_utf8(path) == directories[d].1@[f]@.bytes,
    ensures
        renames(local::pairs_of(entries), path, normalization_plan::nfc(path)),
{
    let files = upload::files_in(directories);
    let pairs = local::pairs_of(entries);
    assert(local::is_text_of(files[j]@.bytes, names[j]));
    text::encodings_are_unique(names[j], path);
    assert(pairs[j] == (entries[j].source, entries[j].target));
    assert(entries[j].source@ == names[j]);
    the_new_name(pairs, path);
    assert(local_path::same(pairs[j].0@, path));
    let found = upload::new_name(pairs, path)->0;
    assert(renames(pairs, path, found@));
    let k = choose|k: int|
        {
            &&& 0 <= k < pairs.len()
            &&& local_path::same((#[trigger] pairs[k]).0@, path)
            &&& pairs[k].1@ == found@
            &&& forall|l: int|
                k < l < pairs.len() ==> !local_path::same((#[trigger] pairs[l]).0@, path)
        };
    assert(pairs[k] == (entries[k].source, entries[k].target));
    assert(entries[k].source@ == names[k]);
    assert(normalization_plan::targets_of(names)[k] == normalization_plan::nfc(names[k]));
    assert(local::is_text_of(files[k]@.bytes, names[k]));
    let (e, g) = file_place(directories, k);
    assert(vstd::utf8::encode_utf8(names[k]) == directories[e].1@[g]@.bytes);
    assert(local_path::same(names[k], path));
    assert(names[k] == path);
}

} // verus!
