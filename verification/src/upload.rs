//! Planning uploads, and making them as one transaction.
use vstd::prelude::*;

use crate::error::AppError;
use crate::interrupt::InterruptFlag;
use crate::local;
use crate::local::LocalPath;
use crate::local::LocalPathView;
use crate::local_path;
use crate::local_path::Component;
use crate::naming_laws;
use crate::normalization_plan;
use crate::normalization_plan::Entry;
use crate::object_path;
use crate::object_path::ObjectPath;
use crate::object_path::ObjectPathView;
use crate::object_path::MAX_OBJECT_NAME_BYTES;
use crate::remote_run;
use crate::remote_run::Planned;
use crate::remote_run::PlannedView;
use crate::remote_run::RunStepView;
use crate::session;
use crate::session::Call;
use crate::session::Session;
use crate::storage;
use crate::storage::StorageClient;
use crate::text;
use crate::unique_name;

verus! {

/// Uploads are confined to this directory, so file discovery and the confined
/// open must agree on where it is.
pub const UPLOAD_ROOT: &'static str = "uploads";

const STAGING_PREFIX: &'static str = ".task-googlecloud-staging/";

/// One upload, by way of a staging name.
#[derive(Debug)]
pub struct PlannedUpload {
    pub file: String,
    pub staging: ObjectPath,
    pub target: ObjectPath,
}

/// A prefix for staging names: a fixed mark and a unique token.
pub open spec fn is_staging_prefix(prefix: Seq<char>) -> bool {
    exists|token: Seq<char>| #[trigger]
        unique_name::is_token(token) && prefix == ".task-googlecloud-staging/"@ + token
}

/// A prefix that no other run uses.
pub fn staging_prefix() -> (prefix: String)
    ensures
        is_staging_prefix(prefix@),
        exists|mark: Seq<char>| #[trigger]
            naming_laws::is_mark(mark) && prefix@ == ".task-googlecloud-staging/"@ + mark,
{
    let token = unique_name::fresh_token();
    assert(unique_name::is_token(token@));
    assert(naming_laws::is_mark(token@)) by {
        assert forall|i: int| 0 <= i < token@.len() implies '0' <= (#[trigger] token@[i]) <= '9'
            || 'a' <= token@[i] <= 'f' by {
            assert(unique_name::lower_hex(token@[i]));
        }
    }
    STAGING_PREFIX.to_string().concat(token.as_str())
}

/// The object under its staging name.
pub open spec fn staging_of(bucket: Seq<char>, prefix: Seq<char>, name: Seq<char>) -> ObjectPathView {
    ObjectPathView { bucket, object: prefix + "/"@ + name }
}

/// The staging prefix lengthens the object name, so a name that Cloud Storage
/// accepts on its own can still overflow the limit once staged.
pub fn staging_path(bucket: &str, staging_prefix: &str, object_name: &str) -> (staging: Result<
    ObjectPath,
    AppError,
>)
    ensures
        ({
            let path = staging_of(bucket@, staging_prefix@, object_name@);
            match staging {
                Ok(staging) => staging@ == path && path.name_bytes() <= MAX_OBJECT_NAME_BYTES,
                Err(error) => {
                    &&& path.name_bytes() > MAX_OBJECT_NAME_BYTES
                    &&& object_path::too_long(error, path, "temporary staging"@)
                },
            }
        }),
{
    let staging = ObjectPath::from_parts(
        bucket,
        staging_prefix.to_string().concat("/").concat(object_name).as_str(),
    );
    match staging.validate_name_length("temporary staging") {
        Ok(()) => Ok(staging),
        Err(error) => Err(error),
    }
}

/// Bytes as the characters of the same numbers: slashes and dots, which take a
/// path apart, stay what they are.
pub open spec fn byte_chars(bytes: Seq<u8>) -> Seq<char> {
    bytes.map_values(|byte: u8| byte as char)
}

/// The name of the bucket whose directory a path is: the path's last name, where
/// it is valid text.
pub open spec fn bucket_name_of(directory: LocalPathView, name: Option<Seq<char>>) -> bool {
    let last = local_path::name_of(byte_chars(directory.bytes));
    match name {
        Some(name) => last == Some(byte_chars(vstd::utf8::encode_utf8(name))),
        None => forall|bytes: Seq<u8>|
            last == Some(#[trigger] byte_chars(bytes)) ==> !vstd::utf8::valid_utf8(bytes),
    }
}

fn chars_of_bytes(bytes: &Vec<u8>) -> (chars: String)
    ensures
        chars@ == byte_chars(bytes@),
{
    let mut chars = String::new();
    let mut i: usize = 0;
    while i < bytes.len()
        invariant
            i <= bytes@.len(),
            chars@ == byte_chars(bytes@.take(i as int)),
        decreases bytes@.len() - i,
    {
        chars.push(bytes[i] as char);
        assert(chars@ =~= byte_chars(bytes@.take(i + 1)));
        i += 1;
    }
    assert(bytes@.take(bytes@.len() as int) =~= bytes@);
    chars
}

fn bytes_of_chars(text: &str) -> (bytes: Vec<u8>)
    requires
        forall|i: int| 0 <= i < text@.len() ==> 0 <= (#[trigger] text@[i]) as int <= 0xff,
    ensures
        byte_chars(bytes@) == text@,
{
    let chars = text::chars_of(text);
    let mut bytes: Vec<u8> = Vec::new();
    let mut i: usize = 0;
    while i < chars.len()
        invariant
            i <= chars@.len(),
            chars@ == text@,
            bytes@.len() == i,
            forall|k: int| 0 <= k < chars@.len() ==> 0 <= (#[trigger] chars@[k]) as int <= 0xff,
            forall|k: int| 0 <= k < i ==> #[trigger] bytes@[k] as char == chars@[k],
        decreases chars@.len() - i,
    {
        bytes.push(chars[i] as u8);
        i += 1;
    }
    assert(byte_chars(bytes@) =~= text@);
    bytes
}

/// Bytes are told apart by their characters.
proof fn byte_chars_are_unique(left: Seq<u8>, right: Seq<u8>)
    requires
        byte_chars(left) == byte_chars(right),
    ensures
        left == right,
{
    assert(byte_chars(left).len() == left.len());
    assert(byte_chars(right).len() == right.len());
    assert forall|i: int| 0 <= i < left.len() implies left[i] == right[i] by {
        assert(byte_chars(left)[i] == left[i] as char);
        assert(byte_chars(right)[i] == right[i] as char);
        assert((left[i] as char) as int == left[i] as int);
    }
    assert(left =~= right);
}

/// The error for a directory whose last name is no valid text.
pub open spec fn not_a_bucket(directory: LocalPathView, error: AppError) -> bool {
    &&& bucket_name_of(directory, None)
    &&& error matches AppError::Message(message)
    &&& message@ == "Directory is not valid UTF-8: "@ + directory.shown
}

fn bucket_name(directory: &LocalPath) -> (name: Result<String, AppError>)
    ensures
        match name {
            Ok(name) => bucket_name_of(directory@, Some(name@)),
            Err(error) => not_a_bucket(directory@, error),
        },
{
    let chars = chars_of_bytes(&directory.bytes);
    let found = match local_path::file_name(chars.as_str()) {
        Some(last) => {
            proof {
                local_path::names_are_made_of_the_path(chars@, last@);
                assert forall|i: int| 0 <= i < last@.len() implies 0 <= (
                #[trigger] last@[i]) as int <= 0xff by {
                    assert(chars@.contains(last@[i]));
                    let k = choose|k: int| 0 <= k < chars@.len() && chars@[k] == last@[i];
                    assert(chars@[k] == directory@.bytes[k] as char);
                }
            }
            let bytes = bytes_of_chars(last.as_str());
            proof {
                assert forall|other: Seq<u8>| byte_chars(bytes@) == #[trigger] byte_chars(
                    other,
                ) implies other == bytes@ by {
                    byte_chars_are_unique(bytes@, other);
                }
            }
            match text::utf8_text(bytes) {
                Ok(name) => Some(name),
                Err(_) => None,
            }
        },
        None => None,
    };
    match found {
        Some(name) => Ok(name),
        None => Err(
            AppError::Message(
                "Directory is not valid UTF-8: ".to_string().concat(directory.shown.as_str()),
            ),
        ),
    }
}

/// The buckets that the directories belong to, or the first directory that
/// belongs to none.
pub open spec fn buckets_of_directories(
    directories: Seq<(LocalPath, Vec<LocalPath>)>,
    names: Result<Seq<Seq<char>>, AppError>,
) -> bool {
    match names {
        Ok(names) => {
            &&& names.len() == directories.len()
            &&& forall|i: int|
                0 <= i < directories.len() ==> bucket_name_of(
                    directories[i].0@,
                    Some(#[trigger] names[i]),
                )
        },
        Err(error) => exists|i: int|
            {
                &&& 0 <= i < directories.len()
                &&& not_a_bucket((#[trigger] directories[i]).0@, error)
                &&& forall|k: int|
                    0 <= k < i ==> is_bucket_directory((#[trigger] directories[k]).0@)
            },
    }
}

/// The directory belongs to a bucket.
pub open spec fn is_bucket_directory(directory: LocalPathView) -> bool {
    exists|name: Seq<char>| #[trigger] bucket_name_of(directory, Some(name))
}

/// The buckets to lock before the directories are uploaded.
pub fn bucket_names(directories: &Vec<(LocalPath, Vec<LocalPath>)>) -> (names: Result<
    Vec<String>,
    AppError,
>)
    ensures
        buckets_of_directories(
            directories@,
            match names {
                Ok(names) => Ok(text::views(names@)),
                Err(error) => Err(error),
            },
        ),
{
    let mut names: Vec<String> = Vec::new();
    let mut i: usize = 0;
    while i < directories.len()
        invariant
            i <= directories@.len(),
            names@.len() == i,
            forall|k: int|
                0 <= k < i ==> bucket_name_of(
                    directories@[k].0@,
                    Some((#[trigger] text::views(names@)[k])),
                ),
        decreases directories@.len() - i,
    {
        let ghost so_far = text::views(names@);
        match bucket_name(&directories[i].0) {
            Ok(name) => {
                names.push(name);
                assert(text::views(names@) =~= so_far.push(name@));
            },
            Err(error) => {
                proof {
                    assert forall|k: int| 0 <= k < i implies is_bucket_directory(
                        (#[trigger] directories@[k]).0@,
                    ) by {
                        assert(bucket_name_of(directories@[k].0@, Some(so_far[k])));
                    }
                    assert(not_a_bucket(directories@[i as int].0@, error));
                }
                return Err(error);
            },
        }
        i += 1;
    }
    Ok(names)
}

/// The new name of a path: the target of the last pair whose source is the same
/// path.
pub open spec fn new_name(pairs: Seq<(String, String)>, path: Seq<char>) -> Option<String>
    decreases pairs.len(),
{
    if pairs.len() == 0 {
        None
    } else if local_path::same(pairs.last().0@, path) {
        Some(pairs.last().1)
    } else {
        new_name(pairs.drop_last(), path)
    }
}

/// The new name of a local path; one that is no valid text has none.
pub open spec fn is_new_name(pairs: Seq<(String, String)>, file: LocalPathView, name: Option<String>) -> bool {
    ||| !vstd::utf8::valid_utf8(file.bytes) && name is None
    ||| exists|path: Seq<char>| #[trigger]
        local::is_text_of(file.bytes, path) && name == new_name(pairs, path)
}

/// The components of the sources of the pairs.
fn source_components(pairs: &Vec<(String, String)>) -> (sources: Vec<Vec<Component>>)
    ensures
        sources@.len() == pairs@.len(),
        forall|i: int|
            0 <= i < pairs@.len() ==> local_path::component_views((#[trigger] sources@[i])@)
                == local_path::components(pairs@[i].0@),
{
    let mut sources: Vec<Vec<Component>> = Vec::new();
    let mut i: usize = 0;
    while i < pairs.len()
        invariant
            i <= pairs@.len(),
            sources@.len() == i,
            forall|k: int|
                0 <= k < i ==> local_path::component_views((#[trigger] sources@[k])@)
                    == local_path::components(pairs@[k].0@),
        decreases pairs@.len() - i,
    {
        sources.push(local_path::path_components(pairs[i].0.as_str()));
        i += 1;
    }
    sources
}

fn find_new_name(
    pairs: &Vec<(String, String)>,
    sources: &Vec<Vec<Component>>,
    file: &LocalPath,
) -> (name: Option<String>)
    requires
        sources@.len() == pairs@.len(),
        forall|i: int|
            0 <= i < pairs@.len() ==> local_path::component_views((#[trigger] sources@[i])@)
                == local_path::components(pairs@[i].0@),
    ensures
        is_new_name(pairs@, file@, name),
{
    let path = match local::path_string(file) {
        Ok(path) => path,
        Err(_) => {
            return None;
        },
    };
    assert(local::is_text_of(file@.bytes, path@));
    let parts = local_path::path_components(path.as_str());
    let ghost wanted = local_path::components(path@);
    let mut i: usize = pairs.len();
    assert(pairs@.take(i as int) =~= pairs@);
    while i > 0
        invariant
            i <= pairs@.len(),
            sources@.len() == pairs@.len(),
            wanted == local_path::components(path@),
            local_path::component_views(parts@) == wanted,
            local::is_text_of(file@.bytes, path@),
            forall|k: int|
                0 <= k < pairs@.len() ==> local_path::component_views((#[trigger] sources@[k])@)
                    == local_path::components(pairs@[k].0@),
            new_name(pairs@, path@) == new_name(pairs@.take(i as int), path@),
        decreases i,
    {
        i -= 1;
        let source = &sources[i];
        assert(pairs@.take(i + 1).drop_last() =~= pairs@.take(i as int));
        assert(local_path::component_views(source@) == local_path::components(pairs@[i as int].0@));
        if source.len() == parts.len() && local_path::starts_with(source, &parts) {
            assert(local_path::same(pairs@[i as int].0@, path@));
            return Some(pairs[i].1.clone());
        }
        assert(!local_path::same(pairs@[i as int].0@, path@)) by {
            if source@.len() != parts@.len() {
                assert(local_path::component_views(source@).len() != wanted.len());
            }
        }
    }
    None
}

/// The upload of a file to a bucket, or why it cannot be planned: the file has no
/// new name, the new name is no file name, the staging name is too long, or the
/// object cannot be named, whichever comes first.
pub open spec fn plans_upload(
    bucket: Seq<char>,
    file: LocalPathView,
    pairs: Seq<(String, String)>,
    staging_prefix: Seq<char>,
    planned: Result<PlannedUpload, AppError>,
) -> bool {
    exists|name: Option<String>|
        {
            &&& #[trigger] is_new_name(pairs, file, name)
            &&& match name {
                None => {
                    &&& planned matches Err(AppError::Message(message))
                    &&& message@ == "Missing normalized path for "@ + file.shown
                },
                Some(path) => match local_path::name_of(path@) {
                    None => {
                        &&& planned matches Err(AppError::Message(message))
                        &&& message@ == "File is not valid UTF-8: "@ + text::quoted_path(path@)
                    },
                    Some(object) => plans_named_upload(
                        bucket,
                        path,
                        object,
                        staging_prefix,
                        planned,
                    ),
                },
            }
        }
}

/// The upload of a named file to a bucket.
pub open spec fn plans_named_upload(
    bucket: Seq<char>,
    path: String,
    object: Seq<char>,
    staging_prefix: Seq<char>,
    planned: Result<PlannedUpload, AppError>,
) -> bool {
    let staging = staging_of(bucket, staging_prefix, object);
    let uri = "gs://"@ + bucket + "/"@ + object;
    if staging.name_bytes() > MAX_OBJECT_NAME_BYTES {
        planned matches Err(error) && object_path::too_long(error, staging, "temporary staging"@)
    } else {
        match planned {
            Ok(upload) => {
                &&& upload.file == path
                &&& upload.staging@ == staging
                &&& upload.target@.nameable()
                &&& upload.target@.uri() == uri
            },
            Err(error) => {
                &&& error matches AppError::InvalidStorageUri(text) && text@ == uri
                &&& forall|target: ObjectPathView| target.nameable() ==> #[trigger] target.uri() != uri
            },
        }
    }
}

fn plan_upload(
    bucket: &str,
    file: &LocalPath,
    pairs: &Vec<(String, String)>,
    sources: &Vec<Vec<Component>>,
    staging_prefix: &str,
) -> (planned: Result<PlannedUpload, AppError>)
    requires
        sources@.len() == pairs@.len(),
        forall|i: int|
            0 <= i < pairs@.len() ==> local_path::component_views((#[trigger] sources@[i])@)
                == local_path::components(pairs@[i].0@),
    ensures
        plans_upload(bucket@, file@, pairs@, staging_prefix@, planned),
{
    let name = find_new_name(pairs, sources, file);
    assert(is_new_name(pairs@, file@, name));
    let path = match name {
        None => {
            return Err(
                AppError::Message(
                    "Missing normalized path for ".to_string().concat(file.shown.as_str()),
                ),
            );
        },
        Some(path) => path,
    };
    let object = match local_path::file_name(path.as_str()) {
        None => {
            return Err(
                AppError::Message(
                    "File is not valid UTF-8: ".to_string().concat(
                        text::quote_path(path.as_str()).as_str(),
                    ),
                ),
            );
        },
        Some(object) => object,
    };
    let staging = match staging_path(bucket, staging_prefix, object.as_str()) {
        Ok(staging) => staging,
        Err(error) => {
            return Err(error);
        },
    };
    let uri = "gs://".to_string().concat(bucket).concat("/").concat(object.as_str());
    match ObjectPath::parse(uri.as_str()) {
        Ok(target) => Ok(PlannedUpload { file: path, staging, target }),
        Err(error) => Err(error),
    }
}

/// The upload can be planned.
pub open spec fn plannable(
    bucket: Seq<char>,
    file: LocalPathView,
    pairs: Seq<(String, String)>,
    staging_prefix: Seq<char>,
) -> bool {
    exists|upload: PlannedUpload| #[trigger]
        plans_upload(bucket, file, pairs, staging_prefix, Ok(upload))
}

/// The uploads of one directory, in order, or the first that cannot be planned.
pub open spec fn plans_directory(
    directory: LocalPathView,
    files: Seq<LocalPath>,
    pairs: Seq<(String, String)>,
    staging_prefix: Seq<char>,
    planned: Result<(String, Vec<PlannedUpload>), AppError>,
) -> bool {
    ||| planned matches Err(error) && not_a_bucket(directory, error)
    ||| exists|bucket: Seq<char>|
        {
            &&& #[trigger] bucket_name_of(directory, Some(bucket))
            &&& match planned {
                Ok((shown, uploads)) => {
                    &&& shown@ == text::lossy(directory.bytes)
                    &&& uploads@.len() == files.len()
                    &&& forall|i: int|
                        0 <= i < files.len() ==> plans_upload(
                            bucket,
                            files[i]@,
                            pairs,
                            staging_prefix,
                            Ok(#[trigger] uploads@[i]),
                        )
                },
                Err(error) => exists|i: int|
                    {
                        &&& 0 <= i < files.len()
                        &&& plans_upload(
                            bucket,
                            (#[trigger] files[i])@,
                            pairs,
                            staging_prefix,
                            Err(error),
                        )
                        &&& forall|k: int|
                            0 <= k < i ==> plannable(
                                bucket,
                                (#[trigger] files[k])@,
                                pairs,
                                staging_prefix,
                            )
                    },
            }
        }
}

fn plan_directory(
    directory: &LocalPath,
    files: &Vec<LocalPath>,
    pairs: &Vec<(String, String)>,
    sources: &Vec<Vec<Component>>,
    staging_prefix: &str,
) -> (planned: Result<(String, Vec<PlannedUpload>), AppError>)
    requires
        sources@.len() == pairs@.len(),
        forall|i: int|
            0 <= i < pairs@.len() ==> local_path::component_views((#[trigger] sources@[i])@)
                == local_path::components(pairs@[i].0@),
    ensures
        plans_directory(directory@, files@, pairs@, staging_prefix@, planned),
{
    let bucket = match bucket_name(directory) {
        Ok(bucket) => bucket,
        Err(error) => {
            return Err(error);
        },
    };
    assert(bucket_name_of(directory@, Some(bucket@)));
    let mut uploads: Vec<PlannedUpload> = Vec::new();
    let mut i: usize = 0;
    while i < files.len()
        invariant
            i <= files@.len(),
            sources@.len() == pairs@.len(),
            bucket_name_of(directory@, Some(bucket@)),
            forall|k: int|
                0 <= k < pairs@.len() ==> local_path::component_views((#[trigger] sources@[k])@)
                    == local_path::components(pairs@[k].0@),
            uploads@.len() == i,
            forall|k: int|
                0 <= k < i ==> plans_upload(
                    bucket@,
                    files@[k]@,
                    pairs@,
                    staging_prefix@,
                    Ok(#[trigger] uploads@[k]),
                ),
        decreases files@.len() - i,
    {
        match plan_upload(bucket.as_str(), &files[i], pairs, sources, staging_prefix) {
            Ok(upload) => {
                uploads.push(upload);
            },
            Err(error) => {
                proof {
                    assert(plans_upload(
                        bucket@,
                        files@[i as int]@,
                        pairs@,
                        staging_prefix@,
                        Err(error),
                    ));
                    assert forall|k: int| 0 <= k < i implies plannable(
                        bucket@,
                        (#[trigger] files@[k])@,
                        pairs@,
                        staging_prefix@,
                    ) by {
                        assert(plans_upload(
                            bucket@,
                            files@[k]@,
                            pairs@,
                            staging_prefix@,
                            Ok(uploads@[k]),
                        ));
                    }
                }
                return Err(error);
            },
        }
        i += 1;
    }
    Ok((text::lossy_text(directory.bytes.as_slice()), uploads))
}

/// The uploads of the directory can be planned.
pub open spec fn plannable_directory(
    directory: (LocalPath, Vec<LocalPath>),
    pairs: Seq<(String, String)>,
    staging_prefix: Seq<char>,
) -> bool {
    exists|planned: (String, Vec<PlannedUpload>)| #[trigger]
        plans_directory(directory.0@, directory.1@, pairs, staging_prefix, Ok(planned))
}

/// The uploads of every directory, in order, or the first failure.
pub open spec fn plans_uploads(
    directories: Seq<(LocalPath, Vec<LocalPath>)>,
    pairs: Seq<(String, String)>,
    staging_prefix: Seq<char>,
    planned: Result<Vec<(String, Vec<PlannedUpload>)>, AppError>,
) -> bool {
    match planned {
        Ok(planned) => {
            &&& planned@.len() == directories.len()
            &&& forall|i: int|
                0 <= i < directories.len() ==> plans_directory(
                    directories[i].0@,
                    directories[i].1@,
                    pairs,
                    staging_prefix,
                    Ok(#[trigger] planned@[i]),
                )
        },
        Err(error) => exists|i: int|
            {
                &&& 0 <= i < directories.len()
                &&& plans_directory(
                    (#[trigger] directories[i]).0@,
                    directories[i].1@,
                    pairs,
                    staging_prefix,
                    Err(error),
                )
                &&& forall|k: int|
                    0 <= k < i ==> plannable_directory(
                        #[trigger] directories[k],
                        pairs,
                        staging_prefix,
                    )
            },
    }
}

/// Plans the uploads of every directory, in order, or fails with the first that
/// cannot be planned. Nothing but the names decides, so a name that Cloud
/// Storage cannot accept stops the run before any file is renamed or uploaded.
pub fn plan_uploads(
    files_by_directory: &Vec<(LocalPath, Vec<LocalPath>)>,
    normalized_files: &Vec<(String, String)>,
    staging_prefix: &str,
) -> (planned: Result<Vec<(String, Vec<PlannedUpload>)>, AppError>)
    ensures
        plans_uploads(files_by_directory@, normalized_files@, staging_prefix@, planned),
{
    let sources = source_components(normalized_files);
    let mut planned: Vec<(String, Vec<PlannedUpload>)> = Vec::new();
    let mut i: usize = 0;
    while i < files_by_directory.len()
        invariant
            i <= files_by_directory@.len(),
            sources@.len() == normalized_files@.len(),
            forall|k: int|
                0 <= k < normalized_files@.len() ==> local_path::component_views(
                    (#[trigger] sources@[k])@,
                ) == local_path::components(normalized_files@[k].0@),
            planned@.len() == i,
            forall|k: int|
                0 <= k < i ==> plans_directory(
                    files_by_directory@[k].0@,
                    files_by_directory@[k].1@,
                    normalized_files@,
                    staging_prefix@,
                    Ok(#[trigger] planned@[k]),
                ),
        decreases files_by_directory@.len() - i,
    {
        let directory = &files_by_directory[i];
        match plan_directory(
            &directory.0,
            &directory.1,
            normalized_files,
            &sources,
            staging_prefix,
        ) {
            Ok(uploads) => {
                planned.push(uploads);
            },
            Err(error) => {
                proof {
                    assert(plans_directory(
                        files_by_directory@[i as int].0@,
                        files_by_directory@[i as int].1@,
                        normalized_files@,
                        staging_prefix@,
                        Err(error),
                    ));
                    assert forall|k: int| 0 <= k < i implies plannable_directory(
                        #[trigger] files_by_directory@[k],
                        normalized_files@,
                        staging_prefix@,
                    ) by {
                        assert(plans_directory(
                            files_by_directory@[k].0@,
                            files_by_directory@[k].1@,
                            normalized_files@,
                            staging_prefix@,
                            Ok(planned@[k]),
                        ));
                    }
                }
                return Err(error);
            },
        }
        i += 1;
    }
    Ok(planned)
}

/// All files of the directories, in order.
pub open spec fn files_in(directories: Seq<(LocalPath, Vec<LocalPath>)>) -> Seq<LocalPath>
    decreases directories.len(),
{
    if directories.len() == 0 {
        Seq::empty()
    } else {
        files_in(directories.drop_last()) + directories.last().1@
    }
}

/// The texts of the paths, or the error for the first that is no valid text.
pub open spec fn texts_of(files: Seq<LocalPath>, texts: Result<Seq<Seq<char>>, AppError>) -> bool {
    match texts {
        Ok(texts) => {
            &&& texts.len() == files.len()
            &&& forall|i: int|
                0 <= i < files.len() ==> local::is_text_of(files[i]@.bytes, #[trigger] texts[i])
        },
        Err(error) => exists|i: int|
            {
                &&& 0 <= i < files.len()
                &&& !vstd::utf8::valid_utf8((#[trigger] files[i])@.bytes)
                &&& error matches AppError::Message(message) && message@
                    == "Path is not valid UTF-8: "@ + files[i]@.shown
                &&& forall|k: int|
                    0 <= k < i ==> vstd::utf8::valid_utf8((#[trigger] files[k])@.bytes)
            },
    }
}

fn file_texts(directories: &Vec<(LocalPath, Vec<LocalPath>)>) -> (texts: Result<
    Vec<String>,
    AppError,
>)
    ensures
        texts_of(
            files_in(directories@),
            match texts {
                Ok(texts) => Ok(text::views(texts@)),
                Err(error) => Err(error),
            },
        ),
{
    let mut texts: Vec<String> = Vec::new();
    let ghost all = files_in(directories@);
    let mut i: usize = 0;
    while i < directories.len()
        invariant
            i <= directories@.len(),
            all == files_in(directories@),
            texts@.len() == files_in(directories@.take(i as int)).len(),
            texts_of(files_in(directories@.take(i as int)), Ok(text::views(texts@))),
        decreases directories@.len() - i,
    {
        let files = &directories[i].1;
        let ghost earlier = files_in(directories@.take(i as int));
        let ghost grown = files_in(directories@.take(i + 1));
        proof {
            assert(directories@.take(i + 1).drop_last() =~= directories@.take(i as int));
            assert(grown == earlier + files@);
            files_prefix(directories@, i + 1);
        }
        let mut j: usize = 0;
        assert(grown.take(earlier.len() as int) =~= earlier);
        while j < files.len()
            invariant
                j <= files@.len(),
                grown == earlier + files@,
                grown.is_prefix_of(all),
                all == files_in(directories@),
                texts@.len() == earlier.len() + j,
                texts_of(grown.take(earlier.len() + j), Ok(text::views(texts@))),
            decreases files@.len() - j,
        {
            let ghost so_far = text::views(texts@);
            let ghost at = earlier.len() + j;
            assert(grown[at as int] == files@[j as int]);
            match local::path_string(&files[j]) {
                Ok(path) => {
                    texts.push(path);
                    proof {
                        assert(text::views(texts@) =~= so_far.push(path@));
                        assert forall|k: int| 0 <= k < at + 1 implies local::is_text_of(
                            grown.take(at + 1)[k]@.bytes,
                            #[trigger] text::views(texts@)[k],
                        ) by {
                            if k < at {
                                assert(grown.take(at as int)[k] == grown.take(at + 1)[k]);
                                assert(text::views(texts@)[k] == so_far[k]);
                            }
                        }
                    }
                },
                Err(error) => {
                    proof {
                        assert(all[at as int] == files@[j as int]);
                        assert forall|k: int| 0 <= k < at implies vstd::utf8::valid_utf8(
                            (#[trigger] all[k])@.bytes,
                        ) by {
                            assert(all[k] == grown[k]);
                            assert(grown.take(at as int)[k] == all[k]);
                            assert(local::is_text_of(all[k]@.bytes, so_far[k]));
                            vstd::utf8::encode_utf8_valid_utf8(so_far[k]);
                        }
                    }
                    return Err(error);
                },
            }
            j += 1;
        }
        assert(grown.take(grown.len() as int) =~= grown);
        i += 1;
    }
    assert(directories@.take(directories@.len() as int) =~= directories@);
    Ok(texts)
}

/// The files of the first directories come first.
proof fn files_prefix(directories: Seq<(LocalPath, Vec<LocalPath>)>, count: int)
    requires
        0 <= count <= directories.len(),
    ensures
        files_in(directories.take(count)).is_prefix_of(files_in(directories)),
    decreases directories.len() - count,
{
    if count == directories.len() {
        assert(directories.take(count) =~= directories);
    } else {
        files_prefix(directories, count + 1);
        assert(directories.take(count + 1).drop_last() =~= directories.take(count));
    }
}

/// What an upload run does: the local names to give, and the uploads to make.
#[derive(Debug)]
pub struct UploadPlan {
    pub entries: Vec<Entry>,
    pub uploads: Vec<(String, Vec<PlannedUpload>)>,
}

/// The plan for the discovered files, or the first reason that there is none: a
/// path that is no valid text, colliding names, or an upload that cannot be
/// planned.
pub open spec fn plans_run(
    directories: Seq<(LocalPath, Vec<LocalPath>)>,
    staging_prefix: Seq<char>,
    plan: Result<UploadPlan, AppError>,
) -> bool {
    exists|texts: Result<Seq<Seq<char>>, AppError>|
        {
            &&& #[trigger] texts_of(files_in(directories), texts)
            &&& match texts {
                Err(error) => plan == Err::<UploadPlan, AppError>(error),
                Ok(names) => plans_named_run(directories, names, staging_prefix, plan),
            }
        }
}

/// The plan for the discovered files, given their names.
pub open spec fn plans_named_run(
    directories: Seq<(LocalPath, Vec<LocalPath>)>,
    names: Seq<Seq<char>>,
    staging_prefix: Seq<char>,
    plan: Result<UploadPlan, AppError>,
) -> bool {
    ||| plan matches Err(error) && normalization_plan::names_collisions(names, error)
    ||| {
        &&& forall|text: Seq<char>| !#[trigger] normalization_plan::collides(names, text)
        &&& exists|entries: Seq<Entry>|
            {
                &&& #[trigger] normalization_plan::entries_of(names, entries)
                &&& match plan {
                    Ok(plan) => {
                        &&& plan.entries@ == entries
                        &&& plans_uploads(
                            directories,
                            local::pairs_of(entries),
                            staging_prefix,
                            Ok(plan.uploads),
                        )
                    },
                    Err(error) => plans_uploads(
                        directories,
                        local::pairs_of(entries),
                        staging_prefix,
                        Err(error),
                    ),
                }
            }
    }
}

/// Plans an upload run while it is still a no-op: every name is derived before
/// any file is renamed or uploaded.
pub fn plan_run(directories: &Vec<(LocalPath, Vec<LocalPath>)>, staging_prefix: &str) -> (plan:
    Result<UploadPlan, AppError>)
    ensures
        plans_run(directories@, staging_prefix@, plan),
{
    let names = match file_texts(directories) {
        Ok(names) => names,
        Err(error) => {
            assert(texts_of(files_in(directories@), Err(error)));
            return Err(error);
        },
    };
    assert(texts_of(files_in(directories@), Ok(text::views(names@))));
    let entries = match normalization_plan::build(names.as_slice()) {
        Ok(entries) => entries,
        Err(error) => {
            return Err(error);
        },
    };
    assert(normalization_plan::entries_of(text::views(names@), entries@));
    let pairs = local::entry_pairs(&entries);
    match plan_uploads(directories, &pairs, staging_prefix) {
        Ok(uploads) => Ok(UploadPlan { entries, uploads }),
        Err(error) => Err(error),
    }
}

/// All uploads, directory after directory.
pub open spec fn uploads_in(directories: Seq<(String, Vec<PlannedUpload>)>) -> Seq<PlannedUpload>
    decreases directories.len(),
{
    if directories.len() == 0 {
        Seq::empty()
    } else {
        uploads_in(directories.drop_last()) + directories.last().1@
    }
}

/// The entries of the plan for the uploads of one directory.
pub open spec fn upload_entries(uploads: Seq<PlannedUpload>) -> Seq<PlannedView> {
    uploads.map_values(|upload: PlannedUpload| Planned::Upload(upload)@)
}

/// The plan of the uploads: each directory is shown before its first file is
/// uploaded.
pub open spec fn upload_plan(directories: Seq<(String, Vec<PlannedUpload>)>) -> Seq<PlannedView>
    decreases directories.len(),
{
    if directories.len() == 0 {
        Seq::empty()
    } else {
        upload_plan(directories.drop_last()).push(PlannedView::Line(directories.last().0@))
            + upload_entries(directories.last().1@)
    }
}

fn plan_of(uploads: &Vec<(String, Vec<PlannedUpload>)>) -> (plan: Vec<Planned>)
    ensures
        remote_run::plan_views(plan@) == upload_plan(uploads@),
        remote_run::plannable(true, remote_run::plan_views(plan@)),
{
    let mut plan: Vec<Planned> = Vec::new();
    let mut i: usize = 0;
    assert(remote_run::plan_views(plan@) =~= upload_plan(uploads@.take(0)));
    while i < uploads.len()
        invariant
            i <= uploads@.len(),
            remote_run::plan_views(plan@) == upload_plan(uploads@.take(i as int)),
            remote_run::plannable(true, remote_run::plan_views(plan@)),
        decreases uploads@.len() - i,
    {
        let planned = &uploads[i].1;
        let ghost entries = upload_entries(planned@);
        let ghost earlier = remote_run::plan_views(plan@).push(
            PlannedView::Line(uploads@[i as int].0@),
        );
        assert(uploads@.take(i + 1).drop_last() =~= uploads@.take(i as int));
        plan.push(Planned::Line(uploads[i].0.clone()));
        let mut j: usize = 0;
        assert(remote_run::plan_views(plan@) =~= earlier);
        assert(earlier + entries.take(0) =~= earlier);
        while j < planned.len()
            invariant
                j <= planned@.len(),
                entries == upload_entries(planned@),
                remote_run::plan_views(plan@) == earlier + entries.take(j as int),
                remote_run::plannable(true, remote_run::plan_views(plan@)),
            decreases planned@.len() - j,
        {
            let ghost so_far = remote_run::plan_views(plan@);
            plan.push(
                Planned::Upload(
                    PlannedUpload {
                        file: planned[j].file.clone(),
                        staging: planned[j].staging.clone(),
                        target: planned[j].target.clone(),
                    },
                ),
            );
            assert(remote_run::plan_views(plan@) =~= so_far.push(
                Planned::Upload(planned@[j as int])@,
            ));
            assert(earlier + entries.take(j + 1) =~= so_far.push(entries[j as int]));
            j += 1;
        }
        assert(entries.take(planned@.len() as int) =~= entries);
        i += 1;
    }
    assert(uploads@.take(uploads@.len() as int) =~= uploads@);
    plan
}

/// The calls make the uploads as one transaction, with the result.
pub open spec fn uploads_made(
    directories: Seq<(String, Vec<PlannedUpload>)>,
    calls: Seq<Call>,
    result: Result<(), AppError>,
) -> bool {
    RunStepView::start(true, upload_plan(directories)).gives(calls, result)
}

/// Uploads every file to its staging name, moves each to its target, and removes
/// everything again where any of it fails. Each directory is reported before its
/// first file is uploaded.
pub fn make_uploads<S: StorageClient, R: Fn(&str)>(
    session: &mut Session<'_, S>,
    uploads: &Vec<(String, Vec<PlannedUpload>)>,
    report: &R,
) -> (result: Result<(), AppError>)
    requires
        old(session).wf(),
        old(session).interrupt() is Some,
        forall|line: &str| #[trigger] report.requires((line,)),
    ensures
        final(session).belongs(old(session).storage(), old(session).interrupt(), old(session).held()),
        exists|calls: Seq<Call>|
            {
                &&& final(session).calls() == old(session).calls() + calls
                &&& #[trigger] uploads_made(uploads@, calls, result)
                &&& remote_run::all_reported(*report, calls)
            },
{
    let plan = plan_of(uploads);
    let result = remote_run::carry_out(session, true, plan, report);
    proof {
        let calls = choose|calls: Seq<Call>|
            {
                &&& session.calls() == old(session).calls() + calls
                &&& #[trigger] RunStepView::start(true, upload_plan(uploads@)).gives(calls, result)
                &&& remote_run::all_reported(*report, calls)
            };
        assert(uploads_made(uploads@, calls, result));
    }
    result
}

/// Makes the uploads in a session of its own. The caller holds the locks.
pub fn upload_planned_files_unlocked<S: StorageClient, R: Fn(&str)>(
    storage: &S,
    interrupt: &InterruptFlag,
    uploads: &Vec<(String, Vec<PlannedUpload>)>,
    report: R,
) -> (result: Result<(), AppError>)
    requires
        forall|line: &str| #[trigger] report.requires((line,)),
    ensures
        exists|session: Session<S>|
            {
                &&& #[trigger] session.belongs(*storage, Some(*interrupt), None)
                &&& uploads_made(uploads@, session.calls(), result)
                &&& remote_run::all_reported(report, session.calls())
            },
{
    let mut session = Session::new(storage, interrupt);
    make_uploads(&mut session, uploads, &report)
}

/// The buckets of the uploads, in order.
pub open spec fn target_buckets(uploads: Seq<PlannedUpload>) -> Seq<Seq<char>> {
    uploads.map_values(|upload: PlannedUpload| upload.target@.bucket)
}

/// The buckets to lock before the uploads are made.
pub fn upload_bucket_names(uploads: &Vec<(String, Vec<PlannedUpload>)>) -> (names: Vec<String>)
    ensures
        text::views(names@) == target_buckets(uploads_in(uploads@)),
{
    let mut names: Vec<String> = Vec::new();
    let mut i: usize = 0;
    while i < uploads.len()
        invariant
            i <= uploads@.len(),
            text::views(names@) == target_buckets(uploads_in(uploads@.take(i as int))),
        decreases uploads@.len() - i,
    {
        let planned = &uploads[i].1;
        let ghost earlier = text::views(names@);
        let ghost added = target_buckets(planned@);
        assert(uploads@.take(i + 1).drop_last() =~= uploads@.take(i as int));
        let mut j: usize = 0;
        assert(earlier + added.take(0) =~= earlier);
        while j < planned.len()
            invariant
                j <= planned@.len(),
                added == target_buckets(planned@),
                text::views(names@) == earlier + added.take(j as int),
            decreases planned@.len() - j,
        {
            let ghost so_far = text::views(names@);
            names.push(planned[j].target.bucket.clone());
            assert(text::views(names@) =~= so_far.push(planned@[j as int].target@.bucket));
            assert(earlier + added.take(j + 1) =~= so_far.push(added[j as int]));
            j += 1;
        }
        assert(added.take(planned@.len() as int) =~= added);
        assert(target_buckets(uploads_in(uploads@.take(i + 1))) =~= earlier + added);
        i += 1;
    }
    assert(uploads@.take(uploads@.len() as int) =~= uploads@);
    names
}

/// Makes the uploads while all their buckets are locked.
pub fn upload_planned_files<S: StorageClient>(
    storage: &S,
    interrupt: &InterruptFlag,
    uploads: &Vec<(String, Vec<PlannedUpload>)>,
) -> (result: Result<(), AppError>)
    ensures
        exists|ran: Option<Result<(), AppError>>|
            {
                &&& #[trigger] storage.locks(
                    target_buckets(uploads_in(uploads@)),
                    storage::outcome_if_run(ran),
                    storage::outcome(result),
                )
                &&& ran matches Some(value) ==> exists|session: Session<S>|
                    {
                        &&& #[trigger] session.belongs(
                            *storage,
                            Some(*interrupt),
                            Some(target_buckets(uploads_in(uploads@))),
                        )
                        &&& uploads_made(uploads@, session.calls(), value)
                    }
                &&& result is Ok ==> ran == Some(result)
            },
{
    let names = upload_bucket_names(uploads);
    let buckets = text::as_slices(&names);
    let process = |begun: Session<'_, S>| -> (result: Result<(), AppError>)
        requires
            begun.wf(),
            begun.interrupt() is Some,
            begun.calls().len() == 0,
        ensures
            exists|ended: Session<S>|
                {
                    &&& #[trigger] ended.belongs(begun.storage(), begun.interrupt(), begun.held())
                    &&& uploads_made(uploads@, ended.calls(), result)
                },
        {
            let mut session = begun;
            let silent = |line: &str| {};
            make_uploads(&mut session, uploads, &silent)
        };
    session::locked(storage, interrupt, buckets.as_slice(), process)
}

} // verus!
