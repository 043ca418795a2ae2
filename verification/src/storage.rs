//! The storage operations that the workflows are built on.
use vstd::prelude::*;

use crate::atomic_rename::DirectoryIdentity;
use crate::error::AppError;
use crate::object_path::ObjectPath;
use crate::object_path::ObjectPathView;
use crate::text;
use crate::upload_source::UploadSourceIdentity;

verus! {

/// The generation that an operation returned.
pub open spec fn generation_in(answer: Result<String, AppError>) -> Result<Seq<char>, AppError> {
    match answer {
        Ok(generation) => Ok(generation@),
        Err(error) => Err(error),
    }
}

/// The names that a listing returned.
pub open spec fn names_in(answer: Result<Vec<String>, AppError>) -> Result<Seq<Seq<char>>, AppError> {
    match answer {
        Ok(names) => Ok(text::views(names@)),
        Err(error) => Err(error),
    }
}

/// The content of an optional string slice.
pub open spec fn optional(text: Option<&str>) -> Option<Seq<char>> {
    match text {
        Some(text) => Some(text@),
        None => None,
    }
}

/// How an operation ended, without its value.
pub open spec fn outcome<T>(result: Result<T, AppError>) -> Result<(), AppError> {
    match result {
        Ok(_) => Ok(()),
        Err(error) => Err(error),
    }
}

/// How an operation ended, where it was run at all.
pub open spec fn outcome_if_run<T>(ran: Option<Result<T, AppError>>) -> Option<
    Result<(), AppError>,
> {
    match ran {
        Some(result) => Some(outcome(result)),
        None => None,
    }
}

/// Access to Cloud Storage. The spec functions tell which answers an
/// implementation gives to which calls: any answer, where it says no more. The
/// workflows are verified for every choice of them.
pub trait StorageClient {
    /// Listing the bucket may give the answer.
    open spec fn lists(&self, bucket: Seq<char>, answer: Result<Seq<Seq<char>>, AppError>) -> bool {
        true
    }

    /// Uploading the file to the target, where it must be the one of the identity,
    /// if there is one, may give the answer.
    open spec fn uploads(
        &self,
        source: Seq<char>,
        target: ObjectPathView,
        identity: Option<UploadSourceIdentity>,
        answer: Result<Seq<char>, AppError>,
    ) -> bool {
        true
    }

    /// Moving the source to the target may give the answer.
    open spec fn moves(
        &self,
        source: ObjectPathView,
        target: ObjectPathView,
        expected_source_generation: Option<Seq<char>>,
        answer: Result<Seq<char>, AppError>,
    ) -> bool {
        true
    }

    /// Moving the target back to the source may give the answer.
    open spec fn rolls_back(
        &self,
        source: ObjectPathView,
        target: ObjectPathView,
        target_generation: Seq<char>,
        answer: Result<Seq<char>, AppError>,
    ) -> bool {
        true
    }

    /// Removing the target at its generation may give the answer.
    open spec fn cleans_up(
        &self,
        target: ObjectPathView,
        target_generation: Seq<char>,
        answer: Result<(), AppError>,
    ) -> bool {
        true
    }

    /// Confirming a failed move may give the answer.
    open spec fn confirms_move(
        &self,
        source: ObjectPathView,
        target: ObjectPathView,
        operation: AppError,
        answer: Result<(), AppError>,
    ) -> bool {
        true
    }

    /// Confirming a failed write may give the answer.
    open spec fn confirms_write(
        &self,
        target: ObjectPathView,
        operation: AppError,
        answer: Result<(), AppError>,
    ) -> bool {
        true
    }

    /// Running an operation under the locks of the buckets may give the answer,
    /// where the operation ended so, or was not run.
    open spec fn locks(
        &self,
        buckets: Seq<Seq<char>>,
        ran: Option<Result<(), AppError>>,
        answer: Result<(), AppError>,
    ) -> bool {
        true
    }

    /// The URIs of the bucket's objects.
    fn list_objects(&self, bucket: &str) -> (objects: Result<Vec<String>, AppError>)
        ensures
            self.lists(bucket@, names_in(objects)),
    ;

    /// Runs the operation while the buckets are locked. It may fail without
    /// running the operation, and it may fail although the operation succeeded;
    /// it succeeds only with the operation's own value.
    fn with_bucket_locks<T, F>(&self, buckets: &[&str], operation: F) -> (result: Result<T, AppError>)
        where F: FnOnce() -> Result<T, AppError>
        requires
            operation.requires(()),
        ensures
            exists|ran: Option<Result<T, AppError>>|
                {
                    &&& #[trigger] self.locks(
                        text::slice_views(buckets@),
                        outcome_if_run(ran),
                        outcome(result),
                    )
                    &&& ran matches Some(value) ==> operation.ensures((), value)
                    &&& result is Ok ==> ran == Some(result)
                },
    ;

    /// Remembers the directory that uploads must come from. An implementation that
    /// does not say otherwise remembers none, and succeeds.
    fn set_upload_root_identity(&self, identity: Option<DirectoryIdentity>) -> (remembered: Result<
        (),
        AppError,
    >)
        default_ensures
            remembered == Ok::<(), AppError>(()),
    {
        Ok(())
    }

    /// Uploads the file, provided it is still the one that was discovered.
    fn upload_file_with_identity(
        &self,
        source: &str,
        target: &ObjectPath,
        identity: Option<UploadSourceIdentity>,
    ) -> (generation: Result<String, AppError>)
        ensures
            self.uploads(source@, target@, identity, generation_in(generation)),
    ;

    /// Uploads the file to a name that must not exist yet and returns the
    /// generation it was stored at.
    fn upload_file(&self, source: &str, target: &ObjectPath) -> (generation: Result<
        String,
        AppError,
    >)
        ensures
            self.uploads(source@, target@, None, generation_in(generation)),
    ;

    /// Moves an object and returns the generation of the target.
    fn move_object(
        &self,
        source: &ObjectPath,
        target: &ObjectPath,
        expected_source_generation: Option<&str>,
    ) -> (generation: Result<String, AppError>)
        ensures
            self.moves(
                source@,
                target@,
                optional(expected_source_generation),
                generation_in(generation),
            ),
    ;

    /// Moves an object back and returns the new generation of the source.
    fn rollback_object(
        &self,
        source: &ObjectPath,
        target: &ObjectPath,
        target_generation: &str,
    ) -> (generation: Result<String, AppError>)
        ensures
            self.rolls_back(source@, target@, target_generation@, generation_in(generation)),
    ;

    /// Removes an object at its generation.
    fn cleanup_object(&self, target: &ObjectPath, target_generation: &str) -> (removed: Result<
        (),
        AppError,
    >)
        ensures
            self.cleans_up(target@, target_generation@, removed),
    ;

    /// Accepts a failed move that left both objects as they were.
    fn confirm_move_after_failure(
        &self,
        source: &ObjectPath,
        target: &ObjectPath,
        operation: &AppError,
    ) -> (confirmed: Result<(), AppError>)
        ensures
            self.confirms_move(source@, target@, *operation, confirmed),
    ;

    /// Accepts a failed write that left no object behind.
    fn confirm_write_after_failure(&self, target: &ObjectPath, operation: &AppError) -> (confirmed:
        Result<(), AppError>)
        ensures
            self.confirms_write(target@, *operation, confirmed),
    ;
}

} // verus!
