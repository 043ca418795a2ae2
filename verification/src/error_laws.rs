//! What a failure tells about the operation that failed.
use vstd::prelude::*;

use crate::error;
use crate::error::AppError;
use crate::text;
use crate::text_laws;

verus! {

/// The failure of the operation itself, however many failures of undoing came on top.
pub open spec fn first_failure(error: AppError) -> AppError
    decreases error,
{
    match error {
        AppError::Rollback { original, .. } => first_failure(*original),
        _ => error,
    }
}

/// Why no token could be had, however many retrievals were made for one another.
pub open spec fn token_failure(error: AppError) -> AppError
    decreases error,
{
    match error {
        AppError::Token(cause, _) => token_failure(*cause),
        _ => error,
    }
}

/// Only an unreadable source, a failed command, an interrupt before the request and a
/// token that could not be had before any request leave Cloud Storage as it was.
pub proof fn only_early_failures_leave_storage_alone(error: AppError)
    ensures
        !error.has_reached_storage() <==> {
            ||| error is UploadSource
            ||| error is Command
            ||| error is Interrupted
            ||| error matches AppError::Token(_, reached) && !reached
        },
{
}

/// An operation was interrupted where it, or the command that was to get its token,
/// was interrupted, in whichever of the three ways, and in no other case.
pub proof fn an_interruption_is_known_through_its_token(error: AppError)
    ensures
        error.stopped_by_interrupt() <==> {
            ||| token_failure(error) is Interrupted
            ||| token_failure(error) is InterruptedAfterMoveRollback
            ||| token_failure(error) is InterruptedAfterRequest
        },
    decreases error,
{
    if let AppError::Token(cause, _) = error {
        an_interruption_is_known_through_its_token(*cause);
    }
}

/// Failures of undoing hide nothing of the first failure: whether it was a conflict over
/// a lock, under which generation it left the source, and whether its request may have
/// been sent.
pub proof fn a_failure_is_known_through_its_rollbacks(error: AppError)
    ensures
        error.lock_conflict() <==> first_failure(error) is BucketLockConflict,
        error.restored_generation() == match first_failure(error) {
            AppError::InterruptedAfterMoveRollback { restored_generation } => Some(
                restored_generation@,
            ),
            _ => None,
        },
        error.request_may_be_sent() <==> {
            ||| first_failure(error) is Http
            ||| first_failure(error) is Storage
            ||| first_failure(error) is StorageResponse
            ||| first_failure(error) is InterruptedAfterRequest
            ||| first_failure(error) matches AppError::Token(_, reached) && reached
        },
    decreases error,
{
    if let AppError::Rollback { original, .. } = error {
        a_failure_is_known_through_its_rollbacks(*original);
    }
}

/// Marking a failure as later than a request marks token failures, and changes no other.
pub proof fn marking_changes_token_failures_alone(error: AppError)
    ensures
        error.after_request() == match error {
            AppError::Token(cause, _) => AppError::Token(cause, true),
            _ => error,
        },
        error.after_request().has_reached_storage() || error is UploadSource || error is Command
            || error is Interrupted,
{
}

/// A failure has the status with which Cloud Storage refused it, and no other failure
/// has one.
pub proof fn only_a_refusal_has_a_status(error: AppError, status: u16)
    ensures
        error.refusal() == Some(status) <==> (error matches AppError::Storage { status: told, .. }
            && told == status),
{
}

/// What undoing adds to a failure is the list of what failed in undoing, in order, and
/// nothing where nothing failed.
pub proof fn a_rollback_keeps_the_failure_and_lists_the_others(
    combined: AppError,
    original: AppError,
    errors: Seq<AppError>,
)
    requires
        combined.rollback_of(original, errors),
    ensures
        errors.len() == 0 <==> combined == original,
        errors.len() > 0 ==> first_failure(combined) == first_failure(original),
        errors.len() == 1 ==> combined.text() == original.text() + "; rollback failed: "@
            + errors[0].text(),
        errors.len() > 1 ==> {
            let rest = AppError::Rollback {
                original: Box::new(original),
                details: combined->Rollback_details,
            };
            &&& combined == rest
            &&& combined->Rollback_details@ == text::joined(
                errors.drop_last().map_values(|error: AppError| error.text()),
                "; "@,
            ) + "; "@ + errors.last().text()
        },
{
    let written = error::texts(errors);
    if errors.len() > 0 {
        assert(combined is Rollback);
        a_rollback_is_not_its_failure(combined, original);
    }
    if errors.len() == 1 {
        assert(written.len() == 1);
        assert(text::joined(written, "; "@) == errors[0].text());
    }
    if errors.len() > 1 {
        assert(written.drop_last() =~= errors.drop_last().map_values(
            |error: AppError| error.text(),
        ));
    }
}

proof fn a_rollback_is_not_its_failure(combined: AppError, original: AppError)
    requires
        combined matches AppError::Rollback { original: kept, .. } && *kept == original,
    ensures
        combined != original,
    decreases original,
{
    if combined == original {
        if let AppError::Rollback { original: inner, .. } = original {
            a_rollback_is_not_its_failure(original, *inner);
        }
    }
}

/// A failure that wraps another one says what it wraps after what it adds.
pub proof fn a_wrapped_failure_is_told_with_its_cause(
    cause: AppError,
    details: Seq<char>,
    error: AppError,
)
    ensures
        error == AppError::BucketLockConflict(Box::new(cause)) ==> error.text()
            == "Cloud Storage bucket lock conflict: "@ + cause.text(),
        (error matches AppError::Token(inner, _) && *inner == cause) ==> error.text()
            == "Cloud Storage token retrieval failed: "@ + cause.text(),
        (error matches AppError::Rollback { original, details: told } && *original == cause
            && told@ == details) ==> error.text() == cause.text() + "; rollback failed: "@
            + details,
{
}


/// A failure says what kind it is and then what was told of it.
pub proof fn a_failure_says_its_kind_and_its_message(error: AppError)
    ensures
        match error {
            AppError::Message(message) => error.text() == message@,
            AppError::StorageResponse(message) => error.text() == message@,
            AppError::Io(cause) => error.text() == "I/O failed: "@ + cause.message@,
            AppError::UploadSource(cause) => error.text() == "Cannot read the upload source: "@
                + cause.message@,
            AppError::Http(message) => error.text() == "HTTP request failed: "@ + message@,
            AppError::Collision(names) => error.text() == "Normalized names collide: "@ + names@,
            AppError::UnsupportedPlatform(platform) => error.text()
                == "Atomic no-replace rename is not supported on "@ + platform@,
            AppError::InvalidStorageUri(uri) => error.text() == "Expected a Cloud Storage URI: "@
                + text::quoted(uri@),
            AppError::MissingGeneration(object) => error.text() == "Cannot verify ownership for "@
                + text::quoted(object@) + " without a generation"@,
            AppError::Recovery { paths, operation, details } => error.text()
                == "Manual recovery required for "@ + paths@ + " after "@ + operation@ + "; "@
                + details@,
            AppError::Command { operation, status, details } => error.text()
                == "Cloud command failed: "@ + operation@ + " (exit status: "@ + status@ + ")"@
                + details@,
            AppError::Interrupted => error.text() == "Operation interrupted"@,
            AppError::InterruptedAfterRequest => error.text()
                == "Operation interrupted during a Cloud Storage request"@,
            AppError::InterruptedAfterMoveRollback { .. } => error.text()
                == "Operation interrupted after restoring a moved object"@,
            _ => true,
        },
{
}

/// A refusal is told with its status in digits.
pub proof fn a_refusal_is_told_with_its_status(error: AppError)
    requires
        error is Storage,
    ensures
        exists|digits: Seq<char>|
            {
                &&& #[trigger] text_laws::number_of(digits) == error->Storage_status
                &&& forall|i: int| 0 <= i < digits.len() ==> '0' <= #[trigger] digits[i] <= '9'
                &&& error.text() == "Cloud Storage API request failed ("@ + digits + "): "@
                    + error->Storage_message@
            },
{
    let digits = text::decimal(error->Storage_status as nat);
    text_laws::a_written_number_reads_as_the_number(error->Storage_status as nat);
    assert(text_laws::number_of(digits) == error->Storage_status);
}

} // verus!
