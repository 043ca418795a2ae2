//! What the metadata of an object says about its state.
use vstd::prelude::*;

use crate::error::AppError;
use crate::object_path::ObjectPath;
use crate::object_path::ObjectPathView;
use crate::storage_request::ObjectMetadata;
use crate::text;

verus! {

#[derive(Clone, Copy, Debug, PartialEq, Eq, Structural)]
pub enum ObjectState {
    Present,
    Missing,
}

/// The status with which Cloud Storage answers for an object that is not there.
pub const NOT_FOUND: u16 = 404;

/// The state that a metadata lookup shows.
pub open spec fn state_in(lookup: Result<ObjectMetadata, AppError>) -> Result<
    ObjectState,
    AppError,
> {
    match lookup {
        Ok(_) => Ok(ObjectState::Present),
        Err(error) => if error.refusal() == Some(NOT_FOUND) {
            Ok(ObjectState::Missing)
        } else {
            Err(error)
        },
    }
}

/// The state that a metadata lookup shows.
pub fn object_state(lookup: Result<ObjectMetadata, AppError>) -> (state: Result<
    ObjectState,
    AppError,
>)
    ensures
        state == state_in(lookup),
        match lookup {
            Ok(_) => state == Ok::<ObjectState, AppError>(ObjectState::Present),
            Err(AppError::Storage { status: 404, .. }) => state == Ok::<ObjectState, AppError>(
                ObjectState::Missing,
            ),
            Err(error) => state == Err::<ObjectState, AppError>(error),
        },
{
    match lookup {
        Ok(_) => Ok(ObjectState::Present),
        Err(error) => match error.status() {
            Some(status) => if status == NOT_FOUND {
                Ok(ObjectState::Missing)
            } else {
                Err(error)
            },
            None => Err(error),
        },
    }
}

/// The state and the generation that a metadata lookup shows.
pub open spec fn details_in(lookup: Result<ObjectMetadata, AppError>) -> Result<
    (ObjectState, Option<String>),
    AppError,
> {
    match lookup {
        Ok(metadata) => Ok((ObjectState::Present, Some(metadata.generation))),
        Err(error) => if error.refusal() == Some(NOT_FOUND) {
            Ok((ObjectState::Missing, None))
        } else {
            Err(error)
        },
    }
}

/// The state and the generation that a metadata lookup shows.
pub fn object_details(lookup: Result<ObjectMetadata, AppError>) -> (details: Result<
    (ObjectState, Option<String>),
    AppError,
>)
    ensures
        details == details_in(lookup),
{
    match lookup {
        Ok(metadata) => Ok((ObjectState::Present, Some(metadata.generation))),
        Err(error) => match error.status() {
            Some(status) => if status == NOT_FOUND {
                Ok((ObjectState::Missing, None))
            } else {
                Err(error)
            },
            None => Err(error),
        },
    }
}

/// The details in words.
pub open spec fn details_text(
    object: ObjectPathView,
    details: Result<(ObjectState, Option<String>), AppError>,
) -> Seq<char> {
    match details {
        Ok((ObjectState::Missing, _)) => object.uri() + " is missing"@,
        Ok((ObjectState::Present, Some(generation))) => object.uri() + ": generation "@
            + generation@,
        Ok((ObjectState::Present, None)) => object.uri() + ": generation unknown"@,
        Err(error) => object.uri() + ": state unknown ("@ + error.text() + ")"@,
    }
}

/// A failed lookup is reported rather than propagated so that the caller still
/// learns which objects need manual recovery.
pub fn state_details(
    object: &ObjectPath,
    details: &Result<(ObjectState, Option<String>), AppError>,
) -> (words: String)
    ensures
        words@ == details_text(object@, *details),
{
    let uri = object.uri();
    match details {
        Ok((ObjectState::Missing, _)) => uri.concat(" is missing"),
        Ok((ObjectState::Present, Some(generation))) => uri.concat(": generation ").concat(
            generation.as_str(),
        ),
        Ok((ObjectState::Present, None)) => uri.concat(": generation unknown"),
        Err(error) => uri.concat(": state unknown (").concat(error.to_string().as_str()).concat(
            ")",
        ),
    }
}

/// Whether a lookup shows the object at the generation.
pub open spec fn shows_generation(
    lookup: Result<ObjectMetadata, AppError>,
    generation: Seq<char>,
) -> bool {
    lookup matches Ok(metadata) && metadata.generation@ == generation
}

/// The details of a lookup that follows a change: a token failure is marked as
/// following a request.
pub open spec fn details_after_change(lookup: Result<ObjectMetadata, AppError>) -> Result<
    (ObjectState, Option<String>),
    AppError,
> {
    match details_in(lookup) {
        Ok(details) => Ok(details),
        Err(error) => Err(error.after_request()),
    }
}

/// The error for an object that is not at the expected generation.
pub open spec fn not_at_generation(
    error: AppError,
    object: ObjectPathView,
    expected_generation: Seq<char>,
    operation: Seq<char>,
    lookup: Result<ObjectMetadata, AppError>,
) -> bool {
    &&& error matches AppError::Recovery { paths, operation: operation_text, details }
    &&& paths@ == text::quoted(object.uri())
    &&& operation_text@ == operation
    &&& details@ == "Expected generation "@ + expected_generation + "; "@ + details_text(
        object,
        details_after_change(lookup),
    )
}

/// Accepts a lookup that shows the object at the expected generation. A copied
/// object already changed remote state, so anything else asks for recovery, and
/// verification token failures remain recoverable.
pub fn confirm_object_generation(
    object: &ObjectPath,
    expected_generation: &str,
    operation: &str,
    lookup: Result<ObjectMetadata, AppError>,
) -> (confirmed: Result<(), AppError>)
    ensures
        match confirmed {
            Ok(()) => shows_generation(lookup, expected_generation@),
            Err(error) => {
                &&& !shows_generation(lookup, expected_generation@)
                &&& not_at_generation(
                    error,
                    object@,
                    expected_generation@,
                    operation@,
                    lookup,
                )
            },
        },
{
    let details = match object_details(lookup) {
        Ok(details) => Ok(details),
        Err(error) => Err(error.mark_reached_storage()),
    };
    if let Ok((ObjectState::Present, Some(generation))) = &details {
        if text::same_text(generation.as_str(), expected_generation) {
            return Ok(());
        }
    }
    Err(
        AppError::Recovery {
            paths: text::quote(object.uri().as_str()),
            operation: operation.to_string(),
            details: "Expected generation ".to_string().concat(expected_generation).concat(
                "; ",
            ).concat(state_details(object, &details).as_str()),
        },
    )
}

} // verus!
