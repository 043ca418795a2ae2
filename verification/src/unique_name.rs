//! Names that no other run uses.
use vstd::prelude::*;

verus! {

/// A lower-case hexadecimal digit.
pub open spec fn lower_hex(c: char) -> bool {
    '0' <= c <= '9' || 'a' <= c <= 'f'
}

/// The form of a unique token: thirty-two lower-case hexadecimal digits.
pub open spec fn is_token(token: Seq<char>) -> bool {
    &&& token.len() == 32
    &&& forall|i: int| 0 <= i < token.len() ==> lower_hex(#[trigger] token[i])
}

/// Makes a random token with `uuid::Uuid::new_v4`, written in the `Simple`
/// format: the thirty-two lower-case hexadecimal digits of the UUID, without
/// hyphens. The digits themselves are random.
#[verifier::external_body]
pub(crate) fn fresh_token() -> (token: String)
    ensures
        is_token(token@),
{
    uuid::Uuid::new_v4().simple().to_string()
}

} // verus!
