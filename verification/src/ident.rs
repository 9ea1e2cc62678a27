//! Identifiers of records.

use vstd::prelude::*;

verus! {

/// Number of characters of a record identifier.
pub const ID_LENGTH: usize = 36;

/// A fresh identifier: the hyphenated lower-case form of
/// `uuid::Uuid::new_v4()`.
///
/// The value is drawn at random, so the contract states only what holds of
/// every outcome: the hyphenated form is 36 characters long. It is trusted,
/// not proved. The call panics where the operating system hands out no random
/// bytes.
#[verifier::external_body]
pub(crate) fn fresh_id() -> (id: String)
    ensures
        id@.len() == ID_LENGTH,
{
    uuid::Uuid::new_v4().to_string()
}

} // verus!
