use vstd::prelude::*;

verus! {

/// Identifiers of URLs, jobs, checks, check rounds and incidents are
/// `uuid::Uuid` values, carried through the library unread.
#[verifier::external_type_specification]
#[verifier::external_body]
pub struct ExUuid(uuid::Uuid);

/// Draws a fresh random identifier with `uuid::Uuid::new_v4`. It comes from
/// a random number generator: nothing is stated of its value.
#[verifier::external_body]
pub(crate) fn new_v4() -> uuid::Uuid {
    uuid::Uuid::new_v4()
}

} // verus!
