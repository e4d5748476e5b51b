use vstd::prelude::*;

verus! {

/// A request body read as JSON: a malformed or mistyped body is answered
/// through the same `{ "status", "message" }` envelope as every other error.
pub struct AppJson<T>(pub T);

} // verus!
