use vstd::prelude::*;

verus! {

/// Uniform success envelope for handlers: `{ "status": <code>, "body": <T> }`.
/// Pairs with `AppError`, which renders `{ "status": <code>, "message": <string> }`
/// on failure, so every response from the API has the same top-level shape.
pub struct ApiResponse<T> {
    status: u16,
    body: T,
}

impl<T> ApiResponse<T> {
    /// The response's status code.
    pub closed spec fn spec_status(&self) -> u16 {
        self.status
    }

    /// The response's body.
    pub closed spec fn spec_body(&self) -> T {
        self.body
    }

    /// A response with the given status code and body.
    pub fn new(status: u16, body: T) -> (r: Self)
        ensures
            r.spec_status() == status,
            r.spec_body() == body,
    {
        ApiResponse { status, body }
    }

    /// A `200 OK` response with the given body.
    pub fn ok(body: T) -> (r: Self)
        ensures
            r.spec_status() == 200,
            r.spec_body() == body,
    {
        Self::new(200, body)
    }

    /// The response's status code.
    pub fn status(&self) -> (r: u16)
        ensures
            r == self.spec_status(),
    {
        self.status
    }

    /// The response's body.
    pub fn into_body(self) -> (r: T)
        ensures
            r == self.spec_body(),
    {
        self.body
    }
}

} // verus!
