use vstd::prelude::*;

verus! {

/// The errors that the API answers with. `Database` and `Internal` carry a
/// description of the underlying failure for the logs; it never reaches the
/// client.
#[derive(Debug)]
pub enum AppError {
    NotFound,
    NotFoundMsg(String),
    BadRequest(String),
    Unauthorized,
    Forbidden,
    Conflict(String),
    Database(String),
    Internal(String),
}

/// The HTTP status code that answers an error.
pub open spec fn error_status(e: AppError) -> u16 {
    match e {
        AppError::NotFound => 404,
        AppError::NotFoundMsg(_) => 404,
        AppError::BadRequest(_) => 400,
        AppError::Unauthorized => 401,
        AppError::Forbidden => 403,
        AppError::Conflict(_) => 409,
        AppError::Database(_) => 500,
        AppError::Internal(_) => 500,
    }
}

/// The message that the client sees for an error.
pub open spec fn error_message(e: AppError) -> Seq<char> {
    match e {
        AppError::NotFound => "not found"@,
        AppError::NotFoundMsg(m) => m@,
        AppError::BadRequest(m) => m@,
        AppError::Unauthorized => "unauthorized"@,
        AppError::Forbidden => "forbidden"@,
        AppError::Conflict(m) => m@,
        AppError::Database(_) => "internal server error"@,
        AppError::Internal(_) => "internal server error"@,
    }
}

/// Whether `e` is a bad request whose message is `message`.
pub open spec fn is_bad_request(e: AppError, message: Seq<char>) -> bool {
    e matches AppError::BadRequest(m) && m@ == message
}

impl AppError {
    /// The status code and the message with which the error is answered:
    /// the client gets an opaque 500 for database and internal failures.
    pub fn status_and_message(&self) -> (r: (u16, String))
        ensures
            r.0 == error_status(*self),
            r.1@ == error_message(*self),
    {
        match self {
            AppError::NotFound => (404, "not found".to_owned()),
            AppError::NotFoundMsg(msg) => (404, msg.clone()),
            AppError::BadRequest(msg) => (400, msg.clone()),
            AppError::Unauthorized => (401, "unauthorized".to_owned()),
            AppError::Forbidden => (403, "forbidden".to_owned()),
            AppError::Conflict(msg) => (409, msg.clone()),
            AppError::Database(_) => (500, "internal server error".to_owned()),
            AppError::Internal(_) => (500, "internal server error".to_owned()),
        }
    }
}

/// Every error is answered with a client-error or server-error status, and
/// database and internal failures are answered with 500 and the same
/// message whatever they carry.
pub proof fn lemma_errors_answer_with_error_status(e: AppError)
    ensures
        400 <= error_status(e) < 600,
        (e is Database || e is Internal) ==> error_status(e) == 500 && error_message(e) == "internal server error"@,
{
}

} // verus!
