//! The service's error taxonomy and its mapping to HTTP status codes and
//! client-visible messages. Unexpected failures keep their detail internal:
//! the client only ever sees a fixed generic message for them.

use vstd::prelude::*;

verus! {

#[derive(Debug, Clone, PartialEq, Eq)]
pub enum AppError {
    /// The requested user does not exist.
    NotFound,
    /// The caller's input violates a domain rule; the message is safe to expose.
    BadRequest(String),
    /// Any unexpected failure; the detail is for server-side logs only.
    Other(String),
}

impl AppError {
    /// The HTTP status each error kind is surfaced with.
    pub open spec fn spec_status_code(&self) -> int {
        match self {
            AppError::NotFound => 404,
            AppError::BadRequest(_) => 400,
            AppError::Other(_) => 500,
        }
    }

    /// The text a client is shown for this error. A `BadRequest` carries its
    /// own message; an `Other` never leaks its detail.
    pub open spec fn spec_client_message(&self) -> Seq<char> {
        match self {
            AppError::NotFound => "not found"@,
            AppError::BadRequest(m) => m@,
            AppError::Other(_) => "Something went wrong!"@,
        }
    }

    pub fn status_code(&self) -> (s: u16)
        ensures
            s as int == self.spec_status_code(),
    {
        match self {
            AppError::NotFound => 404,
            AppError::BadRequest(_) => 400,
            AppError::Other(_) => 500,
        }
    }

    pub fn client_message(&self) -> (m: String)
        ensures
            m@ == self.spec_client_message(),
    {
        match self {
            AppError::NotFound => "not found".to_owned(),
            AppError::BadRequest(msg) => msg.clone(),
            AppError::Other(_) => "Something went wrong!".to_owned(),
        }
    }

    /// Wraps the description of a failed document-store call. The detail is
    /// kept for logging; `spec_client_message` hides it from clients.
    pub fn from_store_error(detail: String) -> (e: AppError)
        ensures
            e matches AppError::Other(d) && d@ == detail@,
    {
        AppError::Other(detail)
    }
}

/// The rejection produced for a name that is not letters-only.
pub open spec fn is_invalid_name_error(e: AppError) -> bool {
    e matches AppError::BadRequest(m) && m@ == "Invalid name, only letters allowed."@
}

/// The rejection produced for a birthday lying after today.
pub open spec fn is_future_birthday_error(e: AppError) -> bool {
    e matches AppError::BadRequest(m) && m@ == "Provided birthday is in the future!"@
}

} // verus!
