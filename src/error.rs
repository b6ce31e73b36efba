//! The closed set of failures and how each is shown to a client.

use vstd::prelude::*;
use vstd::string::*;

verus! {

/// A failure of an operation on the catalog.
#[derive(Debug)]
pub enum AppError {
    /// The store failed; the detail is for the log, never for the client.
    DatabaseError(String),
    /// The product asked for does not exist.
    NotFound,
    /// The input was malformed or invalid; the message is shown to the client.
    ValidationError(String),
}

/// The HTTP status and message a failure is answered with.
pub struct ErrorReply {
    pub status: u16,
    pub message: String,
}

impl AppError {
    /// The HTTP status of the failure.
    pub open spec fn status_of(&self) -> u16 {
        match self {
            AppError::DatabaseError(_) => 500,
            AppError::NotFound => 404,
            AppError::ValidationError(_) => 400,
        }
    }

    /// The message a client is shown.
    pub open spec fn message_of(&self) -> Seq<char> {
        match self {
            AppError::DatabaseError(_) => "Internal server error"@,
            AppError::NotFound => "Resource not found"@,
            AppError::ValidationError(m) => m@,
        }
    }

    /// The failure described in a sentence, as it is logged.
    pub open spec fn description(&self) -> Seq<char> {
        match self {
            AppError::DatabaseError(_) => "Database error"@,
            AppError::NotFound => "Not found"@,
            AppError::ValidationError(m) => "Invalid input: "@ + m@,
        }
    }

    pub fn status_code(&self) -> (r: u16)
        ensures
            r == self.status_of(),
    {
        match self {
            AppError::DatabaseError(_) => 500,
            AppError::NotFound => 404,
            AppError::ValidationError(_) => 400,
        }
    }

    pub fn client_message(&self) -> (r: String)
        ensures
            r@ == self.message_of(),
    {
        match self {
            AppError::DatabaseError(_) => String::from_str("Internal server error"),
            AppError::NotFound => String::from_str("Resource not found"),
            AppError::ValidationError(m) => m.clone(),
        }
    }

    /// The status and message the failure is answered with; the detail of a
    /// store failure is not part of it.
    pub fn into_reply(self) -> (r: ErrorReply)
        ensures
            r.status == self.status_of(),
            r.message@ == self.message_of(),
    {
        let status = self.status_code();
        let message = self.client_message();
        ErrorReply { status, message }
    }

    pub fn describe(&self) -> (r: String)
        ensures
            r@ == self.description(),
    {
        match self {
            AppError::DatabaseError(_) => String::from_str("Database error"),
            AppError::NotFound => String::from_str("Not found"),
            AppError::ValidationError(m) => {
                let mut s = String::from_str("Invalid input: ");
                s.append(m.as_str());
                s
            },
        }
    }
}

} // verus!
