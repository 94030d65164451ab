use vstd::prelude::*;

verus! {

/// Failure taxonomy of the library: every fallible operation reports one of
/// these, each variant carrying or implying a human-readable message.
#[derive(Debug, PartialEq, Eq)]
pub enum Error {
    /// A file or network failure reported by the surrounding application.
    Io(String),
    /// A store operation violated a uniqueness or referential constraint.
    ConstraintViolation,
    /// The record an operation requires does not exist.
    NotFound,
    /// A settings document could not be parsed.
    Serialization,
    /// A barcode payload was rejected by the encoder, or a rendered part
    /// does not fit on the canvas.
    Render,
    /// A password did not match on login or on a guarded update.
    AuthError,
}

impl Error {
    /// A user-facing description of the failure.
    pub fn message(&self) -> (r: String)
        ensures
            r@ == match *self {
                Error::Io(m) => m@,
                Error::ConstraintViolation => "constraint violation"@,
                Error::NotFound => "not found"@,
                Error::Serialization => "malformed settings document"@,
                Error::Render => "rendering failed"@,
                Error::AuthError => "Authentication error"@,
            },
    {
        proof {
            reveal_strlit("constraint violation");
            reveal_strlit("not found");
            reveal_strlit("malformed settings document");
            reveal_strlit("rendering failed");
            reveal_strlit("Authentication error");
        }
        match self {
            Error::Io(m) => m.clone(),
            Error::ConstraintViolation => String::from_str("constraint violation"),
            Error::NotFound => String::from_str("not found"),
            Error::Serialization => String::from_str("malformed settings document"),
            Error::Render => String::from_str("rendering failed"),
            Error::AuthError => String::from_str("Authentication error"),
        }
    }
}

} // verus!
