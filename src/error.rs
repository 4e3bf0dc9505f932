use vstd::prelude::*;
use vstd::string::*;

verus! {

/// Everything that can go wrong in the protocol layer.
#[derive(Debug, Clone, Copy, PartialEq, Eq, Structural)]
pub enum Error {
    DirectoryNotSet,
    InvalidMethod,
    FailedToCompressPayload,
    InvalidStatusCode(u16),
    ParseError,
}

/// The human-readable description of an error.
pub open spec fn error_text(e: Error) -> Seq<char> {
    match e {
        Error::DirectoryNotSet => "Directory not set"@,
        Error::InvalidMethod => "Invalid method"@,
        Error::FailedToCompressPayload => "Failed to compress payload"@,
        Error::InvalidStatusCode(_) => "Invalid status code"@,
        Error::ParseError => "Malformed request"@,
    }
}

impl Error {
    /// The textual description carried in the body of a 500 response.
    pub fn message(&self) -> (r: String)
        ensures
            r@ == error_text(*self),
    {
        match self {
            Error::DirectoryNotSet => String::from_str("Directory not set"),
            Error::InvalidMethod => String::from_str("Invalid method"),
            Error::FailedToCompressPayload => String::from_str("Failed to compress payload"),
            Error::InvalidStatusCode(_) => String::from_str("Invalid status code"),
            Error::ParseError => String::from_str("Malformed request"),
        }
    }
}

} // verus!
