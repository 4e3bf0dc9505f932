use crate::error::Error;
use crate::text::str_eq;
use vstd::prelude::*;

verus! {

/// The request methods this server understands.
#[derive(Debug, Clone, Copy, PartialEq, Eq, Structural)]
pub enum HTTPMethod {
    GET,
    POST,
    PUT,
    DELETE,
}

/// The method named by a request-line token, if it is one of the closed set.
pub open spec fn method_of(s: Seq<char>) -> Option<HTTPMethod> {
    if s == "GET"@ {
        Some(HTTPMethod::GET)
    } else if s == "POST"@ {
        Some(HTTPMethod::POST)
    } else if s == "PUT"@ {
        Some(HTTPMethod::PUT)
    } else if s == "DELETE"@ {
        Some(HTTPMethod::DELETE)
    } else {
        None
    }
}

impl HTTPMethod {
    /// Reads a method token; anything outside the closed set is `InvalidMethod`.
    pub fn from_str(method: &str) -> (r: Result<Self, Error>)
        ensures
            match method_of(method@) {
                Some(m) => r == Ok::<Self, Error>(m),
                None => r == Err::<Self, Error>(Error::InvalidMethod),
            },
    {
        if str_eq(method, "GET") {
            Ok(HTTPMethod::GET)
        } else if str_eq(method, "POST") {
            Ok(HTTPMethod::POST)
        } else if str_eq(method, "PUT") {
            Ok(HTTPMethod::PUT)
        } else if str_eq(method, "DELETE") {
            Ok(HTTPMethod::DELETE)
        } else {
            Err(Error::InvalidMethod)
        }
    }
}

} // verus!
