use crate::error::Error;
use vstd::prelude::*;
use vstd::string::*;

verus! {

/// The closed set of status codes this server emits.
#[derive(Debug, Clone, Copy, PartialEq, Eq, Structural)]
pub enum HTTPStatusCode {
    OK,
    Created,
    NotFound,
    InternalServerError,
}

/// The numeric code of a status.
pub open spec fn code_of(c: HTTPStatusCode) -> u16 {
    match c {
        HTTPStatusCode::OK => 200,
        HTTPStatusCode::Created => 201,
        HTTPStatusCode::NotFound => 404,
        HTTPStatusCode::InternalServerError => 500,
    }
}

/// The code followed by its reason phrase, as written on a status line.
pub open spec fn status_text(c: HTTPStatusCode) -> Seq<char> {
    match c {
        HTTPStatusCode::OK => "200 OK"@,
        HTTPStatusCode::Created => "201 Created"@,
        HTTPStatusCode::NotFound => "404 Not Found"@,
        HTTPStatusCode::InternalServerError => "500 Internal Server Error"@,
    }
}

impl HTTPStatusCode {
    /// The code and reason phrase, e.g. `"404 Not Found"`.
    pub fn as_str(&self) -> (r: &'static str)
        ensures
            r@ == status_text(*self),
    {
        match self {
            HTTPStatusCode::OK => "200 OK",
            HTTPStatusCode::Created => "201 Created",
            HTTPStatusCode::NotFound => "404 Not Found",
            HTTPStatusCode::InternalServerError => "500 Internal Server Error",
        }
    }

    /// The numeric code.
    pub fn code(&self) -> (r: u16)
        ensures
            r == code_of(*self),
    {
        match self {
            HTTPStatusCode::OK => 200,
            HTTPStatusCode::Created => 201,
            HTTPStatusCode::NotFound => 404,
            HTTPStatusCode::InternalServerError => 500,
        }
    }

    /// The status with numeric code `n`; a code outside the closed set is rejected.
    pub fn from_code(n: u16) -> (r: Result<Self, Error>)
        ensures
            match r {
                Ok(c) => code_of(c) == n,
                Err(e) => e == Error::InvalidStatusCode(n) && !(exists|c: HTTPStatusCode|
                    code_of(c) == n),
            },
    {
        if n == 200 {
            Ok(HTTPStatusCode::OK)
        } else if n == 201 {
            Ok(HTTPStatusCode::Created)
        } else if n == 404 {
            Ok(HTTPStatusCode::NotFound)
        } else if n == 500 {
            Ok(HTTPStatusCode::InternalServerError)
        } else {
            assert forall|c: HTTPStatusCode| code_of(c) != n by {
                match c {
                    HTTPStatusCode::OK => {},
                    HTTPStatusCode::Created => {},
                    HTTPStatusCode::NotFound => {},
                    HTTPStatusCode::InternalServerError => {},
                }
            }
            Err(Error::InvalidStatusCode(n))
        }
    }
}

/// A status line: the protocol version and the status code.
#[derive(Debug)]
pub struct HTTPStatus {
    pub status_code: HTTPStatusCode,
    pub version: String,
}

/// The status line of a status, without the trailing line break.
pub open spec fn status_line(code: HTTPStatusCode, version: Seq<char>) -> Seq<char> {
    "HTTP/"@ + version + " "@ + status_text(code)
}

impl HTTPStatus {
    pub fn new(status_code: HTTPStatusCode, version: String) -> (r: Self)
        ensures
            r.status_code == status_code,
            r.version@ == version@,
    {
        Self { status_code, version }
    }

    /// Renders `"HTTP/<version> <code> <reason>"`.
    pub fn to_string(&self) -> (r: String)
        ensures
            r@ == status_line(self.status_code, self.version@),
    {
        let mut r = String::from_str("HTTP/");
        r.append(self.version.as_str());
        r.append(" ");
        r.append(self.status_code.as_str());
        r
    }
}

} // verus!
