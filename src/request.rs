use crate::error::Error;
use crate::header::{header_of, HTTPHeader};
use crate::method::{method_of, HTTPMethod};
use crate::payload::HTTPPayload;
use crate::response::header_views;
use crate::text::{
    lemma_split_lines_nonempty, split_chars, split_crlf, split_lines, split_on, str_eq, views,
};
use vstd::prelude::*;
use vstd::string::*;
use vstd::utf8::{decode_utf8, encode_utf8_decode_utf8, valid_utf8};

verus! {

/// A parsed request.
#[derive(Debug)]
pub struct HTTPRequest {
    pub method: HTTPMethod,
    pub path: String,
    pub version: String,
    pub headers: Vec<HTTPHeader>,
    pub body: Option<HTTPPayload>,
}

/// The index of the first empty line at or after `j`, or the number of lines if none is.
pub open spec fn blank_from(lines: Seq<Seq<char>>, j: int) -> int
    decreases lines.len() - j,
{
    if j < 0 || j >= lines.len() {
        lines.len() as int
    } else if lines[j].len() == 0 {
        j
    } else {
        blank_from(lines, j + 1)
    }
}

/// The space-separated tokens of the request line.
pub open spec fn request_tokens(text: Seq<char>) -> Seq<Seq<char>> {
    split_on(split_lines(text)[0], ' ')
}

/// The index just past the header block: the first blank line after the request line.
pub open spec fn header_end(text: Seq<char>) -> int {
    blank_from(split_lines(text), 1)
}

/// Whether every line of the header block is a well-formed header.
pub open spec fn headers_well_formed(text: Seq<char>) -> bool {
    forall|i: int| 1 <= i < header_end(text) ==> (#[trigger] header_of(split_lines(text)[i])) is Some
}

/// The headers of the header block, in order.
pub open spec fn parsed_headers(text: Seq<char>) -> Seq<(Seq<char>, Seq<char>)> {
    Seq::new(
        (header_end(text) - 1) as nat,
        |i: int| header_of(split_lines(text)[i + 1])->Some_0,
    )
}

/// The body: the line after the blank line, when there is one and it is not empty.
pub open spec fn parsed_body(text: Seq<char>) -> Option<Seq<char>> {
    let lines = split_lines(text);
    let e = header_end(text);
    if e + 1 < lines.len() && lines[e + 1].len() > 0 {
        Some(lines[e + 1])
    } else {
        None
    }
}

/// The index of the first header at or after `i` whose name is `name`, or -1.
pub open spec fn first_named(hs: Seq<(Seq<char>, Seq<char>)>, name: Seq<char>, i: int) -> int
    decreases hs.len() - i,
{
    if i < 0 || i >= hs.len() {
        -1
    } else if hs[i].0 == name {
        i
    } else {
        first_named(hs, name, i + 1)
    }
}

/// A found header lies in range and carries the name.
pub proof fn lemma_first_named(hs: Seq<(Seq<char>, Seq<char>)>, name: Seq<char>, i: int)
    requires
        0 <= i,
    ensures
        first_named(hs, name, i) == -1 || (i <= first_named(hs, name, i) < hs.len() && hs[first_named(
            hs,
            name,
            i,
        )].0 == name),
    decreases hs.len() - i,
{
    if i < hs.len() && hs[i].0 != name {
        lemma_first_named(hs, name, i + 1);
    }
}

/// The first blank line at or after `j` is not before `j`.
proof fn lemma_blank_from_ge(lines: Seq<Seq<char>>, j: int)
    requires
        0 <= j,
    ensures
        blank_from(lines, j) >= j || blank_from(lines, j) == lines.len(),
    decreases lines.len() - j,
{
    if j < lines.len() && lines[j].len() != 0 {
        lemma_blank_from_ge(lines, j + 1);
    }
}

/// `r` is the outcome of parsing the request text `text`.
pub open spec fn parsed_as(text: Seq<char>, r: Result<HTTPRequest, Error>) -> bool {
    let toks = request_tokens(text);
    if toks.len() != 3 {
        r == Err::<HTTPRequest, Error>(Error::ParseError)
    } else if method_of(toks[0]) is None {
        r == Err::<HTTPRequest, Error>(Error::InvalidMethod)
    } else if !headers_well_formed(text) {
        r == Err::<HTTPRequest, Error>(Error::ParseError)
    } else {
        r matches Ok(req) && {
            &&& Some(req.method) == method_of(toks[0])
            &&& req.path@ == toks[1]
            &&& req.version@ == toks[2]
            &&& header_views(req.headers@) == parsed_headers(text)
            &&& match parsed_body(text) {
                None => req.body is None,
                Some(b) => req.body is Some && req.body->Some_0@ == b,
            }
        }
    }
}

/// Relies on `std::str::from_utf8`: it accepts exactly the valid UTF-8 byte sequences,
/// and the text it returns is made of those same bytes.
#[verifier::external_body]
fn utf8_text(bytes: &[u8]) -> (r: Option<&str>)
    ensures
        r is Some <==> valid_utf8(bytes@),
        r matches Some(t) ==> t.spec_bytes() == bytes@,
{
    std::str::from_utf8(bytes).ok()
}

impl HTTPRequest {
    /// Parses a request from raw bytes. Bytes that are not valid UTF-8 are a
    /// `ParseError`; otherwise the decoded text is parsed as by `parse`.
    pub fn from_bytes(bytes: &[u8]) -> (r: Result<Self, Error>)
        ensures
            !valid_utf8(bytes@) ==> r == Err::<Self, Error>(Error::ParseError),
            valid_utf8(bytes@) ==> parsed_as(decode_utf8(bytes@), r),
    {
        match utf8_text(bytes) {
            None => Err(Error::ParseError),
            Some(t) => {
                proof {
                    encode_utf8_decode_utf8(t@);
                }
                Self::parse(t)
            },
        }
    }

    /// Parses a request text: a request line of exactly three space-separated tokens
    /// (method, path, version), header lines up to the first empty line, then at most
    /// one body line. A wrong number of tokens or a malformed header line is a
    /// `ParseError`; a method outside the closed set is `InvalidMethod`.
    pub fn parse(text: &str) -> (r: Result<Self, Error>)
        ensures
            parsed_as(text@, r),
    {
        let lines = split_crlf(text);
        let ghost ls = split_lines(text@);
        proof {
            lemma_split_lines_nonempty(text@);
            assert(views(lines@)[0] == lines@[0]@);
        }
        let toks = split_chars(lines[0].as_str(), ' ');
        assert(views(toks@) == request_tokens(text@));
        if toks.len() != 3 {
            return Err(Error::ParseError);
        }
        proof {
            assert(views(toks@)[0] == toks@[0]@);
            assert(views(toks@)[1] == toks@[1]@);
            assert(views(toks@)[2] == toks@[2]@);
        }
        let method = match HTTPMethod::from_str(toks[0].as_str()) {
            Ok(m) => m,
            Err(e) => {
                return Err(e);
            },
        };
        let mut headers: Vec<HTTPHeader> = Vec::new();
        let mut j: usize = 1;
        while j < lines.len() && lines[j].as_str().unicode_len() != 0
            invariant
                ls == views(lines@),
                ls == split_lines(text@),
                views(toks@) == request_tokens(text@),
                toks@.len() == 3,
                method_of(request_tokens(text@)[0]) == Some(method),
                1 <= j <= lines@.len(),
                blank_from(ls, 1) == blank_from(ls, j as int),
                forall|i: int| 1 <= i < j ==> (#[trigger] header_of(ls[i])) is Some,
                header_views(headers@) == Seq::new(
                    (j - 1) as nat,
                    |i: int| header_of(ls[i + 1])->Some_0,
                ),
            decreases lines@.len() - j,
        {
            assert(ls[j as int] == lines@[j as int]@);
            match HTTPHeader::parse(lines[j].as_str()) {
                Ok(h) => {
                    let ghost prev = headers@;
                    headers.push(h);
                    assert(header_views(headers@) =~= Seq::new(
                        j as nat,
                        |i: int| header_of(ls[i + 1])->Some_0,
                    )) by {
                        assert(headers@ == prev.push(h));
                        assert(header_views(headers@) =~= header_views(prev).push(h@));
                        assert(h@ == header_of(ls[j as int])->Some_0);
                    }
                },
                Err(e) => {
                    assert(ls[j as int].len() != 0);
                    proof {
                        lemma_blank_from_ge(ls, j as int + 1);
                    }
                    assert(blank_from(ls, j as int) > j);
                    assert(header_of(ls[j as int]) is None);
                    assert(header_end(text@) > j);
                    assert(header_of(split_lines(text@)[j as int]) is None);
                    assert(!headers_well_formed(text@));
                    return Err(e);
                },
            }
            j = j + 1;
        }
        assert(j < lines@.len() ==> ls[j as int] == lines@[j as int]@);
        assert(blank_from(ls, j as int) == j);
        let body = if j < lines.len() && j + 1 < lines.len() && lines[j + 1].as_str().unicode_len() != 0 {
            assert(ls[j + 1] == lines@[j + 1]@);
            Some(HTTPPayload::new(lines[j + 1].clone()))
        } else {
            assert(j + 1 < lines@.len() ==> ls[j + 1] == lines@[j + 1]@);
            None
        };
        let path = toks[1].clone();
        let version = toks[2].clone();
        Ok(Self { method, path, version, headers, body })
    }

    /// The path cut at every `/`.
    pub fn get_path_parts(&self) -> (r: Vec<String>)
        ensures
            views(r@) == split_on(self.path@, '/'),
    {
        split_chars(self.path.as_str(), '/')
    }

    /// The first header whose name is exactly `name`.
    pub fn get_header(&self, name: &str) -> (r: Option<&HTTPHeader>)
        ensures
            first_named(header_views(self.headers@), name@, 0) == -1 ==> r is None,
            first_named(header_views(self.headers@), name@, 0) != -1 ==> r is Some
                && *r->Some_0 == self.headers@[first_named(header_views(self.headers@), name@, 0)],
    {
        let mut i: usize = 0;
        while i < self.headers.len()
            invariant
                i <= self.headers@.len(),
                first_named(header_views(self.headers@), name@, 0) == first_named(
                    header_views(self.headers@),
                    name@,
                    i as int,
                ),
            decreases self.headers@.len() - i,
        {
            if str_eq(self.headers[i].name.as_str(), name) {
                return Some(&self.headers[i]);
            }
            i = i + 1;
        }
        None
    }
}

} // verus!
