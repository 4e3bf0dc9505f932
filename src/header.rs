use crate::error::Error;
use vstd::prelude::*;
use vstd::string::*;

verus! {

/// A single `name: value` header line.
#[derive(Debug, Clone)]
pub struct HTTPHeader {
    pub name: String,
    pub value: String,
}

impl View for HTTPHeader {
    type V = (Seq<char>, Seq<char>);

    open spec fn view(&self) -> (Seq<char>, Seq<char>) {
        (self.name@, self.value@)
    }
}

/// The first position at or after `i` where `": "` starts, or -1 if there is none.
pub open spec fn first_sep(s: Seq<char>, i: int) -> int
    decreases s.len() - i,
{
    if i < 0 || i + 1 >= s.len() {
        -1
    } else if s[i] == ':' && s[i + 1] == ' ' {
        i
    } else {
        first_sep(s, i + 1)
    }
}

/// A header line split at its first `": "`; `None` for a line without one.
pub open spec fn header_of(s: Seq<char>) -> Option<(Seq<char>, Seq<char>)> {
    let k = first_sep(s, 0);
    if k < 0 {
        None
    } else {
        Some((s.subrange(0, k), s.subrange(k + 2, s.len() as int)))
    }
}

/// How a header is written on the wire, without the line break.
pub open spec fn header_text(h: (Seq<char>, Seq<char>)) -> Seq<char> {
    h.0 + ": "@ + h.1
}

impl HTTPHeader {
    pub fn new(name: String, value: String) -> (r: Self)
        ensures
            r.name@ == name@,
            r.value@ == value@,
    {
        Self { name, value }
    }

    /// Renders `"name: value"`.
    pub fn to_string(&self) -> (r: String)
        ensures
            r@ == header_text(self@),
    {
        let mut r = self.name.clone();
        r.append(": ");
        r.append(self.value.as_str());
        r
    }

    /// Reads a header line, splitting it at the first `": "`. A line without that
    /// separator is malformed.
    pub fn parse(line: &str) -> (r: Result<Self, Error>)
        ensures
            match header_of(line@) {
                Some(h) => r is Ok && r->Ok_0@ == h,
                None => r == Err::<Self, Error>(Error::ParseError),
            },
    {
        let n = line.unicode_len();
        let mut i: usize = 0;
        while i < n && i + 1 < n
            invariant
                n == line@.len(),
                i <= n,
                first_sep(line@, 0) == first_sep(line@, i as int),
            decreases n - i,
        {
            if line.get_char(i) == ':' && line.get_char(i + 1) == ' ' {
                let name = line.substring_char(0, i).to_owned();
                let value = line.substring_char(i + 2, n).to_owned();
                return Ok(Self { name, value });
            }
            i = i + 1;
        }
        Err(Error::ParseError)
    }
}

} // verus!
